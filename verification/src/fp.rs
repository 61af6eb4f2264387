//! Software floating point and integer division: bit-exact models of the RISC5
//! arithmetic units (`FPAdder.v`, `FPMultiplier.v`, `FPDivider.v`, `Divider.v`).
//!
//! The RISC5 format is a 32-bit word: sign in bit 31, an 8-bit biased exponent in
//! bits 30..23 and a 23-bit mantissa with a hidden leading one. The units are not
//! IEEE 754: they have no infinities or NaNs as such, round by adding one at a
//! guard bit, and flush an exponent out of range to zero or to the all-ones
//! exponent. Each unit is specified below as its hardware datapath (unpack,
//! align, add or multiply, normalize, pack), and the executable functions are
//! proved equal to those datapaths. `FAD` with its `u` modifier is FLT (integer to
//! float) and with `v` it is FLOOR (float to integer); `FSB` is `FAD` with the
//! second operand's sign flipped by the caller.
use vstd::prelude::*;
use vstd::arithmetic::power2::{lemma2_to64, lemma_pow2_adds, lemma_pow2_pos, lemma_pow2_strictly_increases, pow2};

verus! {

/// Result of an integer division: quotient and remainder.
#[derive(Debug, Clone, Copy, PartialEq, Eq, Structural)]
pub struct IDiv {
    pub quot: u32,
    pub rem: u32,
}

/// Two's-complement negation of a 32-bit word.
pub open spec fn neg32(x: u32) -> u32 {
    vstd::wrapping::u32_specs::wrapping_sub(0, x)
}

/// The exponent field (bits 30..23) of a RISC5 float.
pub open spec fn exponent(x: u32) -> u32 {
    (x >> 23) & 0xFF
}

/// The sign bit of a RISC5 float.
pub open spec fn sign_bit(x: u32) -> bool {
    (x & 0x8000_0000) != 0
}

/// Whether `x` is a (positive or negative) zero: everything but the sign clear.
pub open spec fn is_zero_word(x: u32) -> bool {
    (x & 0x7FFF_FFFF) == 0
}

/// The adder's first operand as (exponent, signed mantissa): a float with its
/// hidden one at bit 24 and a guard bit at bit 0, negated for a negative sign;
/// for FLT (`u`) a 24-bit signed integer at the fixed exponent 150 (127 + 23).
pub open spec fn adder_unpack_x(x: u32, u: bool) -> (u32, i32) {
    if !u {
        let m = ((x & 0x7F_FFFF) << 1) | 0x100_0000;
        (exponent(x), (if sign_bit(x) { neg32(m) } else { m }) as i32)
    } else {
        (150, ((((x & 0x00FF_FFFF) << 8) as i32) >> 7))
    }
}

/// The adder's second operand as a signed mantissa; the hidden one is only
/// supplied for a plain add (neither FLT nor FLOOR).
pub open spec fn adder_unpack_y(y: u32, u: bool, v: bool) -> i32 {
    let m0 = (y & 0x7F_FFFF) << 1;
    let m = if !u && !v { m0 | 0x100_0000 } else { m0 };
    (if sign_bit(y) { neg32(m) } else { m }) as i32
}

/// Arithmetic right shift that saturates to a full sign fill for 32 places or more.
pub open spec fn asr_sat(m: i32, shift: u32) -> i32 {
    if shift > 31 { m >> 31 } else { m >> shift }
}

/// A signed mantissa placed in the adder's 27-bit field: its 25 low bits, with the
/// operand's sign replicated into the two guard bits 26 and 25.
pub open spec fn adder_field(sign: bool, m: i32) -> u32 {
    let s: u32 = if sign { 1 } else { 0 };
    (s << 26) | (s << 25) | ((m as u32) & 0x01FF_FFFF)
}

/// The aligned sum: both mantissas shifted to the larger exponent and added in the
/// 27-bit field. Returns (larger exponent, raw sum).
pub open spec fn adder_sum(x: u32, y: u32, u: bool, v: bool) -> (u32, u32) {
    let (x_exp, x_signed) = adder_unpack_x(x, u);
    let y_exp = exponent(y);
    let y_signed = adder_unpack_y(y, u, v);
    let (exp, xa, ya) = if y_exp > x_exp {
        (y_exp, asr_sat(x_signed, (y_exp - x_exp) as u32), y_signed)
    } else {
        (x_exp, x_signed, asr_sat(y_signed, (x_exp - y_exp) as u32))
    };
    (exp, vstd::wrapping::u32_specs::wrapping_add(
        adder_field(sign_bit(x), xa),
        adder_field(sign_bit(y), ya),
    ))
}

/// Magnitude of the 27-bit sum plus one (the rounding bias).
pub open spec fn adder_magnitude(sum: u32) -> u32 {
    let a = if sum & (1u32 << 26) != 0 { neg32(sum) } else { sum };
    vstd::wrapping::u32_specs::wrapping_add(a, 1) & 0x07FF_FFFF
}

/// Post-normalization: shift the mantissa left (decrementing the exponent) until
/// its leading one reaches bit 24, for at most `fuel` places.
pub open spec fn normalize(m: u32, e: u32, fuel: nat) -> (u32, u32)
    decreases fuel,
{
    if fuel == 0 || m & (1u32 << 24) != 0 {
        (m, e)
    } else {
        normalize(m << 1, vstd::wrapping::u32_specs::wrapping_sub(e, 1), (fuel - 1) as nat)
    }
}

/// The normalized (mantissa, exponent) of the adder: a sum with any bit in the
/// significant region is normalized (24 places always suffice), anything smaller
/// takes the hardware's fixed 24-place shift.
pub open spec fn adder_normalized(exp: u32, mag: u32) -> (u32, u32) {
    let e1 = vstd::wrapping::u32_specs::wrapping_add(exp, 1);
    if (mag & 0x3FF_FFFC) != 0 {
        normalize(mag >> 1, e1, 24)
    } else {
        ((mag >> 1) << 24, vstd::wrapping::u32_specs::wrapping_sub(e1, 24))
    }
}

/// `FAD` (with `u`: FLT, with `v`: FLOOR), as the `FPAdder` datapath computes it.
pub open spec fn fp_add_spec(x: u32, y: u32, u: bool, v: bool) -> u32 {
    let (exp, sum) = adder_sum(x, y, u, v);
    let (out_mant, out_exp) = adder_normalized(exp, adder_magnitude(sum));
    if v {
        (((sum << 5) as i32) >> 6) as u32
    } else if is_zero_word(x) {
        if u || is_zero_word(y) { 0 } else { y }
    } else if is_zero_word(y) {
        x
    } else if (out_mant & 0x01FF_FFFF) == 0 || (out_exp & 0x100) != 0 {
        0
    } else {
        ((sum & 0x0400_0000) << 5) | (out_exp << 23) | ((out_mant >> 1) & 0x7F_FFFF)
    }
}

/// The 24-bit mantissa of a float with its hidden leading one.
pub open spec fn full_mantissa(x: u32) -> u32 {
    (x & 0x7F_FFFF) | 0x80_0000
}

/// Pack a product or quotient: zero for a zero operand handled by the caller;
/// an exponent in range gives `sign | e | m`, an overflow (bit 8 set, bit 7 clear)
/// gives the all-ones exponent, an underflow gives zero.
pub open spec fn pack(sign: u32, e: u32, m_in_range: u32, m_overflow: u32) -> u32 {
    if (e & 0x100) == 0 {
        sign | ((e & 0xFF) << 23) | m_in_range
    } else if (e & 0x80) == 0 {
        sign | (0xFFu32 << 23) | m_overflow
    } else {
        0
    }
}

/// `FML`, as the `FPMultiplier` datapath computes it: multiply the 24-bit
/// mantissas, add the exponents, round at bit 23 (product >= 2) or 22.
pub open spec fn fp_mul_spec(x: u32, y: u32) -> u32 {
    let sign = (x ^ y) & 0x8000_0000;
    let xe = exponent(x);
    let ye = exponent(y);
    let m: u64 = ((full_mantissa(x) as int) * (full_mantissa(y) as int)) as u64;
    let big = (m & (1u64 << 47)) != 0;
    let e0 = vstd::wrapping::u32_specs::wrapping_sub((xe + ye) as u32, 127);
    let e1 = if big { vstd::wrapping::u32_specs::wrapping_add(e0, 1) } else { e0 };
    let z0 = if big {
        ((((m >> 23) + 1) as u64) & 0xFF_FFFF) as u32
    } else {
        ((((m >> 22) + 1) as u64) & 0xFF_FFFF) as u32
    };
    if xe == 0 || ye == 0 {
        0
    } else {
        pack(sign, e1, z0 >> 1, z0 >> 1)
    }
}

/// `FDV`, as the `FPDivider` datapath computes it: divide the mantissas (the
/// dividend pre-scaled by 2^25), subtract the exponents, round by one; a zero
/// divisor yields the all-ones exponent.
pub open spec fn fp_div_spec(x: u32, y: u32) -> u32 {
    let sign = (x ^ y) & 0x8000_0000;
    let xe = exponent(x);
    let ye = exponent(y);
    let q1: u32 = ((full_mantissa(x) as int * 0x200_0000) / (full_mantissa(y) as int)) as u32;
    let big = (q1 & (1u32 << 25)) != 0;
    let e0 = vstd::wrapping::u32_specs::wrapping_add(
        vstd::wrapping::u32_specs::wrapping_sub(xe, ye),
        126,
    );
    let e1 = if big { vstd::wrapping::u32_specs::wrapping_add(e0, 1) } else { e0 };
    let q2 = if big { (q1 >> 1) & 0xFF_FFFF } else { q1 & 0xFF_FFFF };
    let q3 = vstd::wrapping::u32_specs::wrapping_add(q2, 1);
    if xe == 0 {
        0
    } else if ye == 0 {
        sign | (0xFFu32 << 23)
    } else {
        pack(sign, e1, q3 >> 1, q2 >> 1)
    }
}

/// One step of the restoring divider on its 64-bit RQ register (remainder in the
/// high word, dividend/quotient shifting through the low word).
pub open spec fn divider_step(rq: u64, y: u32) -> u64 {
    let w0 = (rq >> 31) as u32;
    let w1 = vstd::wrapping::u32_specs::wrapping_sub(w0, y);
    if (w1 as i32) < 0 {
        ((w0 as u64) << 32) | ((rq & 0x7FFF_FFFF) << 1)
    } else {
        ((w1 as u64) << 32) | ((rq & 0x7FFF_FFFF) << 1) | 1
    }
}

/// `n` steps of the restoring divider.
pub open spec fn divider_steps(rq: u64, y: u32, n: nat) -> u64
    decreases n,
{
    if n == 0 { rq } else { divider_steps(divider_step(rq, y), y, (n - 1) as nat) }
}

/// 2 to the `n`.
pub open spec fn p2(n: nat) -> nat
    decreases n,
{
    if n == 0 { 1 } else { 2 * p2((n - 1) as nat) }
}

proof fn lemma_p2_mul(a: nat, b: nat)
    ensures
        p2(a) * p2(b) == p2(a + b),
        p2(a) >= 1,
    decreases a,
{
    if a > 0 {
        lemma_p2_mul((a - 1) as nat, b);
        assert(p2(a + b) == 2 * p2((a - 1 + b) as nat));
        assert(p2(a) * p2(b) == 2 * (p2((a - 1) as nat) * p2(b))) by (nonlinear_arith)
            requires p2(a) == 2 * p2((a - 1) as nat);
        assert(((a - 1) as nat + b) as nat == (a - 1 + b) as nat);
    } else {
        assert(p2(0) == 1);
        assert(p2(a) * p2(b) == p2(b)) by (nonlinear_arith)
            requires p2(a) == 1;
    }
}

proof fn lemma_p2_32()
    ensures
        p2(32) == 0x1_0000_0000,
{
    reveal_with_fuel(p2, 9);
    assert(p2(8) == 256);
    lemma_p2_mul(8, 8);
    assert(p2(16) == 65536);
    lemma_p2_mul(16, 16);
}

/// One divider step on a register holding a remainder below the divisor: the
/// register doubles, and when its high word then reaches the divisor, the
/// divisor comes off the high word and a quotient bit goes in.
proof fn lemma_divider_step_arith(rq: u64, y: u32)
    requires
        0 < y < 0x8000_0000,
        rq / 0x1_0000_0000 < y,
    ensures
        rq / 0x8000_0000 >= y ==> divider_step(rq, y) == 2 * rq - y * 0x1_0000_0000 + 1,
        rq / 0x8000_0000 < y ==> divider_step(rq, y) == 2 * rq,
{
    let w0 = (rq >> 31) as u32;
    let w1 = vstd::wrapping::u32_specs::wrapping_sub(w0, y);
    assert(w1 == if w0 >= y { (w0 - y) as u32 } else { (w0 - y + 0x1_0000_0000) as u32 });
    assert({
        &&& w0 == rq / 0x8000_0000
        &&& (w0 >= y ==> (w1 as i32) >= 0) && (w0 < y ==> (w1 as i32) < 0)
        &&& w0 >= y ==> ((w1 as u64) << 32) | ((rq & 0x7FFF_FFFF) << 1) | 1 == 2 * rq - y * 0x1_0000_0000 + 1
        &&& w0 < y ==> ((w0 as u64) << 32) | ((rq & 0x7FFF_FFFF) << 1) == 2 * rq
    }) by (bit_vector)
        requires
            0 < y < 0x8000_0000,
            rq / 0x1_0000_0000 < y,
            w0 == (rq >> 31) as u32,
            w1 == if w0 >= y { (w0 - y) as u32 } else { (w0 - y + 0x1_0000_0000) as u32 };
}

/// `DIV` as the `Divider` unit computes it: 32 restoring steps on the magnitude of
/// `x`, then, for a signed division of a negative dividend, the floor fix-up.
pub open spec fn idiv_spec(x: u32, y: u32, signed_div: bool) -> IDiv {
    let sign = (x as i32) < 0 && signed_div;
    let x0 = if sign { neg32(x) } else { x };
    let rq = divider_steps(x0 as u64, y, 32);
    let quot = rq as u32;
    let rem = (rq >> 32) as u32;
    if !sign {
        IDiv { quot, rem }
    } else if rem != 0 {
        IDiv {
            quot: vstd::wrapping::u32_specs::wrapping_sub(neg32(quot), 1),
            rem: vstd::wrapping::u32_specs::wrapping_sub(y, rem),
        }
    } else {
        IDiv { quot: neg32(quot), rem }
    }
}

/// `divider_steps` runs its steps one after another.
proof fn lemma_divider_steps_last(rq: u64, y: u32, k: nat)
    ensures
        divider_steps(rq, y, k + 1) == divider_step(divider_steps(rq, y, k), y),
    decreases k,
{
    if k > 0 {
        lemma_divider_steps_last(divider_step(rq, y), y, (k - 1) as nat);
        assert((k - 1) as nat + 1 == k);
        assert(divider_steps(rq, y, k) == divider_steps(divider_step(rq, y), y, (k - 1) as nat));
        assert(divider_steps(rq, y, k + 1) == divider_steps(divider_step(rq, y), y, k));
    } else {
        assert(divider_steps(rq, y, 0) == rq);
        assert(divider_steps(divider_step(rq, y), y, 0) == divider_step(rq, y));
        assert(divider_steps(rq, y, 1) == divider_steps(divider_step(rq, y), y, 0));
    }
}

/// Division by a power of two, one bit at a time: the top bits of `x` above
/// `e - 1` are twice those above `e` plus the next bit, and the bits below.
proof fn lemma_next_bit(x: int, e: nat)
    requires
        x >= 0,
        e >= 1,
    ensures
        x / (p2((e - 1) as nat) as int) == 2 * (x / (p2(e) as int)) + (x / (p2((e - 1) as nat) as int)) % 2,
        x % (p2(e) as int) == ((x / (p2((e - 1) as nat) as int)) % 2) * p2((e - 1) as nat) + x % (p2((e - 1) as nat) as int),
{
    let d = p2((e - 1) as nat) as int;
    lemma_p2_mul((e - 1) as nat, 1);
    assert(p2(1) == 2) by {
        reveal_with_fuel(p2, 2);
    }
    assert(((e - 1) as nat + 1) as nat == e);
    let dd = p2(e) as int;
    assert(dd == 2 * d);
    let q1 = x / d;
    let r1 = x % d;
    let q = q1 / 2;
    let b = q1 % 2;
    assert(x == q1 * d + r1 && 0 <= r1 < d) by (nonlinear_arith)
        requires d >= 1, q1 == x / d, r1 == x % d;
    assert(q1 == 2 * q + b && 0 <= b < 2);
    assert(x == q * dd + (b * d + r1) && 0 <= b * d + r1 < dd) by (nonlinear_arith)
        requires x == q1 * d + r1, q1 == 2 * q + b, dd == 2 * d, 0 <= r1 < d, 0 <= b < 2;
    vstd::arithmetic::div_mod::lemma_fundamental_div_mod_converse(x, dd, q, b * d + r1);
}

/// After `k` divider steps on `x` by `0 < y < 2^31`, the register holds the
/// remainder of the top `k` bits of `x` by `y` in its high word, and below it
/// the remaining bits of `x` over the quotient's `k` bits.
proof fn lemma_divider_steps(x: u32, y: u32, k: nat)
    requires
        0 < y < 0x8000_0000,
        k <= 32,
    ensures
        ({
            let e = (32 - k) as nat;
            let hi = x as int / (p2(e) as int);
            let lo = x as int % (p2(e) as int);
            &&& divider_steps(x as u64, y, k) as int == (hi % (y as int)) * 0x1_0000_0000 + lo * p2(k) + hi / (y as int)
            &&& hi / (y as int) < p2(k)
        }),
    decreases k,
{
    lemma_p2_32();
    let yi = y as int;
    let P: int = 0x1_0000_0000;
    if k == 0 {
        assert(x as int / (p2(32) as int) == 0);
        assert(x as int % (p2(32) as int) == x as int);
        assert(divider_steps(x as u64, y, 0) == x as u64);
        assert(p2(0) == 1);
    } else {
        let k0 = (k - 1) as nat;
        lemma_divider_steps(x, y, k0);
        lemma_divider_steps_last(x as u64, y, k0);
        assert(k0 + 1 == k);
        let e = (32 - k0) as nat;
        let e1 = (32 - k) as nat;
        assert(e1 == (e - 1) as nat);
        let rq = divider_steps(x as u64, y, k0);
        let hi = x as int / (p2(e) as int);
        let lo = x as int % (p2(e) as int);
        let r = hi % yi;
        let q = hi / yi;
        lemma_p2_mul(e, k0);
        lemma_p2_mul(e1, k0);
        lemma_p2_mul(e1, k);
        lemma_p2_mul(k0, 1);
        assert(p2(1) == 2) by {
            reveal_with_fuel(p2, 2);
        }
        assert(p2(e) * p2(k0) == P);
        assert(e1 + k0 == 31);
        assert(p2(31) * 2 == P) by {
            lemma_p2_mul(31, 1);
            assert(31nat + 1 == 32nat);
        }
        let h31: int = p2(31) as int;
        assert(h31 == 0x8000_0000);
        lemma_next_bit(x as int, e);
        let hi1 = x as int / (p2(e1) as int);
        let lo1 = x as int % (p2(e1) as int);
        let b = hi1 % 2;
        assert(hi1 == 2 * hi + b);
        assert(lo == b * p2(e1) + lo1);
        assert(0 <= r < yi && 0 <= q) by (nonlinear_arith)
            requires yi > 0, hi >= 0, r == hi % yi, q == hi / yi;
        assert(hi == yi * q + r) by (nonlinear_arith)
            requires yi > 0, r == hi % yi, q == hi / yi;
        assert(0 <= lo1 < p2(e1) && 0 <= lo < p2(e)) by (nonlinear_arith)
            requires p2(e1) >= 1, p2(e) >= 1, lo1 == x as int % (p2(e1) as int), lo == x as int % (p2(e) as int), x >= 0;
        // The register below its high word, and below bit 31.
        let rest = lo1 * p2(k0) + q;
        let pa = p2(e1) as int;
        let pc = p2(k0) as int;
        assert(0 <= rest < h31) by (nonlinear_arith)
            requires 0 <= lo1 < pa, 0 <= q < pc, pa * pc == h31, pc >= 1, rest == lo1 * pc + q;
        assert(rq as int == (2 * r + b) * h31 + rest) by (nonlinear_arith)
            requires
                rq as int == r * P + lo * p2(k0) + q,
                lo == b * p2(e1) + lo1,
                p2(e1) * p2(k0) == h31,
                P == 2 * h31,
                rest == lo1 * p2(k0) + q;
        assert(0 <= b < 2);
        vstd::arithmetic::div_mod::lemma_fundamental_div_mod_converse(rq as int, h31, 2 * r + b, rest);
        vstd::arithmetic::div_mod::lemma_fundamental_div_mod_converse(rq as int, P, r, b * h31 + rest);
        lemma_divider_step_arith(rq, y);
        let h = 2 * r + b;
        let next = divider_steps(x as u64, y, k);
        assert(2 * rest == lo1 * p2(k) + 2 * q) by (nonlinear_arith)
            requires rest == lo1 * p2(k0) + q, p2(k) == 2 * p2(k0);
        if h >= yi {
            assert(next as int == (h - yi) * P + lo1 * p2(k) + (2 * q + 1)) by (nonlinear_arith)
                requires
                    next as int == 2 * (rq as int) - yi * P + 1,
                    rq as int == h * h31 + rest,
                    P == 2 * h31,
                    2 * rest == lo1 * p2(k) + 2 * q;
            assert(hi1 == yi * (2 * q + 1) + (h - yi)) by (nonlinear_arith)
                requires hi1 == 2 * hi + b, hi == yi * q + r, h == 2 * r + b;
            vstd::arithmetic::div_mod::lemma_fundamental_div_mod_converse(hi1, yi, 2 * q + 1, h - yi);
        } else {
            assert(next as int == h * P + lo1 * p2(k) + 2 * q) by (nonlinear_arith)
                requires
                    next as int == 2 * (rq as int),
                    rq as int == h * h31 + rest,
                    P == 2 * h31,
                    2 * rest == lo1 * p2(k) + 2 * q;
            assert(hi1 == yi * (2 * q) + h) by (nonlinear_arith)
                requires hi1 == 2 * hi + b, hi == yi * q + r, h == 2 * r + b;
            vstd::arithmetic::div_mod::lemma_fundamental_div_mod_converse(hi1, yi, 2 * q, h);
        }
    }
}

/// `DIV` by a divisor in `1..2^31` as the divider computes it floors: signed,
/// the quotient times the divisor plus a remainder in `0..y` gives back the
/// dividend; unsigned, it is plain division.
pub proof fn law_idiv_floors(x: u32, y: u32, signed_div: bool)
    requires
        0 < y < 0x8000_0000,
    ensures
        signed_div ==> crate::risc::signed(idiv_spec(x, y, signed_div).quot) * (y as int) + idiv_spec(
            x,
            y,
            signed_div,
        ).rem == crate::risc::signed(x) && idiv_spec(x, y, signed_div).rem < y,
        !signed_div ==> idiv_spec(x, y, signed_div).quot == x / y && idiv_spec(x, y, signed_div).rem == x % y,
{
    let sign = (x as i32) < 0 && signed_div;
    let x0 = if sign { neg32(x) } else { x };
    lemma_divider_steps(x0, y, 32);
    lemma_p2_32();
    assert(p2(0) == 1);
    let rq = divider_steps(x0 as u64, y, 32);
    let yi = y as int;
    let q0 = x0 as int / yi;
    let r0 = x0 as int % yi;
    assert(x0 as int / 1 == x0 as int && x0 as int % 1 == 0);
    assert(rq as int == r0 * 0x1_0000_0000 + q0);
    assert(0 <= q0 < 0x1_0000_0000 && 0 <= r0 < yi) by (nonlinear_arith)
        requires yi > 0, x0 >= 0, q0 == x0 as int / yi, r0 == x0 as int % yi, q0 < 0x1_0000_0000;
    assert(rq as u32 == rq % 0x1_0000_0000 && (rq >> 32) as u32 == rq / 0x1_0000_0000 && ((x as i32) < 0) == (
    x >= 0x8000_0000)) by (bit_vector);
    vstd::arithmetic::div_mod::lemma_fundamental_div_mod_converse(rq as int, 0x1_0000_0000, r0, q0);
    assert(rq as u32 == q0 && (rq >> 32) as u32 == r0);
    assert(x0 as int == yi * q0 + r0) by (nonlinear_arith)
        requires yi > 0, q0 == x0 as int / yi, r0 == x0 as int % yi;
    let q = rq as u32;
    let r = (rq >> 32) as u32;
    let d = idiv_spec(x, y, signed_div);
    if sign {
        assert(x0 as int == 0x1_0000_0000 - x);
        assert(crate::risc::signed(x) == -(x0 as int));
        if r != 0 {
            assert(q0 + 1 <= 0x8000_0000) by (nonlinear_arith)
                requires x0 as int == yi * q0 + r0, 0 < r0 < yi, x0 <= 0x8000_0000, q0 >= 0;
            assert(d.quot as int == 0x1_0000_0000 - q0 - 1);
            assert(crate::risc::signed(d.quot) == -(q0 + 1));
            assert(d.rem == y - r);
            assert(-(q0 + 1) * yi + (yi - r0) == -(x0 as int)) by (nonlinear_arith)
                requires x0 as int == yi * q0 + r0;
        } else {
            assert(q0 <= 0x8000_0000) by (nonlinear_arith)
                requires x0 as int == yi * q0, yi >= 1, x0 <= 0x8000_0000, q0 >= 0;
            assert(crate::risc::signed(d.quot) == -q0);
            assert(d.rem == 0);
            assert(-q0 * yi == -(x0 as int)) by (nonlinear_arith)
                requires x0 as int == yi * q0;
        }
    } else if signed_div {
        assert(x < 0x8000_0000);
        assert(q0 <= x0) by (nonlinear_arith)
            requires yi >= 1, q0 == x0 as int / yi, x0 >= 0;
        assert(crate::risc::signed(d.quot) == q0);
        assert(q0 * yi + r0 == x0 as int) by (nonlinear_arith)
            requires x0 as int == yi * q0 + r0;
    }
}

/// Doubling both sides of a division keeps the quotient; so does a dividend
/// of `2q + 1` over `2d` for `q / d`.
proof fn lemma_div_double(q: int, d: int)
    requires
        q >= 0,
        d > 0,
    ensures
        (2 * q) / (2 * d) == q / d,
        (2 * q + 1) / (2 * d) == q / d,
{
    let k = q / d;
    let r = q % d;
    assert(q == k * d + r && 0 <= r < d) by (nonlinear_arith)
        requires d > 0, k == q / d, r == q % d;
    assert(2 * q == k * (2 * d) + 2 * r && 0 <= 2 * r < 2 * d) by (nonlinear_arith)
        requires q == k * d + r, 0 <= r < d;
    assert(2 * q + 1 == k * (2 * d) + (2 * r + 1) && 0 <= 2 * r + 1 < 2 * d) by (nonlinear_arith)
        requires q == k * d + r, 0 <= r < d;
    vstd::arithmetic::div_mod::lemma_fundamental_div_mod_converse(2 * q, 2 * d, k, 2 * r);
    vstd::arithmetic::div_mod::lemma_fundamental_div_mod_converse(2 * q + 1, 2 * d, k, 2 * r + 1);
}

/// Floor division of a negative number: `-m / d` is one below `-((m - 1) / d)`.
proof fn lemma_div_neg(m: int, d: int)
    requires
        m >= 1,
        d > 0,
    ensures
        (-m) / d == -((m - 1) / d) - 1,
{
    let k = (m - 1) / d;
    let r = (m - 1) % d;
    assert(m - 1 == k * d + r && 0 <= r < d) by (nonlinear_arith)
        requires d > 0, k == (m - 1) / d, r == (m - 1) % d;
    assert(-m == (-k - 1) * d + (d - r - 1) && 0 <= d - r - 1 < d) by (nonlinear_arith)
        requires m - 1 == k * d + r, 0 <= r < d;
    vstd::arithmetic::div_mod::lemma_fundamental_div_mod_converse(-m, d, -k - 1, d - r - 1);
}

/// `FLOOR` (`FAD` with `v`, second operand `0x4B00_0000` as the Oberon
/// compiler emits it) of a float `x` of magnitude below 2^23 is the greatest
/// integer not above `x`, as a two's-complement word: with `m` the 24-bit
/// mantissa and `e` the exponent, `x` is `±m / 2^(150 - e)`, and the result
/// is that value rounded down.
pub proof fn law_floor(x: u32)
    requires
        1 <= exponent(x) <= 149,
    ensures
        ({
            let m = full_mantissa(x) as int;
            let value = if sign_bit(x) { -m } else { m };
            let k = (150 - exponent(x)) as nat;
            crate::risc::signed(fp_add_spec(x, 0x4B00_0000, false, true)) == value / (pow2(k) as int)
        }),
{
    let y: u32 = 0x4B00_0000;
    let e = exponent(x);
    let sx = sign_bit(x);
    let mm = full_mantissa(x);
    let a = ((x & 0x7F_FFFF) << 1) | 0x100_0000;
    let k: u32 = (150 - e) as u32;
    let kk: u32 = if k > 31 { 31 } else { k };
    let xs: i32 = (if sx { neg32(a) } else { a }) as i32;
    let xa: i32 = asr_sat(xs, k);
    assert(xa == xs >> kk);
    let fld = adder_field(sx, xa);
    let z = adder_field(false, 0i32);
    let r: u32 = (((fld << 5) as i32) >> 6) as u32;
    assert({
        &&& a == 2 * mm
        &&& 0x100_0000 <= a < 0x200_0000
        &&& z == 0
        &&& (y & 0x7F_FFFF) << 1 == 0
        &&& (y >> 23) & 0xFF == 150
        &&& y & 0x8000_0000 == 0
        &&& !sx ==> r == (a >> kk) >> 1
        &&& sx ==> r == 0xFFFF_FFFF - (((a - 1) as u32 >> kk) >> 1)
        &&& ((a - 1) as u32 >> kk) >> 1 < 0x8000_0000
        &&& (a >> kk) >> 1 < 0x8000_0000
    }) by (bit_vector)
        requires
            y == 0x4B00_0000,
            mm == (x & 0x7F_FFFF) | 0x80_0000,
            a == ((x & 0x7F_FFFF) << 1) | 0x100_0000,
            sx == ((x & 0x8000_0000) != 0),
            xs == (if sx {
                (if 0 - a < 0 { (0 - a + 0x1_0000_0000) as u32 } else { (0 - a) as u32 }) as i32
            } else {
                a as i32
            }),
            1 <= k,
            kk == if k > 31 { 31 } else { k },
            xa == xs >> kk,
            fld == ((if sx { 1u32 } else { 0u32 }) << 26) | ((if sx { 1u32 } else { 0u32 }) << 25) | ((xa as u32)
                & 0x01FF_FFFF),
            z == (0u32 << 26) | (0u32 << 25) | ((0i32 as u32) & 0x01FF_FFFF),
            r == (((fld << 5) as i32) >> 6) as u32;
    assert(adder_sum(x, y, false, true) == (150u32, vstd::wrapping::u32_specs::wrapping_add(fld, z)));
    assert(fp_add_spec(x, y, false, true) == r);
    let d = pow2(k as nat) as int;
    let dk = pow2(kk as nat) as int;
    lemma_pow2_pos(k as nat);
    lemma_pow2_pos(kk as nat);
    lemma_pow2_adds(kk as nat, 1);
    lemma2_to64();
    let mi = mm as int;
    let big = k > 31;
    if big {
        lemma_pow2_strictly_increases(24, k as nat);
        assert(0 < mi < d);
    }
    if !sx {
        vstd::bits::lemma_u32_shr_is_div(a, kk);
        vstd::bits::lemma_u32_shr_is_div(a >> kk, 1);
        vstd::arithmetic::div_mod::lemma_div_denominator(a as int, dk, 2);
        lemma_div_double(mi, dk);
        assert(r as int == mi / dk);
        if big {
            lemma_pow2_strictly_increases(24, 31);
            vstd::arithmetic::div_mod::lemma_basic_div(mi, d);
            vstd::arithmetic::div_mod::lemma_basic_div(mi, dk);
        }
    } else {
        let a1 = (a - 1) as u32;
        vstd::bits::lemma_u32_shr_is_div(a1, kk);
        vstd::bits::lemma_u32_shr_is_div(a1 >> kk, 1);
        vstd::arithmetic::div_mod::lemma_div_denominator(a1 as int, dk, 2);
        assert(a1 as int == 2 * (mi - 1) + 1);
        lemma_div_double(mi - 1, dk);
        lemma_div_neg(mi, d);
        if big {
            lemma_pow2_strictly_increases(24, 31);
            vstd::arithmetic::div_mod::lemma_basic_div(mi - 1, d);
            vstd::arithmetic::div_mod::lemma_basic_div(mi - 1, dk);
        }
    }
}

/// Floating-point add (`FAD`/`FSB`/`FLT`/`FLOOR`). `u` selects FLT, `v` FLOOR.
pub fn fp_add(x: u32, y: u32, u: bool, v: bool) -> (r: u32)
    ensures
        r == fp_add_spec(x, y, u, v),
{
    let x_sign = (x & 0x8000_0000) != 0;
    let x_exp: u32;
    let x_signed: i32;
    if !u {
        x_exp = (x >> 23) & 0xFF;
        let x_mant = ((x & 0x7F_FFFF) << 1) | 0x100_0000;
        x_signed = (if x_sign { 0u32.wrapping_sub(x_mant) } else { x_mant }) as i32;
    } else {
        x_exp = 150;
        x_signed = (((x & 0x00FF_FFFF) << 8) as i32) >> 7;
    }

    let y_sign = (y & 0x8000_0000) != 0;
    let y_exp = (y >> 23) & 0xFF;
    let mut y_mant = (y & 0x7F_FFFF) << 1;
    if !u && !v {
        y_mant = y_mant | 0x100_0000;
    }
    let y_signed = (if y_sign { 0u32.wrapping_sub(y_mant) } else { y_mant }) as i32;

    // Align to the larger exponent; shifts of 32 or more fill with the sign.
    let exp: u32;
    let x_aligned: i32;
    let y_aligned: i32;
    if y_exp > x_exp {
        let shift = y_exp - x_exp;
        exp = y_exp;
        x_aligned = if shift > 31 { x_signed >> 31u32 } else { x_signed >> shift };
        y_aligned = y_signed;
    } else {
        let shift = x_exp - y_exp;
        exp = x_exp;
        x_aligned = x_signed;
        y_aligned = if shift > 31 { y_signed >> 31u32 } else { y_signed >> shift };
    }

    let xs: u32 = if x_sign { 1 } else { 0 };
    let ys: u32 = if y_sign { 1 } else { 0 };
    let sum = ((xs << 26u32) | (xs << 25u32) | ((x_aligned as u32) & 0x01FF_FFFF)).wrapping_add(
        (ys << 26u32) | (ys << 25u32) | ((y_aligned as u32) & 0x01FF_FFFF),
    );

    let mag = (if sum & (1u32 << 26u32) != 0 { 0u32.wrapping_sub(sum) } else { sum }).wrapping_add(1)
        & 0x07FF_FFFF;

    let mut out_exp = exp.wrapping_add(1);
    let mut out_mant = mag >> 1u32;
    if (mag & 0x3FF_FFFC) != 0 {
        let ghost m0 = out_mant;
        let ghost e0 = out_exp;
        let mut k: u32 = 0;
        while k < 24 && (out_mant & (1u32 << 24u32)) == 0
            invariant
                k <= 24,
                normalize(out_mant, out_exp, (24 - k) as nat) == normalize(m0, e0, 24),
            decreases 24 - k,
        {
            out_mant = out_mant << 1u32;
            out_exp = out_exp.wrapping_sub(1);
            k = k + 1;
        }
    } else {
        out_mant = out_mant << 24u32;
        out_exp = out_exp.wrapping_sub(24);
    }

    let x_is_zero = (x & 0x7FFF_FFFF) == 0;
    let y_is_zero = (y & 0x7FFF_FFFF) == 0;

    if v {
        (((sum << 5u32) as i32) >> 6u32) as u32
    } else if x_is_zero {
        if u || y_is_zero { 0 } else { y }
    } else if y_is_zero {
        x
    } else if (out_mant & 0x01FF_FFFF) == 0 || (out_exp & 0x100) != 0 {
        0
    } else {
        ((sum & 0x0400_0000) << 5u32) | (out_exp << 23u32) | ((out_mant >> 1u32) & 0x7F_FFFF)
    }
}

/// Floating-point multiply (`FML`).
pub fn fp_mul(x: u32, y: u32) -> (r: u32)
    ensures
        r == fp_mul_spec(x, y),
{
    let sign = (x ^ y) & 0x8000_0000;
    let xe = (x >> 23) & 0xFF;
    let ye = (y >> 23) & 0xFF;
    let xm = (x & 0x7F_FFFF) | 0x80_0000;
    let ym = (y & 0x7F_FFFF) | 0x80_0000;
    assert(xm <= 0xFF_FFFF && ym <= 0xFF_FFFF && xe <= 0xFF && ye <= 0xFF) by (bit_vector)
        requires
            xm == (x & 0x7F_FFFF) | 0x80_0000,
            ym == (y & 0x7F_FFFF) | 0x80_0000,
            xe == (x >> 23) & 0xFF,
            ye == (y >> 23) & 0xFF;
    assert((xm as int) * (ym as int) <= 0xFF_FFFF * 0xFF_FFFF) by (nonlinear_arith)
        requires xm <= 0xFF_FFFF, ym <= 0xFF_FFFF;
    let m = (xm as u64) * (ym as u64);
    assert((m >> 23u64) < 0x1_0000_0000 && (m >> 22u64) < 0x1_0000_0000) by (bit_vector)
        requires m <= 0xFF_FFFF * 0xFF_FFFF;

    let mut e1 = (xe + ye).wrapping_sub(127);
    let z0: u32;
    if (m & (1u64 << 47u64)) != 0 {
        e1 = e1.wrapping_add(1);
        z0 = (((m >> 23u64) + 1) & 0xFF_FFFF) as u32;
    } else {
        z0 = (((m >> 22u64) + 1) & 0xFF_FFFF) as u32;
    }

    if xe == 0 || ye == 0 {
        0
    } else if (e1 & 0x100) == 0 {
        sign | ((e1 & 0xFF) << 23u32) | (z0 >> 1u32)
    } else if (e1 & 0x80) == 0 {
        sign | (0xFFu32 << 23u32) | (z0 >> 1u32)
    } else {
        0
    }
}

/// Floating-point divide (`FDV`).
pub fn fp_div(x: u32, y: u32) -> (r: u32)
    ensures
        r == fp_div_spec(x, y),
{
    let sign = (x ^ y) & 0x8000_0000;
    let xe = (x >> 23) & 0xFF;
    let ye = (y >> 23) & 0xFF;
    let xm = (x & 0x7F_FFFF) | 0x80_0000;
    let ym = (y & 0x7F_FFFF) | 0x80_0000;
    assert(xm <= 0xFF_FFFF && 0x80_0000 <= ym) by (bit_vector)
        requires xm == (x & 0x7F_FFFF) | 0x80_0000, ym == (y & 0x7F_FFFF) | 0x80_0000;
    assert((xm as int) * 0x200_0000 <= 0xFF_FFFF * 0x200_0000) by (nonlinear_arith)
        requires xm <= 0xFF_FFFF;
    let num = (xm as u64) * 0x200_0000u64;
    assert(num == (xm as int) * 0x200_0000);
    let q64 = num / (ym as u64);
    assert(q64 <= num / 0x80_0000) by (nonlinear_arith)
        requires ym >= 0x80_0000, q64 == num / (ym as u64);
    assert(q64 < 0x1_0000_0000) by (nonlinear_arith)
        requires q64 <= num / 0x80_0000, num <= 0xFF_FFFF * 0x200_0000;
    let q1 = q64 as u32;

    let mut e1 = (xe.wrapping_sub(ye)).wrapping_add(126);
    let q2: u32;
    if (q1 & (1u32 << 25u32)) != 0 {
        e1 = e1.wrapping_add(1);
        q2 = (q1 >> 1u32) & 0xFF_FFFF;
    } else {
        q2 = q1 & 0xFF_FFFF;
    }
    let q3 = q2.wrapping_add(1);

    if xe == 0 {
        0
    } else if ye == 0 {
        sign | (0xFFu32 << 23u32)
    } else if (e1 & 0x100) == 0 {
        sign | ((e1 & 0xFF) << 23u32) | (q3 >> 1u32)
    } else if (e1 & 0x80) == 0 {
        sign | (0xFFu32 << 23u32) | (q2 >> 1u32)
    } else {
        0
    }
}

/// Integer division as the RISC5 `Divider` computes it: 32-iteration restoring
/// division on a 64-bit RQ register, with the signed fix-up.
pub fn idiv(x: u32, y: u32, signed_div: bool) -> (d: IDiv)
    ensures
        d == idiv_spec(x, y, signed_div),
{
    let sign = ((x as i32) < 0) && signed_div;
    let x0 = if sign { 0u32.wrapping_sub(x) } else { x };

    let mut rq = x0 as u64;
    let mut i: u32 = 0;
    while i < 32
        invariant
            i <= 32,
            divider_steps(rq, y, (32 - i) as nat) == divider_steps(x0 as u64, y, 32),
        decreases 32 - i,
    {
        let w0 = (rq >> 31u64) as u32;
        let w1 = w0.wrapping_sub(y);
        if (w1 as i32) < 0 {
            rq = ((w0 as u64) << 32u64) | ((rq & 0x7FFF_FFFF) << 1u64);
        } else {
            rq = ((w1 as u64) << 32u64) | ((rq & 0x7FFF_FFFF) << 1u64) | 1;
        }
        i = i + 1;
    }

    let mut d = IDiv { quot: rq as u32, rem: (rq >> 32u64) as u32 };
    if sign {
        d.quot = 0u32.wrapping_sub(d.quot);
        if d.rem != 0 {
            d.quot = d.quot.wrapping_sub(1);
            d.rem = y.wrapping_sub(d.rem);
        }
    }
    d
}

/// The RISC5 encoding of 1.0.
pub const ONE: u32 = 0x3F80_0000;

/// Multiplication is commutative: `x * y` and `y * x` give the same word.
pub proof fn law_fp_mul_commutative(x: u32, y: u32)
    ensures
        fp_mul_spec(x, y) == fp_mul_spec(y, x),
{
    vstd::arithmetic::mul::lemma_mul_is_commutative(
        full_mantissa(x) as int,
        full_mantissa(y) as int,
    );
    assert((x ^ y) == (y ^ x)) by (bit_vector);
}

/// Multiplying by 1.0 gives back any float with a nonzero exponent (and zero
/// for a zero exponent).
pub proof fn law_fp_mul_one(x: u32)
    ensures
        fp_mul_spec(x, ONE) == if exponent(x) == 0 { 0 } else { x },
{
    let xm = full_mantissa(x);
    let xe = exponent(x);
    assert(exponent(ONE) == 127 && full_mantissa(ONE) == 0x80_0000 && 0x80_0000 <= xm <= 0xFF_FFFF && xe <= 0xFF
        && xe & 0x100 == 0 && (xe != 0 ==> ((x ^ ONE) & 0x8000_0000) | ((xe & 0xFF) << 23) | (x & 0x7F_FFFF) == x))
        by (bit_vector)
        requires xm == (x & 0x7F_FFFF) | 0x80_0000, xe == (x >> 23) & 0xFF, ONE == 0x3F80_0000u32;
    let m: u64 = ((xm as int) * 0x80_0000) as u64;
    assert((xm as int) * 0x80_0000 <= 0xFF_FFFF * 0x80_0000) by (nonlinear_arith)
        requires xm <= 0xFF_FFFF;
    assert(m == (xm as u64) << 23u64 && m & (1u64 << 47u64) == 0 && ((((m >> 22u64) + 1) as u64) & 0xFF_FFFF) as u32
        >> 1u32 == x & 0x7F_FFFF) by (bit_vector)
        requires m == xm * 0x80_0000, xm == (x & 0x7F_FFFF) | 0x80_0000;
    assert(vstd::wrapping::u32_specs::wrapping_sub((xe + 127) as u32, 127) == xe);
    assert(m == ((full_mantissa(x) as int) * (full_mantissa(ONE) as int)) as u64);
}

/// Dividing by 1.0 gives back any float with a nonzero exponent (and zero for a
/// zero exponent).
pub proof fn law_fp_div_one(x: u32)
    ensures
        fp_div_spec(x, ONE) == if exponent(x) == 0 { 0 } else { x },
{
    let xm = full_mantissa(x);
    let xe = exponent(x);
    assert(exponent(ONE) == 127 && full_mantissa(ONE) == 0x80_0000 && 0x80_0000 <= xm <= 0xFF_FFFF && xe <= 0xFF
        && xe & 0x100 == 0 && (xe != 0 ==> ((x ^ ONE) & 0x8000_0000) | ((xe & 0xFF) << 23) | (x & 0x7F_FFFF) == x))
        by (bit_vector)
        requires xm == (x & 0x7F_FFFF) | 0x80_0000, xe == (x >> 23) & 0xFF, ONE == 0x3F80_0000u32;
    vstd::arithmetic::div_mod::lemma_div_multiples_vanish(4 * (xm as int), 0x80_0000);
    assert((xm as int) * 0x200_0000 == 0x80_0000 * (4 * (xm as int))) by (nonlinear_arith);
    let q1: u32 = (4 * xm) as u32;
    assert(q1 & (1u32 << 25u32) != 0 && (((((q1 >> 1u32) & 0xFF_FFFF) + 1) as u32) >> 1u32) == x & 0x7F_FFFF)
        by (bit_vector)
        requires q1 == 4 * xm, xm == (x & 0x7F_FFFF) | 0x80_0000;
    assert(vstd::wrapping::u32_specs::wrapping_add(
        vstd::wrapping::u32_specs::wrapping_add(vstd::wrapping::u32_specs::wrapping_sub(xe, 127), 126),
        1,
    ) == xe);
    assert(q1 == (((full_mantissa(x) as int * 0x200_0000) / (full_mantissa(ONE) as int)) as u32));
    let q2 = (q1 >> 1) & 0xFF_FFFF;
    assert(q2 <= 0xFF_FFFF) by (bit_vector)
        requires q2 == (q1 >> 1) & 0xFF_FFFF;
    assert(vstd::wrapping::u32_specs::wrapping_add(q2, 1) == (q2 + 1) as u32);
}

/// Adding zero (of either sign) leaves a nonzero float unchanged.
pub proof fn law_fp_add_zero(x: u32, z: u32)
    requires
        is_zero_word(z),
    ensures
        fp_add_spec(x, z, false, false) == if is_zero_word(x) { 0 } else { x },
{
}

/// Plain floating-point addition is commutative.
pub proof fn law_fp_add_commutative(x: u32, y: u32)
    ensures
        fp_add_spec(x, y, false, false) == fp_add_spec(y, x, false, false),
{
    let (xe, xs) = adder_unpack_x(x, false);
    let (ye, ys) = adder_unpack_x(y, false);
    assert(adder_unpack_y(y, false, false) == ys && adder_unpack_y(x, false, false) == xs);
    assert(asr_sat(xs, 0) == xs && asr_sat(ys, 0) == ys) by (bit_vector)
        requires true;
    assert(adder_sum(x, y, false, false) == adder_sum(y, x, false, false)) by {
        let fx = adder_field(sign_bit(x), if ye > xe { asr_sat(xs, (ye - xe) as u32) } else { xs });
        let fy = adder_field(sign_bit(y), if ye > xe { ys } else { asr_sat(ys, (xe - ye) as u32) });
        assert(vstd::wrapping::u32_specs::wrapping_add(fx, fy)
            == vstd::wrapping::u32_specs::wrapping_add(fy, fx));
    }
}

} // verus!
