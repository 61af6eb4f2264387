//! Command-line values: a framebuffer size `WIDTHxHEIGHT` and the size it
//! selects, and a pointer position `X,Y`. Each number is read as `str::parse`
//! reads an `i32`.
use vstd::prelude::*;

use crate::convert::chars_of;

verus! {

/// Largest framebuffer dimension.
pub const MAX_DIM: i32 = 2048;

/// Why a `--size` value was refused.
#[derive(Debug, Clone, Copy, PartialEq, Eq, Structural)]
pub enum SizeError {
    /// No `x` or `X` between width and height.
    Separator,
    /// The width is not a 32-bit integer.
    Width,
    /// The height is not a 32-bit integer.
    Height,
}

/// Unicode white space, as `char::is_whitespace` (and so `str::trim`) has it.
pub open spec fn is_space(c: char) -> bool {
    let v = c as u32;
    (0x09 <= v <= 0x0D) || v == 0x20 || v == 0x85 || v == 0xA0 || v == 0x1680 || (0x2000 <= v <= 0x200A)
        || v == 0x2028 || v == 0x2029 || v == 0x202F || v == 0x205F || v == 0x3000
}

/// Whether `c` is white space (see [`is_space`]).
pub(crate) fn space(c: char) -> (b: bool)
    ensures
        b == is_space(c),
{
    let v = c as u32;
    (0x09 <= v && v <= 0x0D) || v == 0x20 || v == 0x85 || v == 0xA0 || v == 0x1680 || (0x2000 <= v && v
        <= 0x200A) || v == 0x2028 || v == 0x2029 || v == 0x202F || v == 0x205F || v == 0x3000
}

/// `cs` without leading and trailing white space.
pub open spec fn trim(cs: Seq<char>) -> Seq<char> {
    let a = lead(cs, 0);
    let b = trail(cs, cs.len() as int);
    if a >= b { Seq::empty() } else { cs.subrange(a, b) }
}

/// The first position from `i` on that is not white space.
pub open spec fn lead(cs: Seq<char>, i: int) -> int
    decreases cs.len() - i,
{
    if i < 0 || i >= cs.len() || !is_space(cs[i]) { i } else { lead(cs, i + 1) }
}

/// The end of `cs[..j]` without its trailing white space.
pub open spec fn trail(cs: Seq<char>, j: int) -> int
    decreases j,
{
    if j <= 0 || j > cs.len() || !is_space(cs[j - 1]) { j } else { trail(cs, j - 1) }
}

/// A decimal digit character's value.
pub open spec fn digit_value(c: char) -> int {
    (c as u32) - 0x30
}

pub open spec fn is_digit(c: char) -> bool {
    0x30 <= (c as u32) <= 0x39
}

/// Every character is a decimal digit.
pub open spec fn all_digits(ds: Seq<char>) -> bool {
    forall|i: int| 0 <= i < ds.len() ==> is_digit(#[trigger] ds[i])
}

/// The value of a run of decimal digits.
pub open spec fn digits_value(ds: Seq<char>) -> int
    decreases ds.len(),
{
    if ds.len() == 0 { 0 } else { 10 * digits_value(ds.drop_last()) + digit_value(ds.last()) }
}

/// An `i32` as `str::parse` reads it: an optional `+` or `-`, then one or more
/// decimal digits, the value in range.
pub open spec fn parse_i32_spec(cs: Seq<char>) -> Option<i32> {
    let neg = cs.len() > 0 && cs[0] == '-';
    let signed = cs.len() > 0 && (cs[0] == '-' || cs[0] == '+');
    let ds = if signed { cs.drop_first() } else { cs };
    if ds.len() == 0 || !all_digits(ds) {
        None
    } else {
        let v = if neg { -digits_value(ds) } else { digits_value(ds) };
        if i32::MIN <= v <= i32::MAX { Some(v as i32) } else { None }
    }
}

/// Where the first `a` or `b` of `cs` is, if any.
pub open spec fn first_of(cs: Seq<char>, a: char, b: char) -> Option<int> {
    if exists|i: int| 0 <= i < cs.len() && (cs[i] == a || cs[i] == b) {
        Some(choose|i: int| 0 <= i < cs.len() && (cs[i] == a || cs[i] == b) && forall|j: int|
            0 <= j < i ==> #[trigger] cs[j] != a && cs[j] != b)
    } else {
        None
    }
}

/// Where `s@` splits at its first `a` or `b`.
fn find_sep(cs: &Vec<char>, a: char, b: char) -> (r: Option<usize>)
    ensures
        match r {
            Some(k) => first_of(cs@, a, b) == Some(k as int) && k < cs@.len(),
            None => first_of(cs@, a, b) is None,
        },
{
    let n = cs.len();
    let mut k: usize = 0;
    while k < n && cs[k] != a && cs[k] != b
        invariant
            k <= n == cs@.len(),
            forall|j: int| 0 <= j < k ==> #[trigger] cs@[j] != a && cs@[j] != b,
        decreases n - k,
    {
        k = k + 1;
    }
    if k == n {
        return None;
    }
    proof {
        assert(cs@[k as int] == a || cs@[k as int] == b);
        let c = choose|i: int| 0 <= i < cs@.len() && (cs@[i] == a || cs@[i] == b) && forall|j: int|
            0 <= j < i ==> #[trigger] cs@[j] != a && cs@[j] != b;
        if c < k {
        } else if c > k {
            assert(cs@[k as int] != a && cs@[k as int] != b);
        }
    }
    Some(k)
}

/// `WIDTHxHEIGHT` (or `X`): split at the first `x`, each side trimmed and read
/// as an `i32`.
pub open spec fn parse_size_spec(cs: Seq<char>) -> Result<(i32, i32), SizeError> {
    match first_of(cs, 'x', 'X') {
        None => Err(SizeError::Separator),
        Some(k) => match parse_i32_spec(trim(cs.subrange(0, k))) {
            None => Err(SizeError::Width),
            Some(w) => match parse_i32_spec(trim(cs.subrange(k + 1, cs.len() as int))) {
                None => Err(SizeError::Height),
                Some(h) => Ok((w, h)),
            },
        },
    }
}

/// A digit run's value, held at `BIG` once it passes it.
spec fn capped(v: int) -> int {
    if v > BIG { BIG as int } else { v }
}

/// Just past the magnitude of any `i32`.
const BIG: i64 = 0x8000_0001;

/// Read an `i32` from characters `cs[a..b]` as `str::parse` would.
fn parse_i32(cs: &Vec<char>, a: usize, b: usize) -> (r: Option<i32>)
    requires
        a <= b <= cs@.len(),
    ensures
        r == parse_i32_spec(cs@.subrange(a as int, b as int)),
{
    let ghost t = cs@.subrange(a as int, b as int);
    if a == b {
        return None;
    }
    let neg = cs[a] == '-';
    let signed = cs[a] == '-' || cs[a] == '+';
    let start = if signed { a + 1 } else { a };
    let ghost ds = cs@.subrange(start as int, b as int);
    assert(ds =~= if signed { t.drop_first() } else { t });
    if start == b {
        return None;
    }
    let mut j = start;
    while j < b
        invariant
            start <= j <= b <= cs@.len(),
            ds == cs@.subrange(start as int, b as int),
            t == cs@.subrange(a as int, b as int),
            t.len() > 0,
            signed == (t[0] == '-' || t[0] == '+'),
            ds == if signed { t.drop_first() } else { t },
            forall|k: int| start <= k < j ==> is_digit(#[trigger] cs@[k]),
        decreases b - j,
    {
        let cv = cs[j] as u32;
        if !(0x30 <= cv && cv <= 0x39) {
            proof {
                assert(ds[j - start] == cs@[j as int]);
                assert(!is_digit(ds[j - start]));
                assert(!(forall|i: int| 0 <= i < ds.len() ==> is_digit(#[trigger] ds[i])));
                assert(!all_digits(ds));
                assert(parse_i32_spec(t) is None);
            }
            return None;
        }
        j = j + 1;
    }
    assert forall|i: int| 0 <= i < ds.len() implies is_digit(#[trigger] ds[i]) by {
        assert(ds[i] == cs@[start + i]);
    }
    let mut v: i64 = 0;
    let mut i = start;
    while i < b
        invariant
            start <= i <= b <= cs@.len(),
            forall|k: int| start <= k < b ==> is_digit(#[trigger] cs@[k]),
            v == capped(digits_value(cs@.subrange(start as int, i as int))),
            0 <= v <= BIG,
        decreases b - i,
    {
        let ghost pre = cs@.subrange(start as int, i as int);
        let ghost next = cs@.subrange(start as int, i + 1);
        assert(next.drop_last() =~= pre);
        assert(is_digit(cs@[i as int]));
        proof {
            lemma_digits_nonneg(pre);
        }
        let d = (cs[i] as u32 - 0x30) as i64;
        v = 10 * v + d;
        if v > BIG {
            v = BIG;
        }
        i = i + 1;
    }
    assert(cs@.subrange(start as int, b as int) =~= ds);
    proof {
        lemma_digits_nonneg(ds);
    }
    let r: i64 = if neg { -v } else { v };
    if r < -0x8000_0000 || r > 0x7FFF_FFFF {
        None
    } else {
        Some(r as i32)
    }
}

proof fn lemma_digits_nonneg(ds: Seq<char>)
    requires
        forall|j: int| 0 <= j < ds.len() ==> is_digit(#[trigger] ds[j]),
    ensures
        digits_value(ds) >= 0,
    decreases ds.len(),
{
    if ds.len() > 0 {
        assert(is_digit(ds.last()));
        lemma_digits_nonneg(ds.drop_last());
    }
}

/// Trailing white space only ever shortens.
proof fn lemma_trail_le(cs: Seq<char>, j: int)
    ensures
        trail(cs, j) <= j,
    decreases j,
{
    if !(j <= 0 || j > cs.len() || !is_space(cs[j - 1])) {
        lemma_trail_le(cs, j - 1);
    }
}

/// The trimmed range `[a, b)` of `cs[lo..hi]`.
fn trim_range(cs: &Vec<char>, lo: usize, hi: usize) -> (r: (usize, usize))
    requires
        lo <= hi <= cs@.len(),
    ensures
        r.0 <= r.1 <= cs@.len(),
        cs@.subrange(r.0 as int, r.1 as int) == trim(cs@.subrange(lo as int, hi as int)),
{
    let ghost t = cs@.subrange(lo as int, hi as int);
    let mut a = lo;
    while a < hi && space(cs[a])
        invariant
            lo <= a <= hi <= cs@.len(),
            t == cs@.subrange(lo as int, hi as int),
            lead(t, a - lo) == lead(t, 0),
        decreases hi - a,
    {
        assert(t[a - lo] == cs@[a as int]);
        a = a + 1;
    }
    let mut b = hi;
    while b > a && space(cs[b - 1])
        invariant
            lo <= a <= b <= hi <= cs@.len(),
            t == cs@.subrange(lo as int, hi as int),
            trail(t, b - lo) == trail(t, t.len() as int),
            forall|j: int| a - lo <= j < b - lo ==> t[j] == cs@[lo + j],
            a == hi || !is_space(t[a - lo]),
            lead(t, a - lo) == lead(t, 0),
            a < hi ==> b > a,
        decreases b - a,
    {
        assert(t[b - lo - 1] == cs@[b - 1]);
        b = b - 1;
    }
    proof {
        assert(lead(t, 0) == a - lo);
        if a < hi {
            assert(t[b - lo - 1] == cs@[b - 1]);
            assert(trail(t, b - lo) == b - lo);
            assert(cs@.subrange(a as int, b as int) =~= t.subrange(a - lo, b - lo));
        } else {
            lemma_trail_le(t, t.len() as int);
            assert(cs@.subrange(a as int, b as int) =~= Seq::<char>::empty());
        }
    }
    (a, b)
}

/// Parse a `--size` value `WIDTHxHEIGHT` (or `X`), each side trimmed.
pub fn parse_size(s: &str) -> (r: Result<(i32, i32), SizeError>)
    ensures
        r == parse_size_spec(s@),
{
    let cs = chars_of(s);
    let n = cs.len();
    let k = match find_sep(&cs, 'x', 'X') {
        None => return Err(SizeError::Separator),
        Some(k) => k,
    };
    let (a, b) = trim_range(&cs, 0, k);
    let w = match parse_i32(&cs, a, b) {
        None => return Err(SizeError::Width),
        Some(w) => w,
    };
    let (c, d) = trim_range(&cs, k + 1, n);
    let h = match parse_i32(&cs, c, d) {
        None => return Err(SizeError::Height),
        Some(h) => h,
    };
    Ok((w, h))
}

/// Why an `X,Y` pointer position was refused.
#[derive(Debug, Clone, Copy, PartialEq, Eq, Structural)]
pub enum PointError {
    /// No `,` between the coordinates.
    Separator,
    /// X is not a 32-bit integer.
    X,
    /// Y is not a 32-bit integer.
    Y,
}

/// `X,Y`: split at the first `,`, each side trimmed and read as an `i32`.
pub open spec fn parse_xy_spec(cs: Seq<char>) -> Result<(i32, i32), PointError> {
    match first_of(cs, ',', ',') {
        None => Err(PointError::Separator),
        Some(k) => match parse_i32_spec(trim(cs.subrange(0, k))) {
            None => Err(PointError::X),
            Some(x) => match parse_i32_spec(trim(cs.subrange(k + 1, cs.len() as int))) {
                None => Err(PointError::Y),
                Some(y) => Ok((x, y)),
            },
        },
    }
}

/// Parse an `X,Y` pair of screen pixels, each side trimmed.
pub fn parse_xy(s: &str) -> (r: Result<(i32, i32), PointError>)
    ensures
        r == parse_xy_spec(s@),
{
    let cs = chars_of(s);
    let n = cs.len();
    let k = match find_sep(&cs, ',', ',') {
        None => return Err(PointError::Separator),
        Some(k) => k,
    };
    let (a, b) = trim_range(&cs, 0, k);
    let x = match parse_i32(&cs, a, b) {
        None => return Err(PointError::X),
        Some(x) => x,
    };
    let (c, d) = trim_range(&cs, k + 1, n);
    let y = match parse_i32(&cs, c, d) {
        None => return Err(PointError::Y),
        Some(y) => y,
    };
    Ok((x, y))
}

/// The framebuffer a `--size` asks for: each side clamped to `32..=2048`, the
/// width rounded down to a multiple of 32.
pub fn screen_size(width: i32, height: i32) -> (r: (i32, i32))
    ensures
        r.0 == (if width < 32 { 32 } else if width > MAX_DIM { MAX_DIM } else { width }) / 32 * 32,
        r.1 == if height < 32 { 32 } else if height > MAX_DIM { MAX_DIM } else { height },
{
    let w = if width < 32 { 32 } else if width > MAX_DIM { MAX_DIM } else { width };
    let h = if height < 32 { 32 } else if height > MAX_DIM { MAX_DIM } else { height };
    (w / 32 * 32, h)
}

} // verus!
