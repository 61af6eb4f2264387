use risc_core::fp::{fp_add, fp_div, fp_mul, idiv};

fn bits(x: f32) -> u32 {
    x.to_bits()
}

#[test]
fn adds_subtracts_and_cancels() {
    assert_eq!(fp_add(bits(1.0), bits(1.0), false, false), bits(2.0));
    assert_eq!(fp_add(bits(1.5), bits(0.25), false, false), bits(1.75));
    assert_eq!(fp_add(bits(2.0), bits(-1.0), false, false), bits(1.0));
    assert_eq!(fp_add(bits(3.0), bits(-3.0), false, false), 0);
    assert_eq!(fp_add(bits(5.0), 0, false, false), bits(5.0));
}

#[test]
fn multiplies_and_divides() {
    assert_eq!(fp_mul(bits(3.0), bits(0.5)), bits(1.5));
    assert_eq!(fp_mul(bits(-2.0), bits(4.0)), bits(-8.0));
    assert_eq!(fp_mul(bits(7.0), 0), 0);
    assert_eq!(fp_div(bits(1.0), bits(4.0)), bits(0.25));
    assert_eq!(fp_div(bits(-9.0), bits(3.0)), bits(-3.0));
}

#[test]
fn flt_converts_an_integer() {
    // FLT (u): an integer to its float, the y operand the 0x4B00_0000 bias.
    assert_eq!(fp_add(5, 0x4B00_0000, true, false), bits(5.0));
}

#[test]
fn integer_division_floors_and_keeps_a_nonnegative_remainder() {
    let d = idiv(17, 5, false);
    assert_eq!((d.quot, d.rem), (3, 2));
    let d = idiv((-7i32) as u32, 2, true);
    assert_eq!((d.quot, d.rem), ((-4i32) as u32, 1));
    let d = idiv((-8i32) as u32, 2, true);
    assert_eq!((d.quot, d.rem), ((-4i32) as u32, 0));
    // Unsigned: the same bits read as a large dividend.
    let d = idiv(0xFFFF_FFFF, 0x10, false);
    assert_eq!((d.quot, d.rem), (0x0FFF_FFFF, 0xF));
}

#[test]
fn idiv_floors_for_a_positive_divisor() {
    let d = idiv((-7i32) as u32, 2, true);
    assert_eq!((d.quot as i32, d.rem), (-4, 1)); // -4 * 2 + 1 == -7
    let d = idiv(7, 2, true);
    assert_eq!((d.quot, d.rem), (3, 1));
    let d = idiv(0xFFFF_FFF9, 2, false);
    assert_eq!((d.quot, d.rem), (0x7FFF_FFFC, 1));
}
