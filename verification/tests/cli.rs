use risc_core::cli::{parse_size, parse_xy, screen_size, PointError, SizeError};

#[test]
fn size_parses_and_clamps() {
    assert_eq!(parse_size("800x600").unwrap(), (800, 600));
    assert_eq!(parse_size("1024X768").unwrap(), (1024, 768));
    assert!(parse_size("nonsense").is_err());
}

#[test]
fn width_is_rounded_down_to_a_multiple_of_32_and_clamped() {
    assert_eq!(screen_size(1000, 700), (992, 700));
    assert_eq!(screen_size(1, 1), (32, 32));
    assert_eq!(screen_size(99999, 99999), (2048, 2048));
    assert_eq!(screen_size(-5, 40), (32, 40));
}

#[test]
fn size_sides_are_trimmed_and_signed() {
    assert_eq!(parse_size(" 800 x 600 "), Ok((800, 600)));
    assert_eq!(parse_size("+8x-6"), Ok((8, -6)));
    assert_eq!(parse_size("x600"), Err(SizeError::Width));
    assert_eq!(parse_size("800x"), Err(SizeError::Height));
    assert_eq!(parse_size("800"), Err(SizeError::Separator));
    assert_eq!(parse_size("2147483648x1"), Err(SizeError::Width));
    assert_eq!(parse_size("-2147483648x2147483647"), Ok((i32::MIN, i32::MAX)));
    // Only the first separator splits: the height "6x7" is no number.
    assert_eq!(parse_size("5x6x7"), Err(SizeError::Height));
}

#[test]
fn pointer_positions_parse() {
    assert_eq!(parse_xy("10,20"), Ok((10, 20)));
    assert_eq!(parse_xy(" 3 , 4"), Ok((3, 4)));
    assert_eq!(parse_xy("10 20"), Err(PointError::Separator));
    assert_eq!(parse_xy("a,1"), Err(PointError::X));
    assert_eq!(parse_xy("1,"), Err(PointError::Y));
}
