use risc_core::name_char_ok;

#[test]
fn first_char_must_be_a_letter() {
    assert!(name_char_ok(0, b'K'));
    assert!(!name_char_ok(0, b'9')); // a digit may not lead
    assert!(!name_char_ok(0, b'.')); // nor a dot
}

#[test]
fn later_chars_allow_letters_digits_and_dot() {
    assert!(name_char_ok(6, b'e'));
    assert!(name_char_ok(6, b'.'));
    assert!(name_char_ok(6, b'5'));
}

#[test]
fn path_separators_are_never_legal() {
    assert!(!name_char_ok(0, b'/'));
    assert!(!name_char_ok(6, b'/'));
    assert!(!name_char_ok(6, b'-'));
}

#[test]
fn non_ascii_letters_are_not_letters() {
    assert!(!name_char_ok(0, 0xE4));
    assert!(!name_char_ok(3, 0xE4));
    assert!(name_char_ok(0, b'z'));
    assert!(!name_char_ok(0, b'@'));
}
