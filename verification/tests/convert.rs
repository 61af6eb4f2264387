use risc_core::convert::{from_oberon, plain_text, plain_text_ok, to_oberon};

#[test]
fn cr_becomes_lf() {
    assert_eq!(from_oberon(b"MODULE A;\rEND A.\r"), "MODULE A;\nEND A.\n");
}

#[test]
fn crlf_collapses_to_lf() {
    assert_eq!(from_oberon(b"a\r\nb"), "a\nb");
}

#[test]
fn latin1_byte_becomes_utf8() {
    assert_eq!(from_oberon(&[0xE4]), "ä"); // 0xE4 = 'ä' in Latin-1
}

#[test]
fn lf_becomes_cr() {
    assert_eq!(
        to_oberon("MODULE A;\nEND A.\n"),
        b"MODULE A;\rEND A.\r".to_vec()
    );
}

#[test]
fn crlf_normalizes_to_cr() {
    assert_eq!(to_oberon("a\r\nb"), b"a\rb".to_vec());
}

#[test]
fn latin1_char_becomes_one_byte() {
    assert_eq!(to_oberon("ä"), vec![0xE4]); // 'ä' -> 0xE4
}

#[test]
fn beyond_latin1_is_replaced() {
    assert_eq!(to_oberon("a→b"), b"a?b".to_vec()); // U+2192 -> '?'
}

#[test]
fn oberon_text_survives_a_round_trip() {
    let bytes: Vec<u8> = vec![b'A', b'\r', 0xE4, b'b', b'\r', 0xFF, b'\t'];
    assert_eq!(to_oberon(&from_oberon(&bytes)), bytes);
}

#[test]
fn lone_cr_and_crlf_at_the_end() {
    assert_eq!(from_oberon(b"x\r"), "x\n");
    assert_eq!(from_oberon(b"x\r\n"), "x\n");
    assert_eq!(from_oberon(b"\n"), "\n");
    assert_eq!(to_oberon(""), Vec::<u8>::new());
    assert_eq!(to_oberon("\r"), b"\r".to_vec());
}

#[test]
fn plain_text_drops_the_header_and_turns_cr_to_lf() {
    // Header F0 01, length 8: two more header bytes, then the text.
    let text = [0xF0, 0x01, 8, 0, 0, 0, 0xAA, 0xBB, b'a', b'\r', b'b'];
    assert!(plain_text_ok(&text));
    assert_eq!(plain_text(&text), b"a\nb");
    // Not a formatted text: unchanged, CR and all.
    assert_eq!(plain_text(b"x\ry"), b"x\ry");
    // A header claiming more than there is leaves nothing.
    assert_eq!(plain_text(&[0x01, 0xF0, 99, 0, 0, 0, b'z']), Vec::<u8>::new());
    // A header shorter than itself is refused.
    assert!(!plain_text_ok(&[0xF0, 0x01, 2, 0, 0, 0]));
}
