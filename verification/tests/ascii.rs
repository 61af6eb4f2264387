use risc_core::ascii::{
    decode, decompress, extract_file, names_are_text, read_name, read_names, read_number,
    skip_header, ByteStream, ExtractError,
};

#[test]
fn decode_unpacks_six_bit_payload() {
    // "8U6%" is the AsciiCoder 6-bit packing of "Hi" ('%' = 2 leftover bits).
    assert_eq!(decode(&mut ByteStream::new(b"8U6%")), Some(b"Hi".to_vec()));
}

#[test]
fn decode_rejects_wrong_terminator() {
    // '#' is only valid with 0 leftover bits, but 2 remain here.
    assert_eq!(decode(&mut ByteStream::new(b"8U6#")), None);
}

#[test]
fn read_number_decodes_signed_varint() {
    assert_eq!(read_number(&mut ByteStream::new(&[0x00])), Some(0));
    assert_eq!(read_number(&mut ByteStream::new(&[0x01])), Some(1));
    assert_eq!(read_number(&mut ByteStream::new(&[0x7F])), Some(-1));
    assert_eq!(read_number(&mut ByteStream::new(&[0x80, 0x01])), Some(128));
}

#[test]
fn read_name_splits_on_whitespace() {
    let mut it = ByteStream::new(b"  hi.txt  next ");
    assert_eq!(read_name(&mut it).as_deref(), Some("hi.txt"));
    assert_eq!(read_name(&mut it).as_deref(), Some("next"));
    assert_eq!(read_name(&mut it), None);
}

#[test]
fn skip_header_finds_the_marker() {
    assert!(skip_header(&mut ByteStream::new(b"junk AsciiCoder.DecodeFiles rest")));
    assert!(!skip_header(&mut ByteStream::new(b"no marker present")));
}

#[test]
fn decompress_handles_literal_and_predicted_bytes() {
    // size=1 (0x01); control 0xB1 has its LSB set (a misprediction), so the
    // next source byte 0x00 combines with the carried bits to yield 'X'.
    assert_eq!(
        decompress(&mut ByteStream::new(&[0x01, 0xB1, 0x00])),
        Some(vec![b'X'])
    );
    // size=1; control 0x00 has its LSB clear (a prediction); table[0] is 0.
    assert_eq!(decompress(&mut ByteStream::new(&[0x01, 0x00])), Some(vec![0]));
}

#[test]
fn skip_header_restarts_a_broken_match() {
    assert!(skip_header(&mut ByteStream::new(b"AsciiCoderAsciiCoder.DecodeFiles")));
    let mut s = ByteStream::new(b"AsciiCoder.DecodeFiles a b");
    assert!(skip_header(&mut s));
    assert_eq!(read_name(&mut s).as_deref(), Some("a"));
}

#[test]
fn read_number_refuses_overlong_and_truncated_input() {
    assert_eq!(read_number(&mut ByteStream::new(&[0x80, 0x80])), None); // ends mid-number
    assert_eq!(read_number(&mut ByteStream::new(&[0xFF, 0xFF, 0xFF, 0xFF, 0xFF, 0x00])), None);
    assert_eq!(read_number(&mut ByteStream::new(&[0xC0, 0x7F])), Some(-64));
}

#[test]
fn decode_skips_blanks_and_needs_a_terminator() {
    assert_eq!(decode(&mut ByteStream::new(b"8U\n 6%")), Some(b"Hi".to_vec()));
    assert_eq!(decode(&mut ByteStream::new(b"8U6")), None); // input ends
    assert_eq!(decode(&mut ByteStream::new(b"#")), Some(Vec::new()));
}

#[test]
fn the_name_list_ends_at_the_tilde_and_notes_compression() {
    let mut s = ByteStream::new(b" A.Mod % B.Txt ~ 8U6%");
    let (names, compressed) = read_names(&mut s);
    assert_eq!(names, ["A.Mod", "B.Txt"]);
    assert!(compressed);
    // The stream now stands at the first file's packed block.
    assert_eq!(decode(&mut s), Some(b"Hi".to_vec()));

    let (names, compressed) = read_names(&mut ByteStream::new(b"only"));
    assert_eq!(names, ["only"]);
    assert!(!compressed);
}

#[test]
fn extracting_a_file_unpacks_and_inflates() {
    assert_eq!(extract_file(&mut ByteStream::new(b"8U6%"), false), Ok(b"Hi".to_vec()));
    assert_eq!(extract_file(&mut ByteStream::new(b"8U6#"), false), Err(ExtractError::Decode));
    // Packed bytes [0x01, 0x00]: one predicted byte, 0.
    assert_eq!(extract_file(&mut ByteStream::new(b"100%"), true), Ok(vec![0]));
    // Packed bytes [0x02]: a size with no payload behind it.
    assert_eq!(extract_file(&mut ByteStream::new(b"20$"), true), Err(ExtractError::Decompress));
}

#[test]
fn names_that_are_not_text_are_caught_before_reading() {
    assert!(names_are_text(&ByteStream::new(b"A.Mod B ~ \xFF")));
    assert!(!names_are_text(&ByteStream::new(b"A.Mod \xFF ~")));
}
