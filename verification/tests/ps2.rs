use risc_core::ps2::{encode, Key, MAX_PS2_CODE_LEN};

fn enc(key: Key, make: bool, shift: bool) -> Vec<u8> {
    let (buf, n) = encode(key, make, shift);
    buf[..n].to_vec()
}

#[test]
fn normal_make_and_break() {
    assert_eq!(enc(Key::KeyA, true, false), vec![0x1C]);
    assert_eq!(enc(Key::KeyA, false, false), vec![0xF0, 0x1C]);
}

#[test]
fn extended_make_and_break() {
    assert_eq!(enc(Key::NumpadEnter, true, false), vec![0xE0, 0x5A]);
    assert_eq!(enc(Key::NumpadEnter, false, false), vec![0xE0, 0xF0, 0x5A]);
}

#[test]
fn numlock_hack() {
    assert_eq!(enc(Key::ArrowUp, true, false), vec![0xE0, 0x12, 0xE0, 0x75]);
    assert_eq!(
        enc(Key::ArrowUp, false, false),
        vec![0xE0, 0xF0, 0x75, 0xE0, 0xF0, 0x12]
    );
}

#[test]
fn shift_hack_depends_on_modifier() {
    assert_eq!(enc(Key::NumpadDivide, true, false), vec![0xE0, 0x4A]);
    assert_eq!(
        enc(Key::NumpadDivide, true, true),
        vec![0xE0, 0xF0, 0x12, 0xE0, 0x4A]
    );
    assert_eq!(
        enc(Key::NumpadDivide, false, true),
        vec![0xE0, 0xF0, 0x4A, 0xE0, 0x12]
    );
}

#[test]
fn unmapped_keys_emit_nothing() {
    assert_eq!(enc(Key::Other, true, false), Vec::<u8>::new());
    let (_, n) = encode(Key::Other, false, true);
    assert_eq!(n, 0);
}

#[test]
fn modifiers_and_function_keys_have_their_codes() {
    assert_eq!(enc(Key::ShiftRight, true, false), vec![0x59]);
    assert_eq!(enc(Key::ControlRight, false, false), vec![0xE0, 0xF0, 0x14]);
    assert_eq!(enc(Key::F7, true, false), vec![0x83]);
    assert_eq!(enc(Key::Digit0, true, true), vec![0x45]); // shift only matters for keypad '/'
    let (_, n) = encode(Key::Delete, false, false);
    assert!(n <= MAX_PS2_CODE_LEN);
}
