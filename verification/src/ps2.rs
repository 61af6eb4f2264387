//! Physical keys to PS/2 code-set-2 scancodes, as the Oberon keyboard driver
//! reads them.
//!
//! A key is named by [`Key`], the physical position on a US keyboard; the
//! windowing layer maps its own key codes onto it. The one live-state input is
//! the "shift hack" of keypad `/`, which depends on whether a shift key is held.
use vstd::prelude::*;

verus! {

/// Maximum number of bytes emitted for a single key event.
pub const MAX_PS2_CODE_LEN: usize = 8;

/// A physical key. `Other` stands for every key that Oberon does not use.
#[derive(Debug, Clone, Copy, PartialEq, Eq, Structural)]
pub enum Key {
    KeyA, KeyB, KeyC, KeyD, KeyE, KeyF, KeyG, KeyH, KeyI, KeyJ, KeyK, KeyL, KeyM,
    KeyN, KeyO, KeyP, KeyQ, KeyR, KeyS, KeyT, KeyU, KeyV, KeyW, KeyX, KeyY, KeyZ,
    Digit1, Digit2, Digit3, Digit4, Digit5, Digit6, Digit7, Digit8, Digit9, Digit0,
    Enter, Escape, Backspace, Tab, Space,
    Minus, Equal, BracketLeft, BracketRight, Backslash,
    Semicolon, Quote, Backquote, Comma, Period, Slash,
    F1, F2, F3, F4, F5, F6, F7, F8, F9, F10, F11, F12,
    Insert, Home, PageUp, Delete, End, PageDown,
    ArrowRight, ArrowLeft, ArrowDown, ArrowUp,
    NumpadDivide, NumpadMultiply, NumpadSubtract, NumpadAdd, NumpadEnter,
    Numpad1, Numpad2, Numpad3, Numpad4, Numpad5, Numpad6, Numpad7, Numpad8, Numpad9,
    Numpad0, NumpadDecimal,
    IntlBackslash, ContextMenu,
    ControlLeft, ShiftLeft, AltLeft, SuperLeft, ControlRight, ShiftRight, AltRight,
    SuperRight,
    Other,
}

/// How a scancode is framed on the wire.
#[derive(Debug, Clone, Copy, PartialEq, Eq, Structural)]
pub enum KType {
    /// The bare scancode.
    Normal,
    /// Prefixed by `0xE0`.
    Extended,
    /// Extended, wrapped in a fake shift press and release (the navigation keys,
    /// read as if Num Lock were on).
    NumlockHack,
    /// Extended, with a held shift released around the make and pressed again
    /// after the break (keypad `/`).
    ShiftHack,
}

/// The scancode and framing of each key Oberon uses.
pub open spec fn key_table(k: Key) -> Option<(u8, KType)> {
    match k {
        Key::KeyA => Some((0x1C, KType::Normal)),
        Key::KeyB => Some((0x32, KType::Normal)),
        Key::KeyC => Some((0x21, KType::Normal)),
        Key::KeyD => Some((0x23, KType::Normal)),
        Key::KeyE => Some((0x24, KType::Normal)),
        Key::KeyF => Some((0x2B, KType::Normal)),
        Key::KeyG => Some((0x34, KType::Normal)),
        Key::KeyH => Some((0x33, KType::Normal)),
        Key::KeyI => Some((0x43, KType::Normal)),
        Key::KeyJ => Some((0x3B, KType::Normal)),
        Key::KeyK => Some((0x42, KType::Normal)),
        Key::KeyL => Some((0x4B, KType::Normal)),
        Key::KeyM => Some((0x3A, KType::Normal)),
        Key::KeyN => Some((0x31, KType::Normal)),
        Key::KeyO => Some((0x44, KType::Normal)),
        Key::KeyP => Some((0x4D, KType::Normal)),
        Key::KeyQ => Some((0x15, KType::Normal)),
        Key::KeyR => Some((0x2D, KType::Normal)),
        Key::KeyS => Some((0x1B, KType::Normal)),
        Key::KeyT => Some((0x2C, KType::Normal)),
        Key::KeyU => Some((0x3C, KType::Normal)),
        Key::KeyV => Some((0x2A, KType::Normal)),
        Key::KeyW => Some((0x1D, KType::Normal)),
        Key::KeyX => Some((0x22, KType::Normal)),
        Key::KeyY => Some((0x35, KType::Normal)),
        Key::KeyZ => Some((0x1A, KType::Normal)),
        Key::Digit1 => Some((0x16, KType::Normal)),
        Key::Digit2 => Some((0x1E, KType::Normal)),
        Key::Digit3 => Some((0x26, KType::Normal)),
        Key::Digit4 => Some((0x25, KType::Normal)),
        Key::Digit5 => Some((0x2E, KType::Normal)),
        Key::Digit6 => Some((0x36, KType::Normal)),
        Key::Digit7 => Some((0x3D, KType::Normal)),
        Key::Digit8 => Some((0x3E, KType::Normal)),
        Key::Digit9 => Some((0x46, KType::Normal)),
        Key::Digit0 => Some((0x45, KType::Normal)),
        Key::Enter => Some((0x5A, KType::Normal)),
        Key::Escape => Some((0x76, KType::Normal)),
        Key::Backspace => Some((0x66, KType::Normal)),
        Key::Tab => Some((0x0D, KType::Normal)),
        Key::Space => Some((0x29, KType::Normal)),
        Key::Minus => Some((0x4E, KType::Normal)),
        Key::Equal => Some((0x55, KType::Normal)),
        Key::BracketLeft => Some((0x54, KType::Normal)),
        Key::BracketRight => Some((0x5B, KType::Normal)),
        Key::Backslash => Some((0x5D, KType::Normal)),
        Key::Semicolon => Some((0x4C, KType::Normal)),
        Key::Quote => Some((0x52, KType::Normal)),
        Key::Backquote => Some((0x0E, KType::Normal)),
        Key::Comma => Some((0x41, KType::Normal)),
        Key::Period => Some((0x49, KType::Normal)),
        Key::Slash => Some((0x4A, KType::Normal)),
        Key::F1 => Some((0x05, KType::Normal)),
        Key::F2 => Some((0x06, KType::Normal)),
        Key::F3 => Some((0x04, KType::Normal)),
        Key::F4 => Some((0x0C, KType::Normal)),
        Key::F5 => Some((0x03, KType::Normal)),
        Key::F6 => Some((0x0B, KType::Normal)),
        Key::F7 => Some((0x83, KType::Normal)),
        Key::F8 => Some((0x0A, KType::Normal)),
        Key::F9 => Some((0x01, KType::Normal)),
        Key::F10 => Some((0x09, KType::Normal)),
        Key::F11 => Some((0x78, KType::Normal)),
        Key::F12 => Some((0x07, KType::Normal)),
        Key::Insert => Some((0x70, KType::NumlockHack)),
        Key::Home => Some((0x6C, KType::NumlockHack)),
        Key::PageUp => Some((0x7D, KType::NumlockHack)),
        Key::Delete => Some((0x71, KType::NumlockHack)),
        Key::End => Some((0x69, KType::NumlockHack)),
        Key::PageDown => Some((0x7A, KType::NumlockHack)),
        Key::ArrowRight => Some((0x74, KType::NumlockHack)),
        Key::ArrowLeft => Some((0x6B, KType::NumlockHack)),
        Key::ArrowDown => Some((0x72, KType::NumlockHack)),
        Key::ArrowUp => Some((0x75, KType::NumlockHack)),
        Key::NumpadDivide => Some((0x4A, KType::ShiftHack)),
        Key::NumpadMultiply => Some((0x7C, KType::Normal)),
        Key::NumpadSubtract => Some((0x7B, KType::Normal)),
        Key::NumpadAdd => Some((0x79, KType::Normal)),
        Key::NumpadEnter => Some((0x5A, KType::Extended)),
        Key::Numpad1 => Some((0x69, KType::Normal)),
        Key::Numpad2 => Some((0x72, KType::Normal)),
        Key::Numpad3 => Some((0x7A, KType::Normal)),
        Key::Numpad4 => Some((0x6B, KType::Normal)),
        Key::Numpad5 => Some((0x73, KType::Normal)),
        Key::Numpad6 => Some((0x74, KType::Normal)),
        Key::Numpad7 => Some((0x6C, KType::Normal)),
        Key::Numpad8 => Some((0x75, KType::Normal)),
        Key::Numpad9 => Some((0x7D, KType::Normal)),
        Key::Numpad0 => Some((0x70, KType::Normal)),
        Key::NumpadDecimal => Some((0x71, KType::Normal)),
        Key::IntlBackslash => Some((0x61, KType::Normal)),
        Key::ContextMenu => Some((0x2F, KType::Extended)),
        Key::ControlLeft => Some((0x14, KType::Normal)),
        Key::ShiftLeft => Some((0x12, KType::Normal)),
        Key::AltLeft => Some((0x11, KType::Normal)),
        Key::SuperLeft => Some((0x1F, KType::Extended)),
        Key::ControlRight => Some((0x14, KType::Extended)),
        Key::ShiftRight => Some((0x59, KType::Normal)),
        Key::AltRight => Some((0x11, KType::Extended)),
        Key::SuperRight => Some((0x27, KType::Extended)),
        Key::Other => None,
    }
}

/// The bytes a make (`make`) or break of scancode `sc` framed as `ty` puts on
/// the wire; `shift` tells whether a shift key is held.
pub open spec fn frame_spec(sc: u8, ty: KType, make: bool, shift: bool) -> Seq<u8> {
    match ty {
        KType::Normal => if make { seq![sc] } else { seq![0xF0u8, sc] },
        KType::Extended => if make { seq![0xE0u8, sc] } else { seq![0xE0u8, 0xF0u8, sc] },
        KType::NumlockHack => if make {
            seq![0xE0u8, 0x12u8, 0xE0u8, sc]
        } else {
            seq![0xE0u8, 0xF0u8, sc, 0xE0u8, 0xF0u8, 0x12u8]
        },
        KType::ShiftHack => if make {
            if shift { seq![0xE0u8, 0xF0u8, 0x12u8, 0xE0u8, sc] } else { seq![0xE0u8, sc] }
        } else {
            if shift { seq![0xE0u8, 0xF0u8, sc, 0xE0u8, 0x12u8] } else { seq![0xE0u8, 0xF0u8, sc] }
        },
    }
}

/// What a key event emits: nothing for a key Oberon does not use.
pub open spec fn encode_spec(k: Key, make: bool, shift: bool) -> Seq<u8> {
    match key_table(k) {
        None => Seq::empty(),
        Some((sc, ty)) => frame_spec(sc, ty, make, shift),
    }
}

/// The scancode and framing of `k`, or `None` for a key Oberon does not use.
fn lookup(k: Key) -> (r: Option<(u8, KType)>)
    ensures
        r == key_table(k),
{
    match k {
        Key::KeyA => Some((0x1C, KType::Normal)),
        Key::KeyB => Some((0x32, KType::Normal)),
        Key::KeyC => Some((0x21, KType::Normal)),
        Key::KeyD => Some((0x23, KType::Normal)),
        Key::KeyE => Some((0x24, KType::Normal)),
        Key::KeyF => Some((0x2B, KType::Normal)),
        Key::KeyG => Some((0x34, KType::Normal)),
        Key::KeyH => Some((0x33, KType::Normal)),
        Key::KeyI => Some((0x43, KType::Normal)),
        Key::KeyJ => Some((0x3B, KType::Normal)),
        Key::KeyK => Some((0x42, KType::Normal)),
        Key::KeyL => Some((0x4B, KType::Normal)),
        Key::KeyM => Some((0x3A, KType::Normal)),
        Key::KeyN => Some((0x31, KType::Normal)),
        Key::KeyO => Some((0x44, KType::Normal)),
        Key::KeyP => Some((0x4D, KType::Normal)),
        Key::KeyQ => Some((0x15, KType::Normal)),
        Key::KeyR => Some((0x2D, KType::Normal)),
        Key::KeyS => Some((0x1B, KType::Normal)),
        Key::KeyT => Some((0x2C, KType::Normal)),
        Key::KeyU => Some((0x3C, KType::Normal)),
        Key::KeyV => Some((0x2A, KType::Normal)),
        Key::KeyW => Some((0x1D, KType::Normal)),
        Key::KeyX => Some((0x22, KType::Normal)),
        Key::KeyY => Some((0x35, KType::Normal)),
        Key::KeyZ => Some((0x1A, KType::Normal)),
        Key::Digit1 => Some((0x16, KType::Normal)),
        Key::Digit2 => Some((0x1E, KType::Normal)),
        Key::Digit3 => Some((0x26, KType::Normal)),
        Key::Digit4 => Some((0x25, KType::Normal)),
        Key::Digit5 => Some((0x2E, KType::Normal)),
        Key::Digit6 => Some((0x36, KType::Normal)),
        Key::Digit7 => Some((0x3D, KType::Normal)),
        Key::Digit8 => Some((0x3E, KType::Normal)),
        Key::Digit9 => Some((0x46, KType::Normal)),
        Key::Digit0 => Some((0x45, KType::Normal)),
        Key::Enter => Some((0x5A, KType::Normal)),
        Key::Escape => Some((0x76, KType::Normal)),
        Key::Backspace => Some((0x66, KType::Normal)),
        Key::Tab => Some((0x0D, KType::Normal)),
        Key::Space => Some((0x29, KType::Normal)),
        Key::Minus => Some((0x4E, KType::Normal)),
        Key::Equal => Some((0x55, KType::Normal)),
        Key::BracketLeft => Some((0x54, KType::Normal)),
        Key::BracketRight => Some((0x5B, KType::Normal)),
        Key::Backslash => Some((0x5D, KType::Normal)),
        Key::Semicolon => Some((0x4C, KType::Normal)),
        Key::Quote => Some((0x52, KType::Normal)),
        Key::Backquote => Some((0x0E, KType::Normal)),
        Key::Comma => Some((0x41, KType::Normal)),
        Key::Period => Some((0x49, KType::Normal)),
        Key::Slash => Some((0x4A, KType::Normal)),
        Key::F1 => Some((0x05, KType::Normal)),
        Key::F2 => Some((0x06, KType::Normal)),
        Key::F3 => Some((0x04, KType::Normal)),
        Key::F4 => Some((0x0C, KType::Normal)),
        Key::F5 => Some((0x03, KType::Normal)),
        Key::F6 => Some((0x0B, KType::Normal)),
        Key::F7 => Some((0x83, KType::Normal)),
        Key::F8 => Some((0x0A, KType::Normal)),
        Key::F9 => Some((0x01, KType::Normal)),
        Key::F10 => Some((0x09, KType::Normal)),
        Key::F11 => Some((0x78, KType::Normal)),
        Key::F12 => Some((0x07, KType::Normal)),
        Key::Insert => Some((0x70, KType::NumlockHack)),
        Key::Home => Some((0x6C, KType::NumlockHack)),
        Key::PageUp => Some((0x7D, KType::NumlockHack)),
        Key::Delete => Some((0x71, KType::NumlockHack)),
        Key::End => Some((0x69, KType::NumlockHack)),
        Key::PageDown => Some((0x7A, KType::NumlockHack)),
        Key::ArrowRight => Some((0x74, KType::NumlockHack)),
        Key::ArrowLeft => Some((0x6B, KType::NumlockHack)),
        Key::ArrowDown => Some((0x72, KType::NumlockHack)),
        Key::ArrowUp => Some((0x75, KType::NumlockHack)),
        Key::NumpadDivide => Some((0x4A, KType::ShiftHack)),
        Key::NumpadMultiply => Some((0x7C, KType::Normal)),
        Key::NumpadSubtract => Some((0x7B, KType::Normal)),
        Key::NumpadAdd => Some((0x79, KType::Normal)),
        Key::NumpadEnter => Some((0x5A, KType::Extended)),
        Key::Numpad1 => Some((0x69, KType::Normal)),
        Key::Numpad2 => Some((0x72, KType::Normal)),
        Key::Numpad3 => Some((0x7A, KType::Normal)),
        Key::Numpad4 => Some((0x6B, KType::Normal)),
        Key::Numpad5 => Some((0x73, KType::Normal)),
        Key::Numpad6 => Some((0x74, KType::Normal)),
        Key::Numpad7 => Some((0x6C, KType::Normal)),
        Key::Numpad8 => Some((0x75, KType::Normal)),
        Key::Numpad9 => Some((0x7D, KType::Normal)),
        Key::Numpad0 => Some((0x70, KType::Normal)),
        Key::NumpadDecimal => Some((0x71, KType::Normal)),
        Key::IntlBackslash => Some((0x61, KType::Normal)),
        Key::ContextMenu => Some((0x2F, KType::Extended)),
        Key::ControlLeft => Some((0x14, KType::Normal)),
        Key::ShiftLeft => Some((0x12, KType::Normal)),
        Key::AltLeft => Some((0x11, KType::Normal)),
        Key::SuperLeft => Some((0x1F, KType::Extended)),
        Key::ControlRight => Some((0x14, KType::Extended)),
        Key::ShiftRight => Some((0x59, KType::Normal)),
        Key::AltRight => Some((0x11, KType::Extended)),
        Key::SuperRight => Some((0x27, KType::Extended)),
        Key::Other => None,
    }
}

/// Append byte `b` at position `*n` of `out`.
fn push(out: &mut [u8; 8], n: &mut usize, b: u8)
    requires
        *old(n) < 8,
    ensures
        *final(n) == *old(n) + 1,
        final(out)@ == old(out)@.update(*old(n) as int, b),
{
    out[*n] = b;
    *n = *n + 1;
}

/// Encode a key make (`make`) or break into PS/2 set-2 bytes. Returns the
/// buffer and the number of valid bytes; `0` means "emit nothing". `shift`
/// tells whether a shift key is held (it matters for keypad `/` only).
pub fn encode(key: Key, make: bool, shift: bool) -> (r: ([u8; 8], usize))
    ensures
        r.1 <= MAX_PS2_CODE_LEN,
        r.0@.subrange(0, r.1 as int) == encode_spec(key, make, shift),
{
    let mut out = [0u8; 8];
    let mut n: usize = 0;
    let (sc, ty) = match lookup(key) {
        None => {
            assert(out@.subrange(0, 0) =~= Seq::<u8>::empty());
            return (out, 0);
        },
        Some(p) => p,
    };
    match ty {
        KType::Normal => {
            if !make {
                push(&mut out, &mut n, 0xF0);
            }
            push(&mut out, &mut n, sc);
        },
        KType::Extended => {
            push(&mut out, &mut n, 0xE0);
            if !make {
                push(&mut out, &mut n, 0xF0);
            }
            push(&mut out, &mut n, sc);
        },
        KType::NumlockHack => {
            if make {
                push(&mut out, &mut n, 0xE0);
                push(&mut out, &mut n, 0x12);
                push(&mut out, &mut n, 0xE0);
                push(&mut out, &mut n, sc);
            } else {
                push(&mut out, &mut n, 0xE0);
                push(&mut out, &mut n, 0xF0);
                push(&mut out, &mut n, sc);
                push(&mut out, &mut n, 0xE0);
                push(&mut out, &mut n, 0xF0);
                push(&mut out, &mut n, 0x12);
            }
        },
        KType::ShiftHack => {
            if make {
                if shift {
                    push(&mut out, &mut n, 0xE0);
                    push(&mut out, &mut n, 0xF0);
                    push(&mut out, &mut n, 0x12);
                }
                push(&mut out, &mut n, 0xE0);
                push(&mut out, &mut n, sc);
            } else {
                push(&mut out, &mut n, 0xE0);
                push(&mut out, &mut n, 0xF0);
                push(&mut out, &mut n, sc);
                if shift {
                    push(&mut out, &mut n, 0xE0);
                    push(&mut out, &mut n, 0x12);
                }
            }
        },
    }
    assert(out@.subrange(0, n as int) =~= frame_spec(sc, ty, make, shift));
    (out, n)
}

/// A key event emits bytes exactly when Oberon uses the key, and every
/// emitted code names the key's scancode.
pub proof fn law_encode_names_scancode(k: Key, make: bool, shift: bool)
    ensures
        (encode_spec(k, make, shift).len() == 0) <==> key_table(k) is None,
        key_table(k) matches Some((sc, _)) ==> encode_spec(k, make, shift).contains(sc),
{
    if let Some((sc, ty)) = key_table(k) {
        let s = frame_spec(sc, ty, make, shift);
        match ty {
            KType::Normal => { assert(s[s.len() - 1] == sc); },
            KType::Extended => { assert(s[s.len() - 1] == sc); },
            KType::NumlockHack => { if make { assert(s[3] == sc); } else { assert(s[2] == sc); } },
            KType::ShiftHack => {
                if make { assert(s[s.len() - 1] == sc); } else { assert(s[2] == sc); }
            },
        }
    }
}

/// A break differs from the make of the same key: it carries the `0xF0`
/// release prefix, which no make of a Normal or Extended key does.
pub proof fn law_break_carries_release(k: Key, shift: bool)
    requires
        key_table(k) is Some,
    ensures
        encode_spec(k, false, shift).contains(0xF0u8),
        key_table(k) matches Some((sc, ty)) && (ty == KType::Normal || ty == KType::Extended)
            && sc != 0xF0 ==> !encode_spec(k, true, shift).contains(0xF0u8),
{
    let (sc, ty) = key_table(k)->0;
    let b = frame_spec(sc, ty, false, shift);
    match ty {
        KType::Normal => { assert(b[0] == 0xF0u8); },
        _ => { assert(b[1] == 0xF0u8); },
    }
    if (ty == KType::Normal || ty == KType::Extended) && sc != 0xF0 {
        let m = frame_spec(sc, ty, true, shift);
        assert forall|i: int| 0 <= i < m.len() implies m[i] != 0xF0u8 by {}
    }
}

} // verus!
