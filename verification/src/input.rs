//! What the window's input events mean to the machine: hotkeys, the left-Alt
//! middle button, keys forwarded as PS/2 scancodes, the pointer position in
//! Oberon's bottom-up coordinates, and the LED read-out.
use vstd::prelude::*;

use crate::ps2::{encode, encode_spec, Key};
use crate::text::{push_char, string_from_latin1};

verus! {

/// The modifier keys held.
#[derive(Debug, Clone, Copy, PartialEq, Eq, Structural)]
pub struct Mods {
    pub shift: bool,
    pub ctrl: bool,
    pub alt: bool,
    /// The "super" (logo) key.
    pub logo: bool,
}

/// A hotkey's effect.
#[derive(Debug, Clone, Copy, PartialEq, Eq, Structural)]
pub enum Hotkey {
    Quit,
    Reset,
    ToggleFullscreen,
}

/// What a key event does.
#[derive(Debug, Clone, Copy, PartialEq, Eq)]
pub enum KeyAction {
    /// Press (`true`) or release the middle mouse button.
    MiddleButton(bool),
    /// Run a hotkey.
    Hotkey(Hotkey),
    /// Send the first `n` bytes to the keyboard (none when `n` is 0).
    Send([u8; 8], usize),
}

/// The hotkeys: Alt+F4 quits; F12 and Ctrl+Shift+Delete reset; F11,
/// Alt+Enter and Super+Shift+F toggle full screen.
pub open spec fn hotkey_spec(key: Key, mods: Mods) -> Option<Hotkey> {
    if key == Key::F4 && mods.alt {
        Some(Hotkey::Quit)
    } else if key == Key::F12 || (key == Key::Delete && mods.ctrl && mods.shift) {
        Some(Hotkey::Reset)
    } else if key == Key::F11 || (key == Key::Enter && mods.alt) || (key == Key::KeyF && mods.logo
        && mods.shift) {
        Some(Hotkey::ToggleFullscreen)
    } else {
        None
    }
}

/// The hotkey `key` makes with `mods` held, if any.
pub fn hotkey(key: Key, mods: Mods) -> (h: Option<Hotkey>)
    ensures
        h == hotkey_spec(key, mods),
{
    if key == Key::F4 && mods.alt {
        Some(Hotkey::Quit)
    } else if key == Key::F12 || (key == Key::Delete && mods.ctrl && mods.shift) {
        Some(Hotkey::Reset)
    } else if key == Key::F11 || (key == Key::Enter && mods.alt) || (key == Key::KeyF && mods.logo
        && mods.shift) {
        Some(Hotkey::ToggleFullscreen)
    } else {
        None
    }
}

/// What a make (`make`) or break of `key` does: left Alt is the middle mouse
/// button and never reaches Oberon; a hotkey fires on its make only (its break
/// goes to the keyboard); every other event is sent as PS/2 bytes.
pub fn key_action(key: Key, make: bool, mods: Mods) -> (a: KeyAction)
    ensures
        key == Key::AltLeft ==> a == KeyAction::MiddleButton(make),
        key != Key::AltLeft && make && hotkey_spec(key, mods) is Some ==> a == KeyAction::Hotkey(
            hotkey_spec(key, mods)->0,
        ),
        key != Key::AltLeft && !(make && hotkey_spec(key, mods) is Some) ==> (a matches KeyAction::Send(buf, n)
            && n <= 8 && buf@.subrange(0, n as int) == encode_spec(key, make, mods.shift)),
{
    if key == Key::AltLeft {
        return KeyAction::MiddleButton(make);
    }
    if make {
        match hotkey(key, mods) {
            Some(h) => return KeyAction::Hotkey(h),
            None => {},
        }
    }
    let (buf, n) = encode(key, make, mods.shift);
    KeyAction::Send(buf, n)
}

/// `v` held to `lo..=hi`.
pub open spec fn clamp_spec(v: int, lo: int, hi: int) -> int {
    if v < lo { lo } else if v > hi { hi } else { v }
}

/// The pointer at framebuffer pixel (`x`, `y`) counted from the top left of a
/// `w` by `h` screen: the position held on the screen, turned to Oberon's
/// bottom-left origin, and whether it had to be held (the pointer is off the
/// screen).
pub fn pointer(x: i32, y: i32, w: i32, h: i32) -> (r: (i32, i32, bool))
    requires
        w >= 1,
        h >= 1,
    ensures
        r.0 == clamp_spec(x as int, 0, w - 1),
        r.1 == h - clamp_spec(y as int, 0, h - 1) - 1,
        r.2 == (clamp_spec(x as int, 0, w - 1) != x || clamp_spec(y as int, 0, h - 1) != y),
{
    let cx = if x < 0 { 0 } else if x > w - 1 { w - 1 } else { x };
    let cy = if y < 0 { 0 } else if y > h - 1 { h - 1 } else { y };
    (cx, h - cy - 1, cx != x || cy != y)
}

/// The LED read-out: `LEDs: ` and then, from LED 7 down to LED 0, the LED's
/// digit where it is lit and `-` where it is dark.
pub open spec fn leds_spec(value: u32) -> Seq<char> {
    seq!['L', 'E', 'D', 's', ':', ' '] + Seq::new(
        8,
        |k: int| if value & (1u32 << ((7 - k) as u32)) != 0 { ((0x30 + 7 - k) as u8) as char } else { '-' },
    )
}

/// The LED read-out of `value` (see [`leds_spec`]).
pub fn leds_text(value: u32) -> (s: String)
    ensures
        s@ == leds_spec(value),
{
    let prefix: [u8; 6] = [0x4C, 0x45, 0x44, 0x73, 0x3A, 0x20];
    let mut s = string_from_latin1(&prefix);
    assert(s@ =~= seq!['L', 'E', 'D', 's', ':', ' ']);
    let ghost head = s@;
    let mut i: u32 = 8;
    while i > 0
        invariant
            i <= 8,
            head == seq!['L', 'E', 'D', 's', ':', ' '],
            s@ =~= head + leds_spec(value).subrange(6, 6 + 8 - i),
        decreases i,
    {
        i = i - 1;
        let lit = value & (1u32 << i) != 0;
        let c = if lit { ((0x30 + i) as u8) as char } else { '-' };
        push_char(&mut s, c);
        assert(leds_spec(value)[6 + 7 - i] == c);
        assert(leds_spec(value).subrange(6, 6 + 8 - i) =~= leds_spec(value).subrange(6, 6 + 7 - i).push(c));
    }
    assert(leds_spec(value).subrange(6, 14) =~= leds_spec(value).subrange(6, leds_spec(value).len() as int));
    assert(head + leds_spec(value).subrange(6, 14) =~= leds_spec(value));
    s
}

} // verus!
