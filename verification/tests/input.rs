use risc_core::input::{key_action, leds_text, pointer, Hotkey, KeyAction, Mods};
use risc_core::ps2::Key;

const NONE: Mods = Mods { shift: false, ctrl: false, alt: false, logo: false };

fn sent(a: KeyAction) -> Vec<u8> {
    match a {
        KeyAction::Send(buf, n) => buf[..n].to_vec(),
        other => panic!("expected bytes, got {other:?}"),
    }
}

#[test]
fn left_alt_is_the_middle_button() {
    assert_eq!(key_action(Key::AltLeft, true, NONE), KeyAction::MiddleButton(true));
    assert_eq!(key_action(Key::AltLeft, false, NONE), KeyAction::MiddleButton(false));
}

#[test]
fn hotkeys_fire_on_the_make_only() {
    let alt = Mods { alt: true, ..NONE };
    let ctrl_shift = Mods { ctrl: true, shift: true, ..NONE };
    let logo_shift = Mods { logo: true, shift: true, ..NONE };
    assert_eq!(key_action(Key::F4, true, alt), KeyAction::Hotkey(Hotkey::Quit));
    assert_eq!(key_action(Key::F12, true, NONE), KeyAction::Hotkey(Hotkey::Reset));
    assert_eq!(key_action(Key::Delete, true, ctrl_shift), KeyAction::Hotkey(Hotkey::Reset));
    assert_eq!(key_action(Key::F11, true, NONE), KeyAction::Hotkey(Hotkey::ToggleFullscreen));
    assert_eq!(key_action(Key::Enter, true, alt), KeyAction::Hotkey(Hotkey::ToggleFullscreen));
    assert_eq!(key_action(Key::KeyF, true, logo_shift), KeyAction::Hotkey(Hotkey::ToggleFullscreen));
    // The break of a hotkey goes to the keyboard.
    assert_eq!(sent(key_action(Key::F12, false, NONE)), vec![0xF0, 0x07]);
    // Without its modifiers a key is just a key.
    assert_eq!(sent(key_action(Key::F4, true, NONE)), vec![0x0C]);
}

#[test]
fn other_keys_are_sent_as_scancodes() {
    assert_eq!(sent(key_action(Key::KeyA, true, NONE)), vec![0x1C]);
    let shift = Mods { shift: true, ..NONE };
    assert_eq!(sent(key_action(Key::NumpadDivide, true, shift)), vec![0xE0, 0xF0, 0x12, 0xE0, 0x4A]);
    assert_eq!(sent(key_action(Key::Other, true, NONE)), Vec::<u8>::new());
}

#[test]
fn the_pointer_is_held_on_screen_and_flipped() {
    assert_eq!(pointer(10, 0, 1024, 768), (10, 767, false));
    assert_eq!(pointer(-5, 800, 1024, 768), (0, 0, true));
    assert_eq!(pointer(2000, 767, 1024, 768), (1023, 0, true));
}

#[test]
fn the_led_readout_shows_each_lit_led() {
    assert_eq!(leds_text(0), "LEDs: --------");
    assert_eq!(leds_text(0xFF), "LEDs: 76543210");
    assert_eq!(leds_text(0x81), "LEDs: 7------0");
    assert_eq!(leds_text(0x100), "LEDs: --------");
}
