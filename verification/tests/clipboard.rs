use std::cell::RefCell;
use std::rc::Rc;

use risc_core::clipboard::{ClipboardBridge, HostClipboard};
use risc_core::io::Clipboard;

struct FakeHost(Rc<RefCell<String>>);
impl HostClipboard for FakeHost {
    fn get_text(&mut self) -> Option<String> {
        Some(self.0.borrow().clone())
    }
    fn set_text(&mut self, text: &str) {
        *self.0.borrow_mut() = text.to_owned();
    }
}

/// A host whose clipboard holds no text at all.
struct NoText;
impl HostClipboard for NoText {
    fn get_text(&mut self) -> Option<String> {
        None
    }
    fn set_text(&mut self, _text: &str) {}
}

fn bridge(content: &Rc<RefCell<String>>) -> ClipboardBridge {
    ClipboardBridge::new(Box::new(FakeHost(content.clone())))
}

#[test]
fn get_folds_crlf_and_lf_to_cr() {
    let content = Rc::new(RefCell::new("ab\r\ncd\nef".to_string()));
    let mut clip = bridge(&content);
    // 9 bytes; one CRLF collapses -> announced length 8.
    assert_eq!(clip.read_control(), 8);
    let mut out = Vec::new();
    for _ in 0..8 {
        out.push(clip.read_data() as u8);
    }
    assert_eq!(out, b"ab\rcd\ref");
    // Drained -> back to idle.
    assert_eq!(clip.read_data(), 0);
}

#[test]
fn put_converts_cr_to_lf_and_sets_host() {
    let content = Rc::new(RefCell::new(String::new()));
    let mut clip = bridge(&content);
    let input = b"x\ry"; // Oberon sends CR line endings
    clip.write_control(input.len() as u32);
    for &b in input {
        clip.write_data(b as u32);
    }
    assert_eq!(*content.borrow(), "x\ny");
}

#[test]
fn empty_clipboard_reads_zero() {
    let content = Rc::new(RefCell::new(String::new()));
    let mut clip = bridge(&content);
    assert_eq!(clip.read_control(), 0);
    assert_eq!(clip.read_data(), 0);
}

#[test]
fn a_host_without_text_reads_zero() {
    let mut clip = ClipboardBridge::new(Box::new(NoText));
    assert_eq!(clip.read_control(), 0);
    assert_eq!(clip.read_data(), 0);
}

#[test]
fn put_decodes_latin1_for_the_host() {
    let content = Rc::new(RefCell::new(String::new()));
    let mut clip = bridge(&content);
    let input = [b'a', 0xE9, 0xFF, b'\r'];
    clip.write_control(input.len() as u32);
    for &b in &input {
        clip.write_data(b as u32);
    }
    assert_eq!(*content.borrow(), "a\u{E9}\u{FF}\n");
}

#[test]
fn a_put_then_a_get_gives_back_the_text() {
    let content = Rc::new(RefCell::new(String::new()));
    let mut clip = bridge(&content);
    let input = b"one\rtwo";
    clip.write_control(input.len() as u32);
    for &b in input {
        clip.write_data(b as u32);
    }
    assert_eq!(clip.read_control(), input.len() as u32);
    let got: Vec<u8> = (0..input.len()).map(|_| clip.read_data() as u8).collect();
    assert_eq!(got, input);
}
