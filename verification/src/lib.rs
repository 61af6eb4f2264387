//! The Project Oberon RISC5 machine and its host tooling, verified: the CPU with
//! its software floating point, memory map and devices; the headless shim's
//! file syscalls; and the host-side readers and converters for Oberon files.
use vstd::prelude::*;

pub mod ascii;
pub mod cli;
pub mod clipboard;
pub mod convert;
pub mod disk;
pub mod extract;
pub mod fp;
pub mod headless;
pub mod image;
pub mod input;
pub mod io;
pub mod pclink;
pub mod pipeline;
pub mod ps2;
pub mod render;
pub mod resolve;
pub mod risc;
pub mod shim;
pub mod text;

verus! {

/// An ASCII letter.
pub open spec fn is_ascii_letter(ch: u8) -> bool {
    (0x41 <= ch <= 0x5A) || (0x61 <= ch <= 0x7A)
}

/// An ASCII decimal digit.
pub open spec fn is_ascii_digit(ch: u8) -> bool {
    0x30 <= ch <= 0x39
}

/// Whether `ch` may stand at 0-based position `i` of a Project Oberon file name:
/// a leading letter, then letters, digits or `.`.
pub open spec fn name_char_spec(i: int, ch: u8) -> bool {
    is_ascii_letter(ch) || (i > 0 && (ch == 0x2E || is_ascii_digit(ch)))
}

/// Whether byte `ch` is legal at 0-based position `i` of a Project Oberon file
/// name: a leading ASCII letter, then letters, digits, or `.`. This is the
/// per-character rule only; where a name ends is up to the caller.
pub fn name_char_ok(i: usize, ch: u8) -> (ok: bool)
    ensures
        ok == name_char_spec(i as int, ch),
{
    let letter = (0x41 <= ch && ch <= 0x5A) || (0x61 <= ch && ch <= 0x7A);
    let digit = 0x30 <= ch && ch <= 0x39;
    letter || (i > 0 && (ch == 0x2E || digit))
}

} // verus!
