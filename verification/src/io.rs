//! Device callback traits: the devices a [`crate::risc::Risc`] calls out to from
//! inside an instruction, through its memory-mapped I/O ports.
//!
//! Each device is supplied by the embedder (a disk image, a serial line, the host
//! clipboard), so nothing is promised about what a method returns; the machine
//! records each call and its value in its I/O log instead.
use vstd::prelude::*;

use crate::shim::{mem_byte, mem_bytes, mem_write_byte, mem_write_bytes};

verus! {

/// RS232 serial line: PCLink file transfer or a raw host serial port.
pub trait Serial {
    fn read_status(&mut self) -> u32;

    fn read_data(&mut self) -> u32;

    fn write_data(&mut self, value: u32);
}

/// An SPI slave (the SD-card disk lives here).
pub trait Spi {
    fn read_data(&mut self) -> u32;

    fn write_data(&mut self, value: u32);
}

/// The emulator-only clipboard bridge (host clipboard <-> Oberon).
pub trait Clipboard {
    fn read_control(&mut self) -> u32;

    fn write_control(&mut self, value: u32);

    fn read_data(&mut self) -> u32;

    fn write_data(&mut self, value: u32);
}

/// The board LEDs (optional logging device).
pub trait Led {
    fn write(&mut self, value: u32);
}

/// A byte-addressable view of the machine's RAM words, handed to a
/// [`NoreboHost`] so host syscalls can read their arguments and move file data
/// in emulated memory. Unlike the shim's own view, every access must lie inside
/// RAM.
pub struct NoreboMem {
    ram: Vec<u32>,
    size: u32,
}

impl View for NoreboMem {
    type V = Seq<u32>;

    closed spec fn view(&self) -> Seq<u32> {
        self.ram@
    }
}

impl NoreboMem {
    /// The RAM size in bytes it was made with.
    pub closed spec fn spec_size(&self) -> u32 {
        self.size
    }

    /// Wrap RAM words holding `size` bytes.
    pub fn new(ram: Vec<u32>, size: u32) -> (m: NoreboMem)
        ensures
            m@ == ram@,
            m.spec_size() == size,
    {
        NoreboMem { ram, size }
    }

    /// The RAM size in bytes.
    pub fn size(&self) -> (n: u32)
        ensures
            n == self.spec_size(),
    {
        self.size
    }

    /// The RAM words, handed back.
    pub fn into_ram(self) -> (ram: Vec<u32>)
        ensures
            ram@ == self@,
    {
        self.ram
    }

    /// The word at byte address `adr` (word-aligned in practice; the low two
    /// bits are ignored).
    pub fn read_word(&self, adr: u32) -> (w: u32)
        requires
            adr / 4 < self@.len(),
        ensures
            w == self@[(adr / 4) as int],
    {
        self.ram[(adr / 4) as usize]
    }

    /// The byte at `adr`.
    pub fn read_byte(&self, adr: u32) -> (b: u8)
        requires
            adr / 4 < self@.len(),
        ensures
            b == mem_byte(self@, adr as int),
    {
        let k = adr % 4;
        ((self.ram[(adr / 4) as usize] >> (k * 8)) & 0xFF) as u8
    }

    /// Write the byte at `adr` (read-modify-write of its containing word).
    pub fn write_byte(&mut self, adr: u32, value: u8)
        requires
            adr / 4 < old(self)@.len(),
        ensures
            final(self)@ == mem_write_byte(old(self)@, adr as int, value),
            final(self).spec_size() == old(self).spec_size(),
    {
        let i = (adr / 4) as usize;
        let shift = (adr % 4) * 8;
        let w = self.ram[i];
        self.ram.set(i, (w & !(0xFFu32 << shift)) | ((value as u32) << shift));
    }

    /// Copy `buf.len()` bytes of memory from `adr` on into `buf`.
    pub fn read_bytes(&self, adr: u32, buf: &mut [u8])
        requires
            adr + old(buf)@.len() <= 4 * self@.len(),
            adr + old(buf)@.len() <= 0x1_0000_0000,
        ensures
            final(buf)@ == mem_bytes(self@, adr as int, old(buf)@.len()),
    {
        let n = buf.len();
        let mut i: usize = 0;
        while i < n
            invariant
                n == buf@.len(),
                n == old(buf)@.len(),
                adr + n <= 4 * self@.len(),
                adr + n <= 0x1_0000_0000,
                i <= n,
                forall|j: int| 0 <= j < i ==> buf@[j] == mem_byte(self@, adr + j),
            decreases n - i,
        {
            buf[i] = self.read_byte(adr + i as u32);
            i = i + 1;
        }
        assert(buf@ =~= mem_bytes(self@, adr as int, n as nat));
    }

    /// Copy `buf` into memory from `adr` on.
    pub fn write_bytes(&mut self, adr: u32, buf: &[u8])
        requires
            adr + buf@.len() <= 4 * old(self)@.len(),
            adr + buf@.len() <= 0x1_0000_0000,
        ensures
            final(self)@ == mem_write_bytes(old(self)@, adr as int, buf@),
            final(self).spec_size() == old(self).spec_size(),
    {
        let n = buf.len();
        let mut i: usize = 0;
        while i < n
            invariant
                n == buf@.len(),
                adr + n <= 4 * old(self)@.len(),
                adr + n <= 0x1_0000_0000,
                i <= n,
                self@ == mem_write_bytes(old(self)@, adr as int, buf@.subrange(0, i as int)),
                self@.len() == old(self)@.len(),
                self.spec_size() == old(self).spec_size(),
            decreases n - i,
        {
            self.write_byte(adr + i as u32, buf[i]);
            i = i + 1;
            assert(buf@.subrange(0, i as int).drop_last() =~= buf@.subrange(0, i - 1));
        }
        assert(buf@.subrange(0, n as int) =~= buf@);
    }
}

/// The Norebo host: the syscall and I/O backend that maps Oberon's
/// `Kernel`/`Files` operations onto the host. `offset` is the I/O byte offset
/// (`address - 0xFFFF_FFC0`): 0 clock, 4 LEDs, 8 stdin/stdout, 12 status,
/// 48/52/56 syscall arguments 2/1/0, 60 syscall trigger and result.
pub trait NoreboHost {
    /// Read the I/O word at `offset`.
    fn load(&mut self, offset: u32, mem: &mut NoreboMem) -> u32;

    /// Write `value` to the I/O word at `offset` (offset 60 runs a syscall).
    fn store(&mut self, offset: u32, value: u32, mem: &mut NoreboMem);

    /// `Some(code)` once the guest has halted or trapped.
    fn exit_code(&self) -> Option<i32>;
}

} // verus!
