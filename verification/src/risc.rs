//! The RISC5 CPU core, memory map, and public API.
//!
//! The memory layout differs slightly from the FPGA: the FPGA uses a 20-bit
//! address bus and ignores the top 12 bits, while this machine decodes all 32
//! bits so it can offer more than 1 MB of RAM. In the default configuration it
//! is bit-compatible with the FPGA system.
//!
//! The machine is specified as a state transformer on [`MachineState`]: one
//! instruction is [`step`], and each public operation states its effect on that
//! state. Devices are supplied by the embedder; a value a device hands back is
//! a parameter of the specification, and every device call is recorded in the
//! state's I/O log.
use vstd::prelude::*;

use crate::fp::{fp_add, fp_add_spec, fp_div, fp_div_spec, fp_mul, fp_mul_spec, idiv, idiv_spec};
use crate::io::{Clipboard, Led, Serial, Spi};

verus! {

/// Standard framebuffer width in pixels (overridable via [`Risc::configure_memory`]).
pub const FRAMEBUFFER_WIDTH: usize = 1024;

/// Standard framebuffer height in pixels.
pub const FRAMEBUFFER_HEIGHT: usize = 768;

/// RAM size of the default configuration (1 MB).
pub const DEFAULT_MEM_SIZE: u32 = 0x0010_0000;

/// Start of the framebuffer in the default configuration.
pub const DEFAULT_DISPLAY_START: u32 = 0x000E_7F00;

/// Byte address of the boot ROM.
pub const ROM_START: u32 = 0xFFFF_F800;

/// Size of the boot ROM in words.
pub const ROM_WORDS: usize = 512;

/// Byte address of the memory-mapped I/O region.
pub const IO_START: u32 = 0xFFFF_FFC0;

/// Instruction-class selector bits in the top nibble of every instruction.
pub const PBIT: u32 = 0x8000_0000;

pub const QBIT: u32 = 0x4000_0000;

pub const UBIT: u32 = 0x2000_0000;

pub const VBIT: u32 = 0x1000_0000;

/// The word address the program counter holds after a reset.
pub open spec fn reset_pc() -> u32 {
    ROM_START / 4
}

// ---------------------------------------------------------------------------
// Small value types
// ---------------------------------------------------------------------------

/// A register-instruction opcode: the 4-bit `op` field.
#[derive(Debug, Clone, Copy, PartialEq, Eq, Structural)]
pub enum Op {
    Mov,
    Lsl,
    Asr,
    Ror,
    And,
    Ann,
    Ior,
    Xor,
    Add,
    Sub,
    Mul,
    Div,
    Fad,
    Fsb,
    Fml,
    Fdv,
}

/// The opcode a 4-bit field value stands for (values of 15 and above are `FDV`).
pub open spec fn decode_op(v: u32) -> Op {
    if v == 0 { Op::Mov }
    else if v == 1 { Op::Lsl }
    else if v == 2 { Op::Asr }
    else if v == 3 { Op::Ror }
    else if v == 4 { Op::And }
    else if v == 5 { Op::Ann }
    else if v == 6 { Op::Ior }
    else if v == 7 { Op::Xor }
    else if v == 8 { Op::Add }
    else if v == 9 { Op::Sub }
    else if v == 10 { Op::Mul }
    else if v == 11 { Op::Div }
    else if v == 12 { Op::Fad }
    else if v == 13 { Op::Fsb }
    else if v == 14 { Op::Fml }
    else { Op::Fdv }
}

impl Op {
    /// Decode the 4-bit opcode field.
    pub fn from_u4(v: u32) -> (op: Op)
        ensures
            op == decode_op(v),
    {
        match v {
            0 => Op::Mov,
            1 => Op::Lsl,
            2 => Op::Asr,
            3 => Op::Ror,
            4 => Op::And,
            5 => Op::Ann,
            6 => Op::Ior,
            7 => Op::Xor,
            8 => Op::Add,
            9 => Op::Sub,
            10 => Op::Mul,
            11 => Op::Div,
            12 => Op::Fad,
            13 => Op::Fsb,
            14 => Op::Fml,
            _ => Op::Fdv,
        }
    }
}

/// The four ALU status flags. `bits` packs them as `Z | N<<1 | C<<2 | V<<3`.
#[derive(Debug, Clone, Copy, PartialEq, Eq, Structural)]
pub struct Flags {
    pub z: bool,
    pub n: bool,
    pub c: bool,
    pub v: bool,
}

/// The packed flag byte `Z | N<<1 | C<<2 | V<<3`.
pub open spec fn flag_bits(f: Flags) -> u8 {
    ((if f.z { 1u8 } else { 0u8 }) + (if f.n { 2u8 } else { 0u8 }) + (if f.c { 4u8 } else { 0u8 })
        + (if f.v { 8u8 } else { 0u8 })) as u8
}

/// The flags a packed byte stands for (bits above 3 are ignored).
pub open spec fn flags_from_bits(b: u8) -> Flags {
    Flags { z: b & 1 != 0, n: b & 2 != 0, c: b & 4 != 0, v: b & 8 != 0 }
}

impl Flags {
    /// No flag set.
    pub fn empty() -> (f: Flags)
        ensures
            f == (Flags { z: false, n: false, c: false, v: false }),
    {
        Flags { z: false, n: false, c: false, v: false }
    }

    /// The packed flag byte `Z | N<<1 | C<<2 | V<<3`.
    pub fn bits(&self) -> (b: u8)
        ensures
            b == flag_bits(*self),
    {
        (if self.z { 1u8 } else { 0u8 }) + (if self.n { 2u8 } else { 0u8 }) + (if self.c {
            4u8
        } else {
            0u8
        }) + (if self.v { 8u8 } else { 0u8 })
    }

    /// The flags of a packed byte; bits above 3 are dropped.
    pub fn from_bits_truncate(b: u8) -> (f: Flags)
        ensures
            f == flags_from_bits(b),
    {
        Flags { z: b & 1 != 0, n: b & 2 != 0, c: b & 4 != 0, v: b & 8 != 0 }
    }

    /// Whether every flag set in `other` is set in `self`.
    pub fn contains(&self, other: Flags) -> (r: bool)
        ensures
            r == ((other.z ==> self.z) && (other.n ==> self.n) && (other.c ==> self.c) && (other.v
                ==> self.v)),
    {
        (!other.z || self.z) && (!other.n || self.n) && (!other.c || self.c) && (!other.v || self.v)
    }
}

/// A branch condition: the 3-bit `cc` field, under its ISA mnemonic.
#[derive(Debug, Clone, Copy, PartialEq, Eq, Structural)]
pub enum Cond {
    Mi,
    Eq,
    Cs,
    Vs,
    Ls,
    Lt,
    Le,
    True,
}

/// The condition a 3-bit field value stands for (values of 7 and above are "always").
pub open spec fn decode_cond(v: u32) -> Cond {
    if v == 0 { Cond::Mi }
    else if v == 1 { Cond::Eq }
    else if v == 2 { Cond::Cs }
    else if v == 3 { Cond::Vs }
    else if v == 4 { Cond::Ls }
    else if v == 5 { Cond::Lt }
    else if v == 6 { Cond::Le }
    else { Cond::True }
}

/// Whether the (un-negated) condition holds for the given flags.
pub open spec fn cond_holds(cond: Cond, f: Flags) -> bool {
    match cond {
        Cond::Mi => f.n,
        Cond::Eq => f.z,
        Cond::Cs => f.c,
        Cond::Vs => f.v,
        Cond::Ls => f.c || f.z,
        Cond::Lt => f.n != f.v,
        Cond::Le => (f.n != f.v) || f.z,
        Cond::True => true,
    }
}

impl Cond {
    /// Decode the 3-bit condition field.
    pub fn from_u3(v: u32) -> (c: Cond)
        ensures
            c == decode_cond(v),
    {
        match v {
            0 => Cond::Mi,
            1 => Cond::Eq,
            2 => Cond::Cs,
            3 => Cond::Vs,
            4 => Cond::Ls,
            5 => Cond::Lt,
            6 => Cond::Le,
            _ => Cond::True,
        }
    }

    /// Whether the (un-negated) condition holds for the given flags.
    pub fn holds(self, f: Flags) -> (r: bool)
        ensures
            r == cond_holds(self, f),
    {
        match self {
            Cond::Mi => f.n,
            Cond::Eq => f.z,
            Cond::Cs => f.c,
            Cond::Vs => f.v,
            Cond::Ls => f.c || f.z,
            Cond::Lt => f.n != f.v,
            Cond::Le => (f.n != f.v) || f.z,
            Cond::True => true,
        }
    }
}

/// A byte address in the 32-bit address space (a memory operand or I/O register).
#[derive(Clone, Copy)]
pub struct ByteAddr(pub u32);

/// A word (4-byte) index into RAM or ROM.
#[derive(Clone, Copy)]
pub struct WordAddr(pub u32);

impl ByteAddr {
    /// The index of the word containing this address.
    pub fn word(self) -> (w: WordAddr)
        ensures
            w.0 == self.0 / 4,
    {
        WordAddr(self.0 / 4)
    }

    /// This address's byte offset within its word.
    pub fn byte_in_word(self) -> (b: u32)
        ensures
            b == self.0 % 4,
    {
        self.0 % 4
    }
}

impl WordAddr {
    /// The byte address of this word's first byte (`* 4`, wrapping).
    pub fn byte(self) -> (b: ByteAddr)
        ensures
            b.0 == vstd::wrapping::u32_specs::wrapping_mul(self.0, 4),
    {
        ByteAddr(self.0.wrapping_mul(4))
    }

    /// As an index into RAM or ROM.
    pub fn index(self) -> (i: usize)
        ensures
            i == self.0,
    {
        self.0 as usize
    }
}

/// A damaged (dirty) rectangle of the framebuffer, in framebuffer-word columns
/// and line rows. `y1 > y2` means "nothing damaged".
#[derive(Debug, Clone, Copy, PartialEq, Eq, Structural)]
pub struct Damage {
    pub x1: i32,
    pub x2: i32,
    pub y1: i32,
    pub y2: i32,
}

/// A snapshot of the architectural CPU state.
#[derive(Debug, Clone, Copy, PartialEq, Eq)]
pub struct CpuState {
    pub pc: u32,
    pub r: [u32; 16],
    pub h: u32,
    pub flags: Flags,
}

/// One call the machine made into an attached device, with the value passed or
/// returned, or the attaching of a device (the calls after it that name its
/// slot go to that device).
#[derive(Debug, Clone, Copy, PartialEq, Eq, Structural)]
pub enum IoEvent {
    /// A device was attached at the LEDs.
    AttachLeds,
    /// A device was attached at the serial line.
    AttachSerial,
    /// A device was attached as SPI slave 1 or 2.
    AttachSpi(u32),
    /// A device was attached at the clipboard ports.
    AttachClipboard,
    /// `Serial::read_data` returned the value.
    SerialData(u32),
    /// `Serial::read_status` returned the value.
    SerialStatus(u32),
    /// `Serial::write_data` was called with the value.
    SerialWrite(u32),
    /// `Spi::read_data` of the slave returned the value.
    SpiRead(u32, u32),
    /// `Spi::write_data` of the slave was called with the value.
    SpiWrite(u32, u32),
    /// `Led::write` was called with the value.
    Leds(u32),
    /// `Clipboard::read_control` returned the value.
    ClipboardControl(u32),
    /// `Clipboard::read_data` returned the value.
    ClipboardData(u32),
    /// `Clipboard::write_control` was called with the value.
    ClipboardSetControl(u32),
    /// `Clipboard::write_data` was called with the value.
    ClipboardSetData(u32),
}

/// Which devices are attached.
pub struct Attached {
    pub leds: bool,
    pub serial: bool,
    pub spi1: bool,
    pub spi2: bool,
    pub clipboard: bool,
}

/// The machine's state: CPU registers, memory, the memory-mapped device
/// registers it keeps itself, which devices are attached, and the log of every
/// call made into a device.
pub struct MachineState {
    pub pc: u32,
    pub r: Seq<u32>,
    pub h: u32,
    pub flags: Flags,
    pub mem_size: u32,
    pub display_start: u32,
    pub progress: u32,
    pub current_tick: u32,
    pub mouse: u32,
    pub key_buf: Seq<u8>,
    pub key_cnt: u32,
    pub switches: u32,
    pub spi_selected: u32,
    pub fb_width: i32,
    pub fb_height: i32,
    pub damage: Damage,
    pub ram: Seq<u32>,
    pub rom: Seq<u32>,
    pub attached: Attached,
    pub io: Seq<IoEvent>,
}

/// A damage rectangle inside a `w` x `h` word grid, or the empty rectangle
/// (`x1 = w, x2 = 0, y1 = h, y2 = 0`); anything goes on a screen of no lines.
pub open spec fn damage_ok(d: Damage, w: int, h: int) -> bool {
    ||| (0 <= d.x1 <= d.x2 < w && 0 <= d.y1 <= d.y2 < h)
    ||| (d.x1 == w && d.x2 == 0 && d.y1 == h && d.y2 == 0)
    ||| h == 0
}

/// Largest RAM (plus framebuffer) size the machine supports.
pub const MAX_MEM_SIZE: u32 = 0x4000_0000;

impl MachineState {
    /// The structural invariant every reachable machine state satisfies.
    pub open spec fn wf(self) -> bool {
        &&& self.r.len() == 16
        &&& self.key_buf.len() == 16
        &&& self.key_cnt <= 16
        &&& self.rom.len() == ROM_WORDS
        &&& self.mem_size % 4 == 0
        &&& self.mem_size <= MAX_MEM_SIZE
        &&& self.ram.len() == self.mem_size / 4
        &&& self.display_start % 4 == 0
        &&& self.display_start <= self.mem_size
        &&& self.spi_selected < 4
        &&& self.fb_width >= 1
        &&& self.fb_height >= 0
        &&& damage_ok(self.damage, self.fb_width as int, self.fb_height as int)
        &&& (self.mem_size - self.display_start) / 4 >= self.fb_width * self.fb_height
    }

    /// The same state with the I/O log extended by `e`.
    pub open spec fn log(self, e: IoEvent) -> MachineState {
        MachineState { io: self.io.push(e), ..self }
    }
}

// ---------------------------------------------------------------------------
// The instruction set, as a state transformer
// ---------------------------------------------------------------------------

/// The two's-complement value of a word.
pub open spec fn signed(x: u32) -> int {
    if x < 0x8000_0000 { x as int } else { x as int - 0x1_0000_0000 }
}

/// An integer reduced modulo 2^32.
pub open spec fn wrap32(i: int) -> u32 {
    (i % 0x1_0000_0000) as u32
}

pub open spec fn add32(a: u32, b: u32) -> u32 {
    vstd::wrapping::u32_specs::wrapping_add(a, b)
}

pub open spec fn sub32(a: u32, b: u32) -> u32 {
    vstd::wrapping::u32_specs::wrapping_sub(a, b)
}

/// Rotate right by `n` (in `0..32`) places.
pub open spec fn rotr(x: u32, n: u32) -> u32 {
    if n == 0 { x } else { (x >> n) | (x << ((32 - n) as u32)) }
}

/// The word `MOV` reads for the flags: N, Z, C, V in the top nibble over the hardware byte `0x53`.
pub open spec fn flags_word(f: Flags) -> u32 {
    (0x53 + (if f.n { 0x8000_0000u32 as int } else { 0 }) + (if f.z { 0x4000_0000int } else { 0 })
        + (if f.c { 0x2000_0000int } else { 0 }) + (if f.v { 0x1000_0000int } else { 0 })) as u32
}

/// Register field `a` (bits 27..24).
pub open spec fn field_a(ir: u32) -> u32 {
    (ir & 0x0F00_0000) >> 24
}

/// Register field `b` (bits 23..20).
pub open spec fn field_b(ir: u32) -> u32 {
    (ir & 0x00F0_0000) >> 20
}

/// Register field `c` (bits 3..0).
pub open spec fn field_c(ir: u32) -> u32 {
    ir & 0x0000_000F
}

/// The sign-extended 20-bit memory offset.
pub open spec fn mem_offset(ir: u32) -> u32 {
    sub32((ir & 0x000F_FFFF) ^ 0x0008_0000, 0x0008_0000)
}

/// The sign-extended 24-bit branch displacement (in words).
pub open spec fn branch_offset(ir: u32) -> u32 {
    sub32((ir & 0x00FF_FFFF) ^ 0x0080_0000, 0x0080_0000)
}

/// The second ALU operand: register `c`, or the 16-bit immediate, zero- or
/// one-extended by the `v` bit.
pub open spec fn operand_c(s: MachineState, ir: u32) -> u32 {
    if ir & QBIT == 0 {
        s.r[field_c(ir) as int]
    } else if ir & VBIT == 0 {
        ir & 0x0000_FFFF
    } else {
        0xFFFF_0000 | (ir & 0x0000_FFFF)
    }
}

/// The 64-bit product of `MUL` (signed unless `u`), as (low word, high word).
pub open spec fn mul_words(b: u32, c: u32, unsigned: bool) -> (u32, u32) {
    let p: int = if unsigned { b as int * c as int } else { signed(b) * signed(c) };
    let w: int = p % 0x1_0000_0000_0000_0000;
    ((w % 0x1_0000_0000) as u32, (w / 0x1_0000_0000) as u32)
}

/// The quotient and remainder of `DIV`: for a positive divisor, floored signed
/// (or unsigned with `u`) division with the remainder in `0..c`; otherwise the
/// `Divider` unit's result.
pub open spec fn div_words(b: u32, c: u32, unsigned: bool) -> (u32, u32) {
    if signed(c) > 0 {
        if !unsigned {
            (wrap32(signed(b) / (c as int)), (signed(b) % (c as int)) as u32)
        } else {
            (b / c, b % c)
        }
    } else {
        let d = idiv_spec(b, c, unsigned);
        (d.quot, d.rem)
    }
}

/// The ALU: (result, new H, new flags) of a register instruction `ir` on
/// operands `b` and `c`. Only `ADD`/`SUB` touch C and V; only `MUL`/`DIV` set H.
pub open spec fn alu(ir: u32, b: u32, c: u32, h: u32, f: Flags) -> (u32, u32, Flags) {
    let u = ir & UBIT != 0;
    let v = ir & VBIT != 0;
    let carry: u32 = if f.c { 1 } else { 0 };
    match decode_op((ir & 0x000F_0000) >> 16) {
        Op::Mov => (
            if !u { c } else if ir & QBIT != 0 { c << 16 } else if v { flags_word(f) } else { h },
            h,
            f,
        ),
        Op::Lsl => (b << (c & 31), h, f),
        Op::Asr => (((b as i32) >> (c & 31)) as u32, h, f),
        Op::Ror => (rotr(b, c & 31), h, f),
        Op::And => (b & c, h, f),
        Op::Ann => (b & !c, h, f),
        Op::Ior => (b | c, h, f),
        Op::Xor => (b ^ c, h, f),
        Op::Add => {
            let a = if u { add32(add32(b, c), carry) } else { add32(b, c) };
            (a, h, Flags { c: a < b, v: ((a ^ c) & (a ^ b)) >> 31 != 0, ..f })
        },
        Op::Sub => {
            let a = if u { sub32(sub32(b, c), carry) } else { sub32(b, c) };
            (a, h, Flags { c: a > b, v: ((b ^ c) & (a ^ b)) >> 31 != 0, ..f })
        },
        Op::Mul => {
            let (lo, hi) = mul_words(b, c, u);
            (lo, hi, f)
        },
        Op::Div => {
            let (q, r) = div_words(b, c, u);
            (q, r, f)
        },
        Op::Fad => (fp_add_spec(b, c, u, v), h, f),
        Op::Fsb => (fp_add_spec(b, c ^ 0x8000_0000, u, v), h, f),
        Op::Fml => (fp_mul_spec(b, c), h, f),
        Op::Fdv => (fp_div_spec(b, c), h, f),
    }
}

/// Write register `a` and set Z and N from the value written.
pub open spec fn set_register(s: MachineState, a: u32, value: u32) -> MachineState {
    MachineState {
        r: s.r.update(a as int, value),
        flags: Flags { z: value == 0, n: value >= 0x8000_0000, ..s.flags },
        ..s
    }
}

/// A register instruction.
pub open spec fn exec_register(s: MachineState, ir: u32) -> MachineState {
    let (value, h, flags) = alu(ir, s.r[field_b(ir) as int], operand_c(s, ir), s.h, s.flags);
    set_register(MachineState { h, flags, ..s }, field_a(ir), value)
}

/// Widen the damage rectangle to cover framebuffer word `w` (if on screen).
pub open spec fn widen_damage(s: MachineState, w: int) -> Damage {
    let row = w / (s.fb_width as int);
    let col = w % (s.fb_width as int);
    let d = s.damage;
    if row < s.fb_height {
        Damage {
            x1: if col < d.x1 { col as i32 } else { d.x1 },
            x2: if col > d.x2 { col as i32 } else { d.x2 },
            y1: if row < d.y1 { row as i32 } else { d.y1 },
            y2: if row > d.y2 { row as i32 } else { d.y2 },
        }
    } else {
        d
    }
}

/// The device attached as SPI slave `sel`, if any.
pub open spec fn spi_attached(s: MachineState, sel: u32) -> bool {
    (sel == 1 && s.attached.spi1) || (sel == 2 && s.attached.spi2)
}

/// Read the I/O register at `address`: the new state and the value read. `dev`
/// is the value the addressed device hands back, when one is attached there.
pub open spec fn load_io(s: MachineState, address: u32, dev: u32) -> (MachineState, u32) {
    let off = sub32(address, IO_START);
    if off == 0 {
        (MachineState { progress: sub32(s.progress, 1), ..s }, s.current_tick)
    } else if off == 4 {
        (s, s.switches)
    } else if off == 8 {
        if s.attached.serial { (s.log(IoEvent::SerialData(dev)), dev) } else { (s, 0) }
    } else if off == 12 {
        if s.attached.serial { (s.log(IoEvent::SerialStatus(dev)), dev) } else { (s, 0) }
    } else if off == 16 {
        if spi_attached(s, s.spi_selected) {
            (s.log(IoEvent::SpiRead(s.spi_selected, dev)), dev)
        } else {
            (s, 255)
        }
    } else if off == 20 {
        (s, 1)
    } else if off == 24 {
        if s.key_cnt > 0 {
            (s, s.mouse | 0x1000_0000)
        } else {
            (MachineState { progress: sub32(s.progress, 1), ..s }, s.mouse)
        }
    } else if off == 28 {
        if s.key_cnt > 0 {
            let k = (s.key_cnt - 1) as u32;
            (
                MachineState {
                    key_buf: Seq::new(16, |i: int| if i < k { s.key_buf[i + 1] } else { s.key_buf[i] }),
                    key_cnt: k,
                    ..s
                },
                s.key_buf[0] as u32,
            )
        } else {
            (s, 0)
        }
    } else if off == 40 {
        if s.attached.clipboard { (s.log(IoEvent::ClipboardControl(dev)), dev) } else { (s, 0) }
    } else if off == 44 {
        if s.attached.clipboard { (s.log(IoEvent::ClipboardData(dev)), dev) } else { (s, 0) }
    } else {
        (s, 0)
    }
}

/// Write `value` to the I/O register at `address`.
pub open spec fn store_io(s: MachineState, address: u32, value: u32) -> MachineState {
    let off = sub32(address, IO_START);
    if off == 4 {
        if s.attached.leds { s.log(IoEvent::Leds(value)) } else { s }
    } else if off == 8 {
        if s.attached.serial { s.log(IoEvent::SerialWrite(value)) } else { s }
    } else if off == 16 {
        if spi_attached(s, s.spi_selected) { s.log(IoEvent::SpiWrite(s.spi_selected, value)) } else { s }
    } else if off == 20 {
        MachineState { spi_selected: value & 3, ..s }
    } else if off == 40 {
        if s.attached.clipboard { s.log(IoEvent::ClipboardSetControl(value)) } else { s }
    } else if off == 44 {
        if s.attached.clipboard { s.log(IoEvent::ClipboardSetData(value)) } else { s }
    } else {
        s
    }
}

/// Load the word at byte address `address` (RAM below `mem_size`, else I/O).
pub open spec fn load_word(s: MachineState, address: u32, dev: u32) -> (MachineState, u32) {
    if address < s.mem_size {
        (s, s.ram[(address / 4) as int])
    } else {
        load_io(s, address, dev)
    }
}

/// Byte `k` (0 = least significant) of a word.
pub open spec fn byte_of(w: u32, k: u32) -> u8 {
    ((w >> (k * 8)) & 0xFF) as u8
}

/// Load the byte at `address` (little-endian within its word).
pub open spec fn load_byte(s: MachineState, address: u32, dev: u32) -> (MachineState, u8) {
    let (s1, w) = load_word(s, address, dev);
    (s1, byte_of(w, address % 4))
}

/// Store a word at `address`: RAM (marking framebuffer damage when it lands in
/// the display region) or an I/O register.
pub open spec fn store_word(s: MachineState, address: u32, value: u32) -> MachineState {
    if address < s.display_start {
        MachineState { ram: s.ram.update((address / 4) as int, value), ..s }
    } else if address < s.mem_size {
        MachineState {
            ram: s.ram.update((address / 4) as int, value),
            damage: widen_damage(s, (address / 4) - (s.display_start / 4)),
            ..s
        }
    } else {
        store_io(s, address, value)
    }
}

/// `w` with byte `k` replaced by `b`.
pub open spec fn replace_byte(w: u32, k: u32, b: u8) -> u32 {
    (w & !(0xFFu32 << (k * 8))) | ((b as u32) << (k * 8))
}

/// Store a byte at `address`: read-modify-write of its RAM word, or an I/O write.
pub open spec fn store_byte(s: MachineState, address: u32, value: u8) -> MachineState {
    if address < s.mem_size {
        store_word(s, address, replace_byte(s.ram[(address / 4) as int], address % 4, value))
    } else {
        store_io(s, address, value as u32)
    }
}

/// A memory instruction: load or store, word or byte, at `R[b] + offset`.
pub open spec fn exec_memory(s: MachineState, ir: u32, dev: u32) -> MachineState {
    let a = field_a(ir);
    let address = add32(s.r[field_b(ir) as int], mem_offset(ir));
    if ir & UBIT == 0 {
        if ir & VBIT == 0 {
            let (s1, v) = load_word(s, address, dev);
            set_register(s1, a, v)
        } else {
            let (s1, v) = load_byte(s, address, dev);
            set_register(s1, a, v as u32)
        }
    } else if ir & VBIT == 0 {
        store_word(s, address, s.r[a as int])
    } else {
        store_byte(s, address, (s.r[a as int] & 0xFF) as u8)
    }
}

/// A branch instruction: if the (possibly negated) condition holds, optionally
/// link (R15 = return byte address), then jump to a register's byte address or
/// by a word displacement.
pub open spec fn exec_branch(s: MachineState, ir: u32) -> MachineState {
    let negate = (ir >> 27) & 1 != 0;
    let taken = negate != cond_holds(decode_cond((ir >> 24) & 7), s.flags);
    if !taken {
        s
    } else {
        let s1 = if ir & VBIT != 0 {
            set_register(s, 15, vstd::wrapping::u32_specs::wrapping_mul(s.pc, 4))
        } else {
            s
        };
        let pc = if ir & UBIT == 0 {
            s1.r[field_c(ir) as int] / 4
        } else {
            add32(s1.pc, branch_offset(ir))
        };
        MachineState { pc, ..s1 }
    }
}

/// Execute instruction `ir` (the program counter already advanced).
pub open spec fn exec_instr(s: MachineState, ir: u32, dev: u32) -> MachineState {
    if ir & PBIT == 0 {
        exec_register(s, ir)
    } else if ir & QBIT == 0 {
        exec_memory(s, ir, dev)
    } else {
        exec_branch(s, ir)
    }
}

/// The instruction at the program counter: RAM below `mem_size`, then the boot
/// ROM; anywhere else is "the void".
pub open spec fn fetch(s: MachineState) -> Option<u32> {
    if (s.pc as int) < (s.mem_size / 4) as int {
        Some(s.ram[s.pc as int])
    } else if reset_pc() <= s.pc < reset_pc() + ROM_WORDS {
        Some(s.rom[s.pc - reset_pc()])
    } else {
        None
    }
}

/// One instruction: fetch, advance the program counter, execute. A fetch from
/// the void resets the machine. `dev` is the value a device hands back if the
/// instruction reads a device register.
pub open spec fn step(s: MachineState, dev: u32) -> MachineState {
    match fetch(s) {
        Some(ir) => exec_instr(MachineState { pc: (s.pc + 1) as u32, ..s }, ir, dev),
        None => MachineState { pc: reset_pc(), ..s },
    }
}

/// Up to `n` instructions, stopping early once `progress` has run down to zero;
/// instruction `i` is handed the device value `devs[i]`.
pub open spec fn run_steps(s: MachineState, devs: Seq<u32>, n: nat) -> MachineState
    decreases n,
{
    if n == 0 {
        s
    } else {
        let p = run_steps(s, devs, (n - 1) as nat);
        if p.progress == 0 {
            p
        } else {
            step(p, devs[n - 1])
        }
    }
}

/// Device values past the first `n` do not matter to `n` instructions.
proof fn lemma_run_steps_push(s: MachineState, devs: Seq<u32>, n: nat, x: u32)
    requires
        devs.len() >= n,
    ensures
        run_steps(s, devs.push(x), n) == run_steps(s, devs, n),
    decreases n,
{
    if n > 0 {
        lemma_run_steps_push(s, devs, (n - 1) as nat, x);
        assert(devs.push(x)[n - 1] == devs[n - 1]);
    }
}

/// Once `progress` is zero the machine stays put.
proof fn lemma_run_steps_stalled(s: MachineState, devs: Seq<u32>, n: nat, m: nat)
    requires
        n <= m,
        run_steps(s, devs, n).progress == 0,
    ensures
        run_steps(s, devs, m) == run_steps(s, devs, n),
    decreases m,
{
    if n < m {
        lemma_run_steps_stalled(s, devs, n, (m - 1) as nat);
    }
}

// ---------------------------------------------------------------------------
// The machine
// ---------------------------------------------------------------------------

/// The RISC5 machine: CPU registers, RAM/ROM, and attached devices.
pub struct Risc {
    pc: u32,
    r: [u32; 16],
    h: u32,
    flags: Flags,
    mem_size: u32,
    display_start: u32,
    progress: u32,
    current_tick: u32,
    mouse: u32,
    key_buf: [u8; 16],
    key_cnt: u32,
    switches: u32,
    leds: Option<Box<dyn Led>>,
    serial: Option<Box<dyn Serial>>,
    spi_selected: u32,
    spi1: Option<Box<dyn Spi>>,
    spi2: Option<Box<dyn Spi>>,
    clipboard: Option<Box<dyn Clipboard>>,
    fb_width: i32,
    fb_height: i32,
    damage: Damage,
    ram: Vec<u32>,
    rom: Vec<u32>,
    io_log: Ghost<Seq<IoEvent>>,
}

impl View for Risc {
    type V = MachineState;

    closed spec fn view(&self) -> MachineState {
        MachineState {
            pc: self.pc,
            r: self.r@,
            h: self.h,
            flags: self.flags,
            mem_size: self.mem_size,
            display_start: self.display_start,
            progress: self.progress,
            current_tick: self.current_tick,
            mouse: self.mouse,
            key_buf: self.key_buf@,
            key_cnt: self.key_cnt,
            switches: self.switches,
            spi_selected: self.spi_selected,
            fb_width: self.fb_width,
            fb_height: self.fb_height,
            damage: self.damage,
            ram: self.ram@,
            rom: self.rom@,
            attached: Attached {
                leds: self.leds is Some,
                serial: self.serial is Some,
                spi1: self.spi1 is Some,
                spi2: self.spi2 is Some,
                clipboard: self.clipboard is Some,
            },
            io: self.io_log@,
        }
    }
}

impl Risc {
    /// The machine is well formed (see [`MachineState::wf`]).
    pub open spec fn wf(&self) -> bool {
        self@.wf()
    }

    fn set_register(&mut self, reg: u32, value: u32)
        requires
            reg < 16,
        ensures
            final(self)@ == set_register(old(self)@, reg, value),
    {
        self.r[reg as usize] = value;
        self.flags.z = value == 0;
        self.flags.n = value >= 0x8000_0000;
    }
}

/// The word `MOV` reads for the flags.
fn flags_word_exec(f: Flags) -> (w: u32)
    ensures
        w == flags_word(f),
{
    0x53u32 + (if f.n { 0x8000_0000u32 } else { 0 }) + (if f.z { 0x4000_0000u32 } else { 0 }) + (
    if f.c {
        0x2000_0000u32
    } else {
        0
    }) + (if f.v { 0x1000_0000u32 } else { 0 })
}

/// `x mod 2^32` for `x` in `[-2^32, 0)`.
proof fn lemma_wrap32_negative(x: int)
    requires
        -0x1_0000_0000 <= x < 0,
    ensures
        wrap32(x) == x + 0x1_0000_0000,
{
    vstd::arithmetic::div_mod::lemma_fundamental_div_mod_converse(
        x,
        0x1_0000_0000,
        -1,
        x + 0x1_0000_0000,
    );
}

/// The `MUL` datapath on 64-bit unsigned words.
fn multiply(b: u32, c: u32, unsigned: bool) -> (res: (u32, u32))
    ensures
        res == mul_words(b, c, unsigned),
{
    let p: u64;
    if unsigned {
        assert((b as int) * (c as int) <= 0xFFFF_FFFF * 0xFFFF_FFFF) by (nonlinear_arith)
            requires b <= 0xFFFF_FFFF, c <= 0xFFFF_FFFF;
        p = (b as u64) * (c as u64);
        assert(p as int % 0x1_0000_0000_0000_0000 == p);
    } else {
        let bn = b >= 0x8000_0000;
        let cn = c >= 0x8000_0000;
        let bm: u64 = if bn { (0u32.wrapping_sub(b)) as u64 } else { b as u64 };
        let cm: u64 = if cn { (0u32.wrapping_sub(c)) as u64 } else { c as u64 };
        assert(bm <= 0x8000_0000 && cm <= 0x8000_0000);
        assert((bm as int) * (cm as int) <= 0x8000_0000 * 0x8000_0000) by (nonlinear_arith)
            requires bm <= 0x8000_0000, cm <= 0x8000_0000, bm >= 0, cm >= 0;
        let pm = bm * cm;
        p = if bn != cn { 0u64.wrapping_sub(pm) } else { pm };
        proof {
            let sb = signed(b);
            let sc = signed(c);
            assert(sb == if bn { -(bm as int) } else { bm as int });
            assert(sc == if cn { -(cm as int) } else { cm as int });
            if bn != cn {
                assert(sb * sc == -(pm as int)) by (nonlinear_arith)
                    requires
                        sb == (if bn { -(bm as int) } else { bm as int }),
                        sc == (if cn { -(cm as int) } else { cm as int }),
                        bn != cn,
                        pm == bm * cm;
                if pm == 0 {
                    assert(p == 0);
                } else {
                    vstd::arithmetic::div_mod::lemma_fundamental_div_mod_converse(
                        -(pm as int),
                        0x1_0000_0000_0000_0000,
                        -1,
                        0x1_0000_0000_0000_0000 - pm,
                    );
                }
            } else {
                assert(sb * sc == pm as int) by (nonlinear_arith)
                    requires
                        sb == (if bn { -(bm as int) } else { bm as int }),
                        sc == (if cn { -(cm as int) } else { cm as int }),
                        bn == cn,
                        pm == bm * cm;
            }
            assert(p as int == (sb * sc) % 0x1_0000_0000_0000_0000);
        }
    }
    let lo = (p & 0xFFFF_FFFF) as u32;
    let hi = (p >> 32u64) as u32;
    assert(p & 0xFFFF_FFFF == p % 0x1_0000_0000 && p >> 32 == p / 0x1_0000_0000) by (bit_vector);
    (lo, hi)
}

/// The `DIV` datapath: floored division for a positive divisor, else the
/// `Divider` unit.
fn divide(b: u32, c: u32, unsigned: bool) -> (res: (u32, u32))
    ensures
        res == div_words(b, c, unsigned),
{
    if c < 0x8000_0000 && c != 0 {
        if unsigned {
            (b / c, b % c)
        } else if b < 0x8000_0000 {
            (b / c, b % c)
        } else {
            let mag = 0u32.wrapping_sub(b);
            let q0 = mag / c;
            let r0 = mag % c;
            proof {
                assert(signed(b) == -(mag as int));
                vstd::arithmetic::div_mod::lemma_fundamental_div_mod(mag as int, c as int);
                assert(q0 <= mag) by (nonlinear_arith)
                    requires q0 == mag / c, c >= 1, mag >= 0;
            }
            assert(mag as int == (q0 as int) * (c as int) + r0) by (nonlinear_arith)
                requires mag as int == (c as int) * (q0 as int) + r0;
            assert(-(mag as int) == (-(q0 as int)) * (c as int) + 0 - r0) by (nonlinear_arith)
                requires mag as int == (q0 as int) * (c as int) + r0;
            assert(-(mag as int) == (-(q0 as int) - 1) * (c as int) + (c - r0)) by (nonlinear_arith)
                requires mag as int == (q0 as int) * (c as int) + r0;
            if r0 == 0 {
                proof {
                    vstd::arithmetic::div_mod::lemma_fundamental_div_mod_converse(
                        -(mag as int),
                        c as int,
                        -(q0 as int),
                        0,
                    );
                    if q0 > 0 {
                        lemma_wrap32_negative(-(q0 as int));
                    }
                }
                (0u32.wrapping_sub(q0), 0)
            } else {
                proof {
                    vstd::arithmetic::div_mod::lemma_fundamental_div_mod_converse(
                        -(mag as int),
                        c as int,
                        -(q0 as int) - 1,
                        c - r0,
                    );
                    lemma_wrap32_negative(-(q0 as int) - 1);
                }
                (0u32.wrapping_sub(q0 + 1), c - r0)
            }
        }
    } else {
        let d = idiv(b, c, unsigned);
        (d.quot, d.rem)
    }
}

/// The ALU of a register instruction (see [`alu`]).
fn alu_exec(ir: u32, b: u32, c: u32, h: u32, f: Flags) -> (res: (u32, u32, Flags))
    ensures
        res == alu(ir, b, c, h, f),
{
    let u = ir & UBIT != 0;
    let v = ir & VBIT != 0;
    let carry: u32 = if f.c { 1 } else { 0 };
    let sh = c & 31;
    assert(sh < 32) by (bit_vector)
        requires sh == c & 31;
    match Op::from_u4((ir & 0x000F_0000) >> 16u32) {
        Op::Mov => {
            let a = if !u {
                c
            } else if ir & QBIT != 0 {
                c << 16u32
            } else if v {
                flags_word_exec(f)
            } else {
                h
            };
            (a, h, f)
        },
        Op::Lsl => (b << sh, h, f),
        Op::Asr => (((b as i32) >> sh) as u32, h, f),
        Op::Ror => {
            let a = if sh == 0 { b } else { (b >> sh) | (b << (32 - sh)) };
            (a, h, f)
        },
        Op::And => (b & c, h, f),
        Op::Ann => (b & !c, h, f),
        Op::Ior => (b | c, h, f),
        Op::Xor => (b ^ c, h, f),
        Op::Add => {
            let mut a = b.wrapping_add(c);
            if u {
                a = a.wrapping_add(carry);
            }
            (a, h, Flags { c: a < b, v: ((a ^ c) & (a ^ b)) >> 31u32 != 0, ..f })
        },
        Op::Sub => {
            let mut a = b.wrapping_sub(c);
            if u {
                a = a.wrapping_sub(carry);
            }
            (a, h, Flags { c: a > b, v: ((b ^ c) & (a ^ b)) >> 31u32 != 0, ..f })
        },
        Op::Mul => {
            let (lo, hi) = multiply(b, c, u);
            (lo, hi, f)
        },
        Op::Div => {
            let (q, r) = divide(b, c, u);
            (q, r, f)
        },
        Op::Fad => (fp_add(b, c, u, v), h, f),
        Op::Fsb => (fp_add(b, c ^ 0x8000_0000, u, v), h, f),
        Op::Fml => (fp_mul(b, c), h, f),
        Op::Fdv => (fp_div(b, c), h, f),
    }
}



impl Risc {
    /// Execute a register instruction (the program counter already advanced).
    fn exec_register_op(&mut self, ir: u32)
        requires
            old(self).wf(),
        ensures
            final(self).wf(),
            final(self)@ == exec_register(old(self)@, ir),
    {
        let a = (ir & 0x0F00_0000) >> 24u32;
        let b = (ir & 0x00F0_0000) >> 20u32;
        let c = ir & 0x0000_000F;
        assert(a < 16 && b < 16 && c < 16) by (bit_vector)
            requires a == (ir & 0x0F00_0000) >> 24u32, b == (ir & 0x00F0_0000) >> 20u32, c == ir & 0x0000_000F;
        let im = ir & 0x0000_FFFF;
        let b_val = self.r[b as usize];
        let c_val = if ir & QBIT == 0 {
            self.r[c as usize]
        } else if ir & VBIT == 0 {
            im
        } else {
            0xFFFF_0000 | im
        };
        let (a_val, h, flags) = alu_exec(ir, b_val, c_val, self.h, self.flags);
        self.h = h;
        self.flags = flags;
        self.set_register(a, a_val);
    }

    /// Widen the damage rectangle to cover framebuffer word `w`.
    fn update_damage(&mut self, w: u32)
        requires
            old(self).wf(),
            w < 0x1000_0000,
        ensures
            final(self)@ == (MachineState { damage: widen_damage(old(self)@, w as int), ..old(self)@ }),
    {
        let fbw = self.fb_width as u32;
        let row = (w / fbw) as i32;
        let col = (w % fbw) as i32;
        if row < self.fb_height {
            if col < self.damage.x1 {
                self.damage.x1 = col;
            }
            if col > self.damage.x2 {
                self.damage.x2 = col;
            }
            if row < self.damage.y1 {
                self.damage.y1 = row;
            }
            if row > self.damage.y2 {
                self.damage.y2 = row;
            }
        }
    }

    /// Read an I/O register: the millisecond clock, switches, serial, SPI, mouse
    /// and keyboard, and the clipboard bridge.
    pub fn load_io(&mut self, address: u32) -> (v: u32)
        requires
            old(self).wf(),
        ensures
            final(self).wf(),
            load_io(old(self)@, address, v) == (final(self)@, v),
    {
        let off = address.wrapping_sub(IO_START);
        if off == 0 {
            self.progress = self.progress.wrapping_sub(1);
            self.current_tick
        } else if off == 4 {
            self.switches
        } else if off == 8 {
            if let Some(s) = self.serial.as_mut() {
                let v = s.read_data();
                self.io_log = Ghost(self.io_log@.push(IoEvent::SerialData(v)));
                v
            } else {
                0
            }
        } else if off == 12 {
            if let Some(s) = self.serial.as_mut() {
                let v = s.read_status();
                self.io_log = Ghost(self.io_log@.push(IoEvent::SerialStatus(v)));
                v
            } else {
                0
            }
        } else if off == 16 {
            let sel = self.spi_selected;
            let dev = if sel == 1 {
                &mut self.spi1
            } else if sel == 2 {
                &mut self.spi2
            } else {
                return 255;
            };
            if let Some(s) = dev.as_mut() {
                let v = s.read_data();
                self.io_log = Ghost(self.io_log@.push(IoEvent::SpiRead(sel, v)));
                v
            } else {
                255
            }
        } else if off == 20 {
            1
        } else if off == 24 {
            let mut mouse = self.mouse;
            if self.key_cnt > 0 {
                mouse = mouse | 0x1000_0000;
            } else {
                self.progress = self.progress.wrapping_sub(1);
            }
            mouse
        } else if off == 28 {
            if self.key_cnt > 0 {
                let scancode = self.key_buf[0];
                self.key_cnt = self.key_cnt - 1;
                let k = self.key_cnt as usize;
                let mut buf = self.key_buf;
                let ghost old_buf = buf@;
                let mut i: usize = 0;
                while i < k
                    invariant
                        k < 16,
                        i <= k,
                        old_buf.len() == 16,
                        buf@ == Seq::new(16, |j: int| if j < i { old_buf[j + 1] } else { old_buf[j] }),
                    decreases k - i,
                {
                    buf[i] = buf[i + 1];
                    i = i + 1;
                }
                self.key_buf = buf;
                scancode as u32
            } else {
                0
            }
        } else if off == 40 {
            if let Some(c) = self.clipboard.as_mut() {
                let v = c.read_control();
                self.io_log = Ghost(self.io_log@.push(IoEvent::ClipboardControl(v)));
                v
            } else {
                0
            }
        } else if off == 44 {
            if let Some(c) = self.clipboard.as_mut() {
                let v = c.read_data();
                self.io_log = Ghost(self.io_log@.push(IoEvent::ClipboardData(v)));
                v
            } else {
                0
            }
        } else {
            0
        }
    }

    /// Write an I/O register: LEDs, serial, SPI data and slave select, and the
    /// clipboard bridge.
    pub fn store_io(&mut self, address: u32, value: u32)
        requires
            old(self).wf(),
        ensures
            final(self).wf(),
            final(self)@ == store_io(old(self)@, address, value),
    {
        let off = address.wrapping_sub(IO_START);
        if off == 4 {
            if let Some(l) = self.leds.as_mut() {
                l.write(value);
                self.io_log = Ghost(self.io_log@.push(IoEvent::Leds(value)));
            }
        } else if off == 8 {
            if let Some(s) = self.serial.as_mut() {
                s.write_data(value);
                self.io_log = Ghost(self.io_log@.push(IoEvent::SerialWrite(value)));
            }
        } else if off == 16 {
            let sel = self.spi_selected;
            if sel == 1 {
                if let Some(s) = self.spi1.as_mut() {
                    s.write_data(value);
                    self.io_log = Ghost(self.io_log@.push(IoEvent::SpiWrite(sel, value)));
                }
            } else if sel == 2 {
                if let Some(s) = self.spi2.as_mut() {
                    s.write_data(value);
                    self.io_log = Ghost(self.io_log@.push(IoEvent::SpiWrite(sel, value)));
                }
            }
        } else if off == 20 {
            self.spi_selected = value & 3;
            assert(value & 3 < 4) by (bit_vector);
        } else if off == 40 {
            if let Some(c) = self.clipboard.as_mut() {
                c.write_control(value);
                self.io_log = Ghost(self.io_log@.push(IoEvent::ClipboardSetControl(value)));
            }
        } else if off == 44 {
            if let Some(c) = self.clipboard.as_mut() {
                c.write_data(value);
                self.io_log = Ghost(self.io_log@.push(IoEvent::ClipboardSetData(value)));
            }
        }
    }
}


impl Risc {
    /// Load a word (RAM below `mem_size`, else I/O), also yielding the device
    /// value the specification is instantiated with.
    fn load_word_dev(&mut self, addr: ByteAddr) -> (res: (u32, Ghost<u32>))
        requires
            old(self).wf(),
        ensures
            final(self).wf(),
            load_word(old(self)@, addr.0, res.1@) == (final(self)@, res.0),
    {
        if addr.0 < self.mem_size {
            let v = self.ram[addr.word().index()];
            (v, Ghost(v))
        } else {
            let v = self.load_io(addr.0);
            (v, Ghost(v))
        }
    }

    /// Load the word at `addr`: RAM below `mem_size`, otherwise an I/O register.
    pub fn load_word(&mut self, addr: ByteAddr) -> (v: u32)
        requires
            old(self).wf(),
        ensures
            final(self).wf(),
            exists|dev: u32| load_word(old(self)@, addr.0, dev) == (final(self)@, v),
    {
        let (v, dev) = self.load_word_dev(addr);
        v
    }

    fn load_byte_dev(&mut self, addr: ByteAddr) -> (res: (u8, Ghost<u32>))
        requires
            old(self).wf(),
        ensures
            final(self).wf(),
            load_byte(old(self)@, addr.0, res.1@) == (final(self)@, res.0),
    {
        let (w, dev) = self.load_word_dev(addr);
        let k = addr.byte_in_word();
        assert(k * 8 < 32);
        (((w >> (k * 8)) & 0xFF) as u8, dev)
    }

    /// Load the byte at `addr` (little-endian within its word).
    pub fn load_byte(&mut self, addr: ByteAddr) -> (b: u8)
        requires
            old(self).wf(),
        ensures
            final(self).wf(),
            exists|dev: u32| load_byte(old(self)@, addr.0, dev) == (final(self)@, b),
    {
        let (b, dev) = self.load_byte_dev(addr);
        b
    }

    /// Store a word at `addr`: RAM (marking framebuffer damage in the display
    /// region) or an I/O register.
    pub fn store_word(&mut self, addr: ByteAddr, value: u32)
        requires
            old(self).wf(),
        ensures
            final(self).wf(),
            final(self)@ == store_word(old(self)@, addr.0, value),
    {
        if addr.0 < self.display_start {
            self.ram.set(addr.word().index(), value);
        } else if addr.0 < self.mem_size {
            self.ram.set(addr.word().index(), value);
            let fb_word0 = ByteAddr(self.display_start).word();
            self.update_damage(addr.word().0 - fb_word0.0);
        } else {
            self.store_io(addr.0, value);
        }
    }

    /// Store a byte at `addr`: read-modify-write of its RAM word, or an I/O write.
    pub fn store_byte(&mut self, addr: ByteAddr, value: u8)
        requires
            old(self).wf(),
        ensures
            final(self).wf(),
            final(self)@ == store_byte(old(self)@, addr.0, value),
    {
        if addr.0 < self.mem_size {
            let (w0, dev) = self.load_word_dev(addr);
            let shift = addr.byte_in_word() * 8;
            let w = (w0 & !(0xFFu32 << shift)) | ((value as u32) << shift);
            self.store_word(addr, w);
        } else {
            self.store_io(addr.0, value as u32);
        }
    }

    /// Execute a memory instruction; yields the device value of a load.
    fn exec_memory_op(&mut self, ir: u32) -> (dev: Ghost<u32>)
        requires
            old(self).wf(),
        ensures
            final(self).wf(),
            final(self)@ == exec_memory(old(self)@, ir, dev@),
    {
        let a = (ir & 0x0F00_0000) >> 24u32;
        let b = (ir & 0x00F0_0000) >> 20u32;
        assert(a < 16 && b < 16) by (bit_vector)
            requires a == (ir & 0x0F00_0000) >> 24u32, b == (ir & 0x00F0_0000) >> 20u32;
        let off = ((ir & 0x000F_FFFF) ^ 0x0008_0000).wrapping_sub(0x0008_0000);
        let address = ByteAddr(self.r[b as usize].wrapping_add(off));
        if ir & UBIT == 0 {
            if ir & VBIT == 0 {
                let (v, dev) = self.load_word_dev(address);
                self.set_register(a, v);
                dev
            } else {
                let (v, dev) = self.load_byte_dev(address);
                self.set_register(a, v as u32);
                dev
            }
        } else if ir & VBIT == 0 {
            let v = self.r[a as usize];
            self.store_word(address, v);
            Ghost(0)
        } else {
            let v = (self.r[a as usize] & 0xFF) as u8;
            self.store_byte(address, v);
            Ghost(0)
        }
    }

    /// Execute a branch instruction (the program counter already advanced).
    fn exec_branch_op(&mut self, ir: u32)
        requires
            old(self).wf(),
        ensures
            final(self).wf(),
            final(self)@ == exec_branch(old(self)@, ir),
    {
        let negate = ((ir >> 27u32) & 1) != 0;
        let t = negate != Cond::from_u3((ir >> 24u32) & 7).holds(self.flags);
        if t {
            if ir & VBIT != 0 {
                // The link register holds the return point as a byte address.
                let link = WordAddr(self.pc).byte().0;
                self.set_register(15, link);
            }
            if ir & UBIT == 0 {
                // Register-indirect: the register holds a byte address.
                let c = ir & 0x0000_000F;
                assert(c < 16) by (bit_vector)
                    requires c == ir & 0x0000_000F;
                self.pc = ByteAddr(self.r[c as usize]).word().0;
            } else {
                let off = ((ir & 0x00FF_FFFF) ^ 0x0080_0000).wrapping_sub(0x0080_0000);
                self.pc = self.pc.wrapping_add(off);
            }
        }
    }

    /// Execute one instruction; yields the device value it read, if any.
    fn single_step(&mut self) -> (dev: Ghost<u32>)
        requires
            old(self).wf(),
        ensures
            final(self).wf(),
            final(self)@ == step(old(self)@, dev@),
    {
        let ir: u32;
        if self.pc < self.mem_size / 4 {
            ir = self.ram[self.pc as usize];
        } else if self.pc >= ROM_START / 4 && self.pc < ROM_START / 4 + ROM_WORDS as u32 {
            ir = self.rom[(self.pc - ROM_START / 4) as usize];
        } else {
            // Branched into the void: reset.
            self.reset();
            return Ghost(0);
        }
        self.pc = self.pc + 1;
        if ir & PBIT == 0 {
            self.exec_register_op(ir);
            Ghost(0)
        } else if ir & QBIT == 0 {
            self.exec_memory_op(ir)
        } else {
            self.exec_branch_op(ir);
            Ghost(0)
        }
    }

    /// Reset: jump to the boot ROM.
    pub fn reset(&mut self)
        ensures
            final(self)@ == (MachineState { pc: reset_pc(), ..old(self)@ }),
    {
        self.pc = ROM_START / 4;
    }
}


// ---------------------------------------------------------------------------
// Construction and configuration
// ---------------------------------------------------------------------------

/// Word index in RAM of the display-layout block `configure_memory` writes.
pub open spec fn layout_word() -> int {
    (DEFAULT_DISPLAY_START / 4) as int
}

/// The default, FPGA-compatible machine with boot ROM `rom`, just reset.
pub open spec fn initial_state(rom: Seq<u32>) -> MachineState {
    MachineState {
        pc: reset_pc(),
        r: Seq::new(16, |i: int| 0u32),
        h: 0,
        flags: Flags { z: false, n: false, c: false, v: false },
        mem_size: DEFAULT_MEM_SIZE,
        display_start: DEFAULT_DISPLAY_START,
        progress: 0,
        current_tick: 0,
        mouse: 0,
        key_buf: Seq::new(16, |i: int| 0u8),
        key_cnt: 0,
        switches: 0,
        spi_selected: 0,
        fb_width: (FRAMEBUFFER_WIDTH / 32) as i32,
        fb_height: FRAMEBUFFER_HEIGHT as i32,
        damage: Damage {
            x1: 0,
            x2: (FRAMEBUFFER_WIDTH / 32 - 1) as i32,
            y1: 0,
            y2: (FRAMEBUFFER_HEIGHT - 1) as i32,
        },
        ram: Seq::new((DEFAULT_MEM_SIZE / 4) as nat, |i: int| 0u32),
        rom,
        attached: Attached { leds: false, serial: false, spi1: false, spi2: false, clipboard: false },
        io: Seq::empty(),
    }
}

/// Megabytes of RAM clamped to `1..=32`.
pub open spec fn clamp_megs(megabytes: i32) -> u32 {
    if megabytes < 1 {
        1
    } else if megabytes > 32 {
        32
    } else {
        megabytes as u32
    }
}

/// The boot ROM with the memory limit and stack origin of a machine whose
/// display starts at `display_start` patched in.
pub open spec fn patched_rom(rom: Seq<u32>, display_start: u32) -> Seq<u32> {
    let mem_lim = (display_start - 16) as u32;
    let stack_org = display_start / 2;
    rom.update(372, (0x6100_0000 + (mem_lim >> 16)) as u32).update(
        373,
        (0x4116_0000 + (mem_lim & 0x0000_FFFF)) as u32,
    ).update(376, (0x6100_0000 + (stack_org >> 16)) as u32)
}

/// The machine after `configure_memory(megabytes, width, height)`: fresh RAM of
/// `megabytes` (clamped) plus a `width` x `height` framebuffer, the layout
/// block for the display driver at the default display start, the whole
/// screen damaged, the boot ROM patched, and the CPU reset.
pub open spec fn configured(s: MachineState, megabytes: i32, width: i32, height: i32) -> MachineState {
    let display_start = clamp_megs(megabytes) * 0x10_0000;
    let mem_size = (display_start + width * height / 8) as u32;
    let fb_width = width / 32;
    MachineState {
        pc: reset_pc(),
        mem_size,
        display_start: display_start as u32,
        fb_width: fb_width as i32,
        fb_height: height,
        damage: Damage { x1: 0, x2: (fb_width - 1) as i32, y1: 0, y2: (height - 1) as i32 },
        ram: Seq::new(
            (mem_size / 4) as nat,
            |i: int|
                if i == layout_word() {
                    0x5369_7A67u32
                } else if i == layout_word() + 1 {
                    width as u32
                } else if i == layout_word() + 2 {
                    height as u32
                } else if i == layout_word() + 3 {
                    display_start as u32
                } else {
                    0u32
                },
        ),
        rom: patched_rom(s.rom, display_start as u32),
        ..s
    }
}

/// The mouse register after a move to (`x`, `y`); a coordinate outside
/// `0..4096` is ignored.
pub open spec fn moved_mouse(m: u32, x: i32, y: i32) -> u32 {
    let m1 = if 0 <= x < 4096 { (m & !0x0FFFu32) | (x as u32) } else { m };
    if 0 <= y < 4096 { (m1 & !0x00FF_F000u32) | ((y as u32) << 12) } else { m1 }
}

/// The mouse register after button `button` (1 left, 2 middle, 3 right) goes
/// down or up; other buttons are ignored.
pub open spec fn pressed_mouse(m: u32, button: i32, down: bool) -> u32 {
    if 1 <= button < 4 {
        let bit = 1u32 << ((27 - button) as u32);
        if down { m | bit } else { m & !bit }
    } else {
        m
    }
}

/// The scancodes waiting in the keyboard buffer, oldest first.
pub open spec fn pending_keys(s: MachineState) -> Seq<u8> {
    s.key_buf.subrange(0, s.key_cnt as int)
}

/// The keyboard buffer after enqueueing `codes`: appended if they all fit,
/// otherwise dropped.
pub open spec fn keyboard_input(s: MachineState, codes: Seq<u8>) -> MachineState {
    if codes.len() <= 16 - s.key_cnt {
        MachineState {
            key_buf: Seq::new(
                16,
                |i: int|
                    if s.key_cnt <= i < s.key_cnt + codes.len() {
                        codes[i - s.key_cnt]
                    } else {
                        s.key_buf[i]
                    },
            ),
            key_cnt: (s.key_cnt + codes.len()) as u32,
            ..s
        }
    } else {
        s
    }
}

/// The state a run begins from: `progress` set to its budget of 20 idle polls.
pub open spec fn frame_start(s: MachineState) -> MachineState {
    MachineState { progress: 20, ..s }
}

/// The damage rectangle that means "nothing damaged".
pub open spec fn empty_damage(s: MachineState) -> Damage {
    Damage { x1: s.fb_width, x2: 0, y1: s.fb_height, y2: 0 }
}

/// The state vector `[PC, R0..R15, H, flags]` of a machine state.
pub open spec fn state_vector(s: MachineState) -> Seq<u32> {
    seq![s.pc].add(s.r).add(seq![s.h, flag_bits(s.flags) as u32])
}

impl Risc {
    /// A machine in the default (FPGA-compatible) configuration with boot ROM
    /// `rom`, reset.
    pub fn with_boot_rom(rom: &[u32]) -> (m: Risc)
        requires
            rom.len() == ROM_WORDS,
        ensures
            m.wf(),
            m@ == initial_state(rom@),
    {
        let fb_width = (FRAMEBUFFER_WIDTH / 32) as i32;
        let fb_height = FRAMEBUFFER_HEIGHT as i32;
        let mut rom_words: Vec<u32> = Vec::new();
        let mut i: usize = 0;
        while i < rom.len()
            invariant
                i <= rom.len(),
                rom_words@ == rom@.subrange(0, i as int),
            decreases rom.len() - i,
        {
            rom_words.push(rom[i]);
            i = i + 1;
        }
        let m = Risc {
            pc: ROM_START / 4,
            r: [0; 16],
            h: 0,
            flags: Flags::empty(),
            mem_size: DEFAULT_MEM_SIZE,
            display_start: DEFAULT_DISPLAY_START,
            progress: 0,
            current_tick: 0,
            mouse: 0,
            key_buf: [0; 16],
            key_cnt: 0,
            switches: 0,
            leds: None,
            serial: None,
            spi_selected: 0,
            spi1: None,
            spi2: None,
            clipboard: None,
            fb_width,
            fb_height,
            damage: Damage { x1: 0, y1: 0, x2: fb_width - 1, y2: fb_height - 1 },
            ram: vec![0u32; (DEFAULT_MEM_SIZE / 4) as usize],
            rom: rom_words,
            io_log: Ghost(Seq::empty()),
        };
        assert(m@.r =~= initial_state(rom@).r);
        assert(m@.key_buf =~= initial_state(rom@).key_buf);
        assert(m@.ram =~= initial_state(rom@).ram);
        assert(rom@.subrange(0, rom@.len() as int) =~= rom@);
        m
    }

    /// A machine in the default configuration with an all-zero boot ROM, reset.
    pub fn new() -> (m: Risc)
        ensures
            m.wf(),
            m@ == initial_state(Seq::new(ROM_WORDS as nat, |i: int| 0u32)),
    {
        let rom = vec![0u32; ROM_WORDS];
        let m = Self::with_boot_rom(rom.as_slice());
        assert(rom@ =~= Seq::new(ROM_WORDS as nat, |i: int| 0u32));
        m
    }
}

impl Risc {
    /// Resize RAM and the framebuffer (`screen_width` pixels, a multiple of 32,
    /// by `screen_height` lines), patch the boot ROM to match, and reset.
    pub fn configure_memory(&mut self, megabytes_ram: i32, screen_width: i32, screen_height: i32)
        requires
            old(self).wf(),
            32 <= screen_width,
            screen_width % 32 == 0,
            0 <= screen_height,
            screen_width * screen_height <= i32::MAX,
        ensures
            final(self).wf(),
            final(self)@ == configured(old(self)@, megabytes_ram, screen_width, screen_height),
    {
        let megs: u32 = if megabytes_ram < 1 {
            1
        } else if megabytes_ram > 32 {
            32
        } else {
            megabytes_ram as u32
        };
        assert(megs << 20u32 == megs * 0x10_0000) by (bit_vector)
            requires megs <= 32;
        let display_start = megs << 20u32;
        assert(screen_width * screen_height >= 0) by (nonlinear_arith)
            requires 32 <= screen_width, 0 <= screen_height;
        let area = screen_width * screen_height;
        let fb_bytes = (area / 8) as u32;
        proof {
            let k = screen_width / 32;
            assert(screen_width * screen_height == 8 * (4 * (k * screen_height))) by (nonlinear_arith)
                requires screen_width == 32 * k;
            vstd::arithmetic::div_mod::lemma_div_multiples_vanish(4 * (k * screen_height), 8);
            vstd::arithmetic::div_mod::lemma_mod_multiples_basic(k * screen_height, 4);
        }
        let mem_size = display_start + fb_bytes;
        self.display_start = display_start;
        self.mem_size = mem_size;
        self.fb_width = screen_width / 32;
        self.fb_height = screen_height;
        self.damage = Damage { x1: 0, y1: 0, x2: self.fb_width - 1, y2: self.fb_height - 1 };
        let mut ram = vec![0u32; (mem_size / 4) as usize];
        // Inform the display driver of the framebuffer layout at the default
        // display start, so disk images still boot on the standard FPGA.
        let d = (DEFAULT_DISPLAY_START / 4) as usize;
        ram.set(d, 0x5369_7A67);
        ram.set(d + 1, screen_width as u32);
        ram.set(d + 2, screen_height as u32);
        ram.set(d + 3, display_start);
        self.ram = ram;
        // Patch the memory limit and stack origin into the bootloader.
        let mem_lim = display_start - 16;
        assert(mem_lim >> 16u32 <= 0xFFFF && mem_lim & 0xFFFF <= 0xFFFF) by (bit_vector);
        self.rom.set(372, 0x6100_0000 + (mem_lim >> 16u32));
        self.rom.set(373, 0x4116_0000 + (mem_lim & 0x0000_FFFF));
        let stack_org = display_start / 2;
        assert(stack_org >> 16u32 <= 0xFFFF) by (bit_vector);
        self.rom.set(376, 0x6100_0000 + (stack_org >> 16u32));
        self.reset();
        assert(self@.ram =~= configured(old(self)@, megabytes_ram, screen_width, screen_height).ram);
    }

    /// Attach the LED logging device.
    pub fn set_leds(&mut self, leds: Box<dyn Led>)
        ensures
            final(self)@ == (MachineState {
                attached: Attached { leds: true, ..old(self)@.attached },
                io: old(self)@.io.push(IoEvent::AttachLeds),
                ..old(self)@
            }),
    {
        self.leds = Some(leds);
        self.io_log = Ghost(self.io_log@.push(IoEvent::AttachLeds));
    }

    /// Attach the serial device.
    pub fn set_serial(&mut self, serial: Box<dyn Serial>)
        ensures
            final(self)@ == (MachineState {
                attached: Attached { serial: true, ..old(self)@.attached },
                io: old(self)@.io.push(IoEvent::AttachSerial),
                ..old(self)@
            }),
    {
        self.serial = Some(serial);
        self.io_log = Ghost(self.io_log@.push(IoEvent::AttachSerial));
    }

    /// Attach an SPI slave at index 1 or 2, in place of any device there
    /// (the log marks the change, so the later calls on that slave are the new
    /// device's); any other index is ignored and drops the device.
    pub fn set_spi(&mut self, index: usize, spi: Box<dyn Spi>)
        ensures
            index == 1 || index == 2 ==> final(self)@ == (MachineState {
                attached: Attached {
                    spi1: old(self)@.attached.spi1 || index == 1,
                    spi2: old(self)@.attached.spi2 || index == 2,
                    ..old(self)@.attached
                },
                io: old(self)@.io.push(IoEvent::AttachSpi(index as u32)),
                ..old(self)@
            }),
            !(index == 1 || index == 2) ==> final(self)@ == old(self)@,
    {
        if index == 1 {
            self.spi1 = Some(spi);
            self.io_log = Ghost(self.io_log@.push(IoEvent::AttachSpi(1)));
        } else if index == 2 {
            self.spi2 = Some(spi);
            self.io_log = Ghost(self.io_log@.push(IoEvent::AttachSpi(2)));
        }
    }

    /// Attach the clipboard bridge.
    pub fn set_clipboard(&mut self, clipboard: Box<dyn Clipboard>)
        ensures
            final(self)@ == (MachineState {
                attached: Attached { clipboard: true, ..old(self)@.attached },
                io: old(self)@.io.push(IoEvent::AttachClipboard),
                ..old(self)@
            }),
    {
        self.clipboard = Some(clipboard);
        self.io_log = Ghost(self.io_log@.push(IoEvent::AttachClipboard));
    }

    /// Set the switch register (booting from serial sets bit 0).
    pub fn set_switches(&mut self, switches: u32)
        ensures
            final(self)@ == (MachineState { switches, ..old(self)@ }),
    {
        self.switches = switches;
    }

    /// Set the millisecond clock the machine reads.
    pub fn set_time(&mut self, tick: u32)
        ensures
            final(self)@ == (MachineState { current_tick: tick, ..old(self)@ }),
    {
        self.current_tick = tick;
    }

    /// Run up to `cycles` instructions, stopping early when the CPU is detected
    /// idle-spinning on the millisecond counter or the keyboard-ready bit.
    pub fn run(&mut self, cycles: u32)
        requires
            old(self).wf(),
        ensures
            final(self).wf(),
            exists|devs: Seq<u32>| final(self)@ == run_steps(frame_start(old(self)@), devs, cycles as nat),
    {
        // `progress` pauses emulation until the next frame when the CPU is
        // busy-waiting on the millisecond counter or the keyboard ready bit.
        self.progress = 20;
        let ghost s0 = self@;
        let ghost mut devs: Seq<u32> = Seq::empty();
        let mut i: u32 = 0;
        while i < cycles && self.progress != 0
            invariant
                self.wf(),
                i <= cycles,
                devs.len() == i,
                self@ == run_steps(s0, devs, i as nat),
            decreases cycles - i,
        {
            let dev = self.single_step();
            proof {
                lemma_run_steps_push(s0, devs, i as nat, dev@);
                devs = devs.push(dev@);
            }
            i = i + 1;
        }
        proof {
            if i < cycles {
                lemma_run_steps_stalled(s0, devs, i as nat, cycles as nat);
            }
            assert(s0 == frame_start(old(self)@));
            assert(self@ == run_steps(frame_start(old(self)@), devs, cycles as nat));
        }
    }
}

impl Risc {
    /// Report a mouse move (coordinates in the Oberon frame, origin bottom left).
    pub fn mouse_moved(&mut self, mouse_x: i32, mouse_y: i32)
        ensures
            final(self)@ == (MachineState { mouse: moved_mouse(old(self)@.mouse, mouse_x, mouse_y), ..old(self)@ }),
    {
        if 0 <= mouse_x && mouse_x < 4096 {
            self.mouse = (self.mouse & !0x0000_0FFFu32) | mouse_x as u32;
        }
        if 0 <= mouse_y && mouse_y < 4096 {
            self.mouse = (self.mouse & !0x00FF_F000u32) | ((mouse_y as u32) << 12u32);
        }
    }

    /// Report a mouse button going down or up (1 left, 2 middle, 3 right).
    pub fn mouse_button(&mut self, button: i32, down: bool)
        ensures
            final(self)@ == (MachineState { mouse: pressed_mouse(old(self)@.mouse, button, down), ..old(self)@ }),
    {
        if 1 <= button && button < 4 {
            let bit = 1u32 << ((27 - button) as u32);
            if down {
                self.mouse = self.mouse | bit;
            } else {
                self.mouse = self.mouse & !bit;
            }
        }
    }

    /// Enqueue PS/2 scancodes for the keyboard; dropped if they do not all fit
    /// in the 16-byte buffer.
    pub fn keyboard_input(&mut self, scancodes: &[u8])
        requires
            old(self).wf(),
        ensures
            final(self).wf(),
            final(self)@ == keyboard_input(old(self)@, scancodes@),
    {
        let len = scancodes.len();
        if len <= 16 - self.key_cnt as usize {
            let start = self.key_cnt as usize;
            let mut buf = self.key_buf;
            let ghost old_buf = buf@;
            let mut i: usize = 0;
            while i < len
                invariant
                    start + len <= 16,
                    i <= len,
                    len == scancodes@.len(),
                    old_buf.len() == 16,
                    buf@ == Seq::new(
                        16,
                        |j: int| if start <= j < start + i { scancodes@[j - start] } else { old_buf[j] },
                    ),
                decreases len - i,
            {
                buf[start + i] = scancodes[i];
                i = i + 1;
            }
            self.key_buf = buf;
            self.key_cnt = self.key_cnt + len as u32;
        }
    }

    /// The framebuffer words, from the display start to the end of RAM.
    pub fn framebuffer(&self) -> (fb: &[u32])
        requires
            self.wf(),
        ensures
            fb@ == self@.ram.subrange((self@.display_start / 4) as int, self@.ram.len() as int),
    {
        let start = ByteAddr(self.display_start).word().index();
        let (_, fb) = self.ram.as_slice().split_at(start);
        fb
    }

    /// Take the damage rectangle accumulated since the last call, and reset it
    /// to empty.
    pub fn framebuffer_damage(&mut self) -> (d: Damage)
        ensures
            d == old(self)@.damage,
            final(self)@ == (MachineState { damage: empty_damage(old(self)@), ..old(self)@ }),
    {
        let dmg = self.damage;
        self.damage = Damage { x1: self.fb_width, x2: 0, y1: self.fb_height, y2: 0 };
        dmg
    }

    /// Framebuffer width in 32-pixel words.
    pub fn fb_width(&self) -> (w: i32)
        ensures
            w == self@.fb_width,
    {
        self.fb_width
    }

    /// Framebuffer height in lines.
    pub fn fb_height(&self) -> (h: i32)
        ensures
            h == self@.fb_height,
    {
        self.fb_height
    }

    /// Snapshot of the architectural CPU state.
    pub fn cpu_state(&self) -> (st: CpuState)
        ensures
            st.pc == self@.pc,
            st.r@ == self@.r,
            st.h == self@.h,
            st.flags == self@.flags,
    {
        CpuState { pc: self.pc, r: self.r, h: self.h, flags: self.flags }
    }

    /// Load the state vector `[PC, R0..R15, H, flags]` (flags packed as
    /// `Z | N<<1 | C<<2 | V<<3`, higher bits ignored).
    pub fn cosim_set_state(&mut self, st: &[u32; 19])
        ensures
            final(self)@ == (MachineState {
                pc: st@[0],
                r: st@.subrange(1, 17),
                h: st@[17],
                flags: flags_from_bits((st@[18] & 0xFF) as u8),
                ..old(self)@
            }),
    {
        let mut r = [0u32; 16];
        let mut i: usize = 0;
        while i < 16
            invariant
                i <= 16,
                r@.len() == 16,
                forall|j: int| 0 <= j < i ==> r@[j] == st@[j + 1],
            decreases 16 - i,
        {
            r[i] = st[i + 1];
            i = i + 1;
        }
        let packed = st[18];
        let fl = packed & 0xFF;
        assert(packed & 0xFF <= 0xFF) by (bit_vector);
        self.pc = st[0];
        self.r = r;
        self.h = st[17];
        self.flags = Flags::from_bits_truncate(fl as u8);
        assert(r@ =~= st@.subrange(1, 17));
    }

    /// The state vector `[PC, R0..R15, H, flags]`.
    pub fn cosim_dump_state(&self) -> (st: [u32; 19])
        ensures
            st@ == state_vector(self@),
    {
        let mut st = [0u32; 19];
        st[0] = self.pc;
        let mut i: usize = 0;
        while i < 16
            invariant
                i <= 16,
                st@.len() == 19,
                self.r@.len() == 16,
                st@[0] == self.pc,
                forall|j: int| 1 <= j < i + 1 ==> st@[j] == self.r@[j - 1],
            decreases 16 - i,
        {
            st[i + 1] = self.r[i];
            i = i + 1;
        }
        st[17] = self.h;
        st[18] = self.flags.bits() as u32;
        assert(st@ =~= state_vector(self@));
        st
    }

    /// RAM word `word`.
    pub fn cosim_ram_read(&self, word: usize) -> (v: u32)
        requires
            word < self@.ram.len(),
        ensures
            v == self@.ram[word as int],
    {
        self.ram[word]
    }

    /// Overwrite RAM word `word` (no framebuffer damage is recorded).
    pub fn cosim_ram_write(&mut self, word: usize, value: u32)
        requires
            word < old(self)@.ram.len(),
        ensures
            final(self)@ == (MachineState { ram: old(self)@.ram.update(word as int, value), ..old(self)@ }),
    {
        self.ram.set(word, value);
    }

    /// Execute exactly one instruction.
    pub fn cosim_step(&mut self)
        requires
            old(self).wf(),
        ensures
            final(self).wf(),
            exists|dev: u32| final(self)@ == step(old(self)@, dev),
    {
        let dev = self.single_step();
    }

    /// The idle-poll budget left in the current run.
    pub fn progress(&self) -> (p: u32)
        ensures
            p == self@.progress,
    {
        self.progress
    }

    /// Set the idle-poll budget.
    pub fn set_progress(&mut self, progress: u32)
        ensures
            final(self)@ == (MachineState { progress, ..old(self)@ }),
    {
        self.progress = progress;
    }

    /// Size of RAM plus framebuffer, in bytes.
    pub fn mem_size(&self) -> (m: u32)
        ensures
            m == self@.mem_size,
    {
        self.mem_size
    }

    /// Byte address where the framebuffer starts.
    pub fn display_start(&self) -> (d: u32)
        ensures
            d == self@.display_start,
    {
        self.display_start
    }

    /// The selected SPI slave (0..3).
    pub fn spi_selected(&self) -> (sel: u32)
        ensures
            sel == self@.spi_selected,
    {
        self.spi_selected
    }

    /// Whether an SPI slave is attached at `index`.
    pub fn spi_attached(&self, index: usize) -> (b: bool)
        ensures
            b == ((index == 1 && self@.attached.spi1) || (index == 2 && self@.attached.spi2)),
    {
        (index == 1 && self.spi1.is_some()) || (index == 2 && self.spi2.is_some())
    }

    /// Boot ROM word `word`.
    pub fn rom_word(&self, word: usize) -> (v: u32)
        requires
            word < self@.rom.len(),
        ensures
            v == self@.rom[word as int],
    {
        self.rom[word]
    }
}

impl Default for Risc {
    fn default() -> (m: Risc)
        ensures
            m.wf(),
            m@ == initial_state(Seq::new(ROM_WORDS as nat, |i: int| 0u32)),
    {
        Self::new()
    }
}

// ---------------------------------------------------------------------------
// Laws
// ---------------------------------------------------------------------------

/// A word stored in RAM (the framebuffer included) reads back unchanged, and
/// the load has no further effect.
pub proof fn law_store_load_word(s: MachineState, address: u32, value: u32, dev: u32)
    requires
        s.wf(),
        address < s.mem_size,
    ensures
        load_word(store_word(s, address, value), address, dev) == (store_word(s, address, value), value),
{
}

/// Byte `k` of `replace_byte(w, k, b)` is `b`; every other byte is that of `w`.
pub proof fn lemma_replace_byte(w: u32, k: u32, b: u8, j: u32)
    requires
        k < 4,
        j < 4,
    ensures
        byte_of(replace_byte(w, k, b), j) == if j == k { b } else { byte_of(w, j) },
{
    let bw = b as u32;
    assert(bw <= 0xFF);
    let sh: u32 = (k * 8) as u32;
    let sj: u32 = (j * 8) as u32;
    assert(sh < 32 && sj < 32 && (sh == sj <==> j == k));
    assert(((((w & !(0xFFu32 << sh)) | (bw << sh)) >> sj) & 0xFF) == if sj == sh {
        bw
    } else {
        (w >> sj) & 0xFF
    }) by (bit_vector)
        requires
            bw <= 0xFF,
            sh == 0 || sh == 8 || sh == 16 || sh == 24,
            sj == 0 || sj == 8 || sj == 16 || sj == 24;
}

/// A byte stored in RAM reads back unchanged, and the other three bytes of its
/// word are kept (little-endian read-modify-write).
pub proof fn law_store_load_byte(s: MachineState, address: u32, b: u8, dev: u32, j: u32)
    requires
        s.wf(),
        address < s.mem_size,
        j < 4,
    ensures
        load_byte(store_byte(s, address, b), address, dev).1 == b,
        byte_of(store_byte(s, address, b).ram[(address / 4) as int], j) == if j == address % 4 {
            b
        } else {
            byte_of(s.ram[(address / 4) as int], j)
        },
{
    lemma_replace_byte(s.ram[(address / 4) as int], address % 4, b, j);
    lemma_replace_byte(s.ram[(address / 4) as int], address % 4, b, address % 4);
}

/// Enqueued scancodes join the back of the keyboard queue when they all fit,
/// and are dropped together otherwise.
pub proof fn law_keyboard_enqueue(s: MachineState, codes: Seq<u8>)
    requires
        s.wf(),
    ensures
        keyboard_input(s, codes).wf(),
        pending_keys(keyboard_input(s, codes)) == if codes.len() <= 16 - s.key_cnt {
            pending_keys(s) + codes
        } else {
            pending_keys(s)
        },
{
    if codes.len() <= 16 - s.key_cnt {
        assert(pending_keys(keyboard_input(s, codes)) =~= pending_keys(s) + codes);
    }
}

/// Reading the keyboard register takes the oldest waiting scancode off the
/// front of the queue.
pub proof fn law_keyboard_dequeue(s: MachineState, dev: u32)
    requires
        s.wf(),
        s.key_cnt > 0,
    ensures
        load_io(s, (IO_START + 28) as u32, dev).1 == pending_keys(s)[0] as u32,
        load_io(s, (IO_START + 28) as u32, dev).0.wf(),
        pending_keys(load_io(s, (IO_START + 28) as u32, dev).0) == pending_keys(s).drop_first(),
{
    assert(sub32((IO_START + 28) as u32, IO_START) == 28);
    assert(pending_keys(load_io(s, (IO_START + 28) as u32, dev).0) =~= pending_keys(s).drop_first());
}

/// A mouse move to an on-screen position puts x in bits 0..11 and y in bits
/// 12..23 and keeps the button and status bits above.
pub proof fn law_mouse_position(m: u32, x: i32, y: i32)
    requires
        0 <= x < 4096,
        0 <= y < 4096,
    ensures
        moved_mouse(m, x, y) & 0xFFF == x,
        (moved_mouse(m, x, y) >> 12) & 0xFFF == y,
        moved_mouse(m, x, y) & 0xFF00_0000 == m & 0xFF00_0000,
{
    let xu = x as u32;
    let yu = y as u32;
    let r = (((m & !0x0FFFu32) | xu) & !0x00FF_F000u32) | (yu << 12);
    assert(r & 0xFFF == xu && (r >> 12) & 0xFFF == yu && r & 0xFF00_0000 == m & 0xFF00_0000)
        by (bit_vector)
        requires
            xu < 4096,
            yu < 4096,
            r == (((m & !0x0FFFu32) | xu) & !0x00FF_F000u32) | (yu << 12);
}

/// `DIV`: the instruction puts the quotient in register `a` and the remainder
/// in H and moves on; for a positive divisor the division floors: signed, the
/// quotient times the divisor plus a remainder in `0..c` gives back the
/// dividend; unsigned, it is plain division.
pub proof fn law_div_step(s: MachineState, dev: u32)
    requires
        s.wf(),
        fetch(s) is Some,
        fetch(s)->0 & PBIT == 0,
        (fetch(s)->0 & 0x000F_0000) >> 16 == 11,
    ensures
        ({
            let ir = fetch(s)->0;
            let s1 = MachineState { pc: (s.pc + 1) as u32, ..s };
            let b = s.r[field_b(ir) as int];
            let c = operand_c(s1, ir);
            let (q, r) = div_words(b, c, ir & UBIT != 0);
            &&& step(s, dev).r[field_a(ir) as int] == q
            &&& step(s, dev).h == r
            &&& step(s, dev).pc == s.pc + 1
            &&& (signed(c) > 0 && ir & UBIT == 0) ==> signed(q) * (c as int) + (r as int) == signed(b) && 0 <= r
                < c
            &&& (signed(c) > 0 && ir & UBIT != 0) ==> q == b / c && r == b % c
        }),
{
    let ir = fetch(s)->0;
    let s1 = MachineState { pc: (s.pc + 1) as u32, ..s };
    let b = s.r[field_b(ir) as int];
    let c = operand_c(s1, ir);
    lemma_fields_small(ir);
    assert(step(s, dev) == exec_register(s1, ir));
    if signed(c) > 0 && ir & UBIT == 0 {
        let ci = c as int;
        let qi = signed(b) / ci;
        let ri = signed(b) % ci;
        assert(qi * ci + ri == signed(b)) by (nonlinear_arith)
            requires ci > 0, qi == signed(b) / ci, ri == signed(b) % ci;
        assert(-0x8000_0000 <= qi < 0x8000_0000) by (nonlinear_arith)
            requires ci >= 1, qi == signed(b) / ci, -0x8000_0000 <= signed(b) < 0x8000_0000;
        let q = wrap32(qi);
        assert(signed(q) == qi);
    }
}

/// A compare (`SUB` of `c` from register `b`, without carry-in) sets the flags
/// so that the branch conditions read the comparison: condition 1 (`EQ`) holds
/// exactly when the operands are equal, 2 (`CS`) when `b < c` and 4 (`LS`) when
/// `b <= c` as unsigned words, 5 (`LT`) when `b < c` and 6 (`LE`) when
/// `b <= c` as signed words.
pub proof fn law_compare_conditions(s: MachineState, dev: u32)
    requires
        s.wf(),
        fetch(s) is Some,
        fetch(s)->0 & PBIT == 0,
        (fetch(s)->0 & 0x000F_0000) >> 16 == 9,
        fetch(s)->0 & UBIT == 0,
    ensures
        ({
            let ir = fetch(s)->0;
            let b = s.r[field_b(ir) as int];
            let c = operand_c(MachineState { pc: (s.pc + 1) as u32, ..s }, ir);
            let f = step(s, dev).flags;
            &&& cond_holds(decode_cond(1), f) == (b == c)
            &&& cond_holds(decode_cond(2), f) == (b < c)
            &&& cond_holds(decode_cond(4), f) == (b <= c)
            &&& cond_holds(decode_cond(5), f) == (signed(b) < signed(c))
            &&& cond_holds(decode_cond(6), f) == (signed(b) <= signed(c))
        }),
{
    let ir = fetch(s)->0;
    let s1 = MachineState { pc: (s.pc + 1) as u32, ..s };
    let b = s.r[field_b(ir) as int];
    let c = operand_c(s1, ir);
    lemma_fields_small(ir);
    assert(step(s, dev) == exec_register(s1, ir));
    let a = sub32(b, c);
    let f = step(s, dev).flags;
    assert(f.z == (a == 0) && f.n == (a >= 0x8000_0000) && f.c == (a > b) && f.v == (((b ^ c) & (a ^ b)) >> 31 != 0));
    let v = ((b ^ c) & (a ^ b)) >> 31 != 0;
    assert({
        &&& ((a >= 0x8000_0000) != v) == ((b ^ 0x8000_0000) < (c ^ 0x8000_0000))
        &&& (a == 0) == (b == c)
        &&& (a > b) == (b < c)
        &&& (b ^ 0x8000_0000) == if b < 0x8000_0000 { (b + 0x8000_0000) as u32 } else { (b - 0x8000_0000) as u32 }
        &&& (c ^ 0x8000_0000) == if c < 0x8000_0000 { (c + 0x8000_0000) as u32 } else { (c - 0x8000_0000) as u32 }
    }) by (bit_vector)
        requires
            a == if b >= c { (b - c) as u32 } else { (b - c + 0x1_0000_0000) as u32 },
            v == (((b ^ c) & (a ^ b)) >> 31 != 0);
}

/// A store the program makes: a word, or with the flag the low byte of the
/// value, at the address.
pub open spec fn store_op(s: MachineState, op: (u32, u32, bool)) -> MachineState {
    if op.2 {
        store_byte(s, op.0, (op.1 & 0xFF) as u8)
    } else {
        store_word(s, op.0, op.1)
    }
}

/// The stores `ops`, one after another.
pub open spec fn store_ops(s: MachineState, ops: Seq<(u32, u32, bool)>) -> MachineState
    decreases ops.len(),
{
    if ops.len() == 0 {
        s
    } else {
        store_op(store_ops(s, ops.drop_last()), ops.last())
    }
}

/// The framebuffer word a store at `a` lands on.
pub open spec fn fb_word(s: MachineState, a: u32) -> int {
    (a / 4) as int - (s.display_start / 4) as int
}

/// A store at `a` lands on a framebuffer word on screen.
pub open spec fn on_screen(s: MachineState, a: u32) -> bool {
    s.display_start <= a < s.mem_size && fb_word(s, a) / (s.fb_width as int) < s.fb_height
}

/// The column of the framebuffer word at `a`.
pub open spec fn fb_col(s: MachineState, a: u32) -> int {
    fb_word(s, a) % (s.fb_width as int)
}

/// The line of the framebuffer word at `a`.
pub open spec fn fb_row(s: MachineState, a: u32) -> int {
    fb_word(s, a) / (s.fb_width as int)
}

/// The damage after `ops` from a machine whose damage was just taken: empty
/// if no store landed on screen, else the smallest rectangle holding every
/// on-screen word stored to (stores of unchanged values included).
pub open spec fn damage_law(s: MachineState, ops: Seq<(u32, u32, bool)>, d: Damage) -> bool {
    &&& (forall|k: int| 0 <= k < ops.len() ==> !on_screen(s, #[trigger] ops[k].0)) ==> d == empty_damage(s)
    &&& forall|k: int|
        0 <= k < ops.len() && on_screen(s, #[trigger] ops[k].0) ==> d.x1 <= fb_col(s, ops[k].0) <= d.x2 && d.y1
            <= fb_row(s, ops[k].0) <= d.y2
    &&& (exists|k: int| 0 <= k < ops.len() && on_screen(s, #[trigger] ops[k].0)) ==> {
        &&& exists|k: int| 0 <= k < ops.len() && on_screen(s, #[trigger] ops[k].0) && fb_col(s, ops[k].0) == d.x1
        &&& exists|k: int| 0 <= k < ops.len() && on_screen(s, #[trigger] ops[k].0) && fb_col(s, ops[k].0) == d.x2
        &&& exists|k: int| 0 <= k < ops.len() && on_screen(s, #[trigger] ops[k].0) && fb_row(s, ops[k].0) == d.y1
        &&& exists|k: int| 0 <= k < ops.len() && on_screen(s, #[trigger] ops[k].0) && fb_row(s, ops[k].0) == d.y2
    }
}

/// Stores keep the memory layout and screen geometry.
proof fn lemma_store_ops_layout(s: MachineState, ops: Seq<(u32, u32, bool)>)
    ensures
        store_ops(s, ops).display_start == s.display_start,
        store_ops(s, ops).mem_size == s.mem_size,
        store_ops(s, ops).fb_width == s.fb_width,
        store_ops(s, ops).fb_height == s.fb_height,
    decreases ops.len(),
{
    if ops.len() > 0 {
        lemma_store_ops_layout(s, ops.drop_last());
    }
}

/// The damage rectangle after a run of stores that followed taking the
/// damage (see [`damage_law`]).
pub proof fn law_damage_after_stores(s: MachineState, ops: Seq<(u32, u32, bool)>)
    requires
        s.wf(),
        s.damage == empty_damage(s),
    ensures
        damage_law(s, ops, store_ops(s, ops).damage),
    decreases ops.len(),
{
    if ops.len() > 0 {
        let prev = ops.drop_last();
        law_damage_after_stores(s, prev);
        lemma_store_ops_layout(s, prev);
        let t = store_ops(s, prev);
        let op = ops.last();
        let n = ops.len() - 1;
        let d0 = t.damage;
        let d = store_ops(s, ops).damage;
        assert(ops[n] == op);
        assert forall|k: int| 0 <= k < n implies #[trigger] ops[k] == prev[k] by {}
        let w = fb_word(s, op.0);
        let wd = s.fb_width as int;
        assert(s.fb_width >= 1);
        if s.display_start <= op.0 < s.mem_size {
            assert(w >= 0) by {
                assert(s.display_start / 4 <= op.0 / 4);
            }
            assert(0 <= w % wd < wd && w / wd >= 0) by (nonlinear_arith)
                requires w >= 0, wd >= 1;
        }
        let none_before = forall|k: int| 0 <= k < n ==> !on_screen(s, #[trigger] prev[k].0);
        if on_screen(s, op.0) {
            let c = fb_col(s, op.0);
            let r = fb_row(s, op.0);
            assert(d == widen_damage(t, w));
            assert(d.x1 == if c < d0.x1 { c as i32 } else { d0.x1 });
            assert(d.x2 == if c > d0.x2 { c as i32 } else { d0.x2 });
            assert(d.y1 == if r < d0.y1 { r as i32 } else { d0.y1 });
            assert(d.y2 == if r > d0.y2 { r as i32 } else { d0.y2 });
            if none_before {
                assert(d0 == empty_damage(s));
                assert(d.x1 == c && d.x2 == c && d.y1 == r && d.y2 == r);
                assert(on_screen(s, ops[n].0) && fb_col(s, ops[n].0) == c && fb_row(s, ops[n].0) == r);
                assert forall|k: int| 0 <= k < ops.len() && on_screen(s, #[trigger] ops[k].0) implies d.x1 <= fb_col(
                    s,
                    ops[k].0,
                ) <= d.x2 && d.y1 <= fb_row(s, ops[k].0) <= d.y2 by {
                    if k < n {
                        assert(ops[k] == prev[k]);
                    }
                }
            } else {
                assert(exists|k: int| 0 <= k < prev.len() && on_screen(s, #[trigger] prev[k].0));
                let kx1 = choose|k: int| 0 <= k < prev.len() && on_screen(s, #[trigger] prev[k].0) && fb_col(s, prev[k].0) == d0.x1;
                let kx2 = choose|k: int| 0 <= k < prev.len() && on_screen(s, #[trigger] prev[k].0) && fb_col(s, prev[k].0) == d0.x2;
                let ky1 = choose|k: int| 0 <= k < prev.len() && on_screen(s, #[trigger] prev[k].0) && fb_row(s, prev[k].0) == d0.y1;
                let ky2 = choose|k: int| 0 <= k < prev.len() && on_screen(s, #[trigger] prev[k].0) && fb_row(s, prev[k].0) == d0.y2;
                assert(ops[kx1] == prev[kx1] && ops[kx2] == prev[kx2] && ops[ky1] == prev[ky1] && ops[ky2] == prev[ky2]);
                assert(on_screen(s, ops[n].0));
                if c < d0.x1 {
                    assert(fb_col(s, ops[n].0) == d.x1);
                } else {
                    assert(on_screen(s, ops[kx1].0) && fb_col(s, ops[kx1].0) == d.x1);
                }
                if c > d0.x2 {
                    assert(fb_col(s, ops[n].0) == d.x2);
                } else {
                    assert(on_screen(s, ops[kx2].0) && fb_col(s, ops[kx2].0) == d.x2);
                }
                if r < d0.y1 {
                    assert(fb_row(s, ops[n].0) == d.y1);
                } else {
                    assert(on_screen(s, ops[ky1].0) && fb_row(s, ops[ky1].0) == d.y1);
                }
                if r > d0.y2 {
                    assert(fb_row(s, ops[n].0) == d.y2);
                } else {
                    assert(on_screen(s, ops[ky2].0) && fb_row(s, ops[ky2].0) == d.y2);
                }
                assert forall|k: int| 0 <= k < ops.len() && on_screen(s, #[trigger] ops[k].0) implies d.x1 <= fb_col(
                    s,
                    ops[k].0,
                ) <= d.x2 && d.y1 <= fb_row(s, ops[k].0) <= d.y2 by {
                    if k < n {
                        assert(ops[k] == prev[k]);
                    }
                }
            }
        } else {
            assert(d == d0);
            assert forall|k: int| 0 <= k < ops.len() && on_screen(s, #[trigger] ops[k].0) implies k < n by {}
            assert forall|k: int| 0 <= k < ops.len() && on_screen(s, #[trigger] ops[k].0) implies d.x1 <= fb_col(
                s,
                ops[k].0,
            ) <= d.x2 && d.y1 <= fb_row(s, ops[k].0) <= d.y2 by {
                assert(ops[k] == prev[k]);
            }
            if exists|k: int| 0 <= k < ops.len() && on_screen(s, #[trigger] ops[k].0) {
                let k0 = choose|k: int| 0 <= k < ops.len() && on_screen(s, #[trigger] ops[k].0);
                assert(k0 < n && ops[k0] == prev[k0]);
                assert(on_screen(s, prev[k0].0));
                let kx1 = choose|k: int| 0 <= k < prev.len() && on_screen(s, #[trigger] prev[k].0) && fb_col(s, prev[k].0) == d0.x1;
                let kx2 = choose|k: int| 0 <= k < prev.len() && on_screen(s, #[trigger] prev[k].0) && fb_col(s, prev[k].0) == d0.x2;
                let ky1 = choose|k: int| 0 <= k < prev.len() && on_screen(s, #[trigger] prev[k].0) && fb_row(s, prev[k].0) == d0.y1;
                let ky2 = choose|k: int| 0 <= k < prev.len() && on_screen(s, #[trigger] prev[k].0) && fb_row(s, prev[k].0) == d0.y2;
                assert(ops[kx1] == prev[kx1] && ops[kx2] == prev[kx2] && ops[ky1] == prev[ky1] && ops[ky2] == prev[ky2]);
            } else {
                assert forall|k: int| 0 <= k < n implies !on_screen(s, #[trigger] prev[k].0) by {
                    assert(ops[k] == prev[k]);
                }
            }
        }
    }
}

/// A button event sets or clears exactly that button's bit (left 26, middle 25,
/// right 24) and keeps the position.
pub proof fn law_mouse_button(m: u32, button: i32, down: bool)
    requires
        1 <= button < 4,
    ensures
        (pressed_mouse(m, button, down) >> ((27 - button) as u32)) & 1 == if down { 1u32 } else { 0u32 },
        pressed_mouse(m, button, down) & 0x00FF_FFFF == m & 0x00FF_FFFF,
{
    let k = (27 - button) as u32;
    assert(24 <= k <= 26);
    let bit = 1u32 << k;
    assert(((m | bit) >> k) & 1 == 1 && ((m & !bit) >> k) & 1 == 0 && (m | bit) & 0x00FF_FFFF
        == m & 0x00FF_FFFF && (m & !bit) & 0x00FF_FFFF == m & 0x00FF_FFFF) by (bit_vector)
        requires
            24 <= k <= 26,
            bit == 1u32 << k;
}

// ---------------------------------------------------------------------------
// Shim mode: an inner core in RAM, the I/O space served by the shim host
// ---------------------------------------------------------------------------

/// Why an inner-core image cannot be booted.
#[derive(Debug, Clone, Copy, PartialEq, Eq, Structural)]
pub enum BootError {
    /// The image ends inside a block header or a block.
    Truncated,
    /// A block whose length or address is not a multiple of 4, or which does
    /// not fit in RAM.
    BadBlock,
}

/// RAM `ram` with the `n` bytes of words at `at` of `image` stored from byte
/// address `adr` on.
pub open spec fn load_block(ram: Seq<u32>, image: Seq<u8>, at: int, adr: u32, n: u32) -> Seq<u32> {
    Seq::new(
        ram.len(),
        |i: int|
            if adr / 4 <= i < adr / 4 + n / 4 {
                crate::image::le_u32(image, at + 4 * (i - adr / 4))
            } else {
                ram[i]
            },
    )
}

/// RAM `ram` (of a machine with `mem_size` bytes) after loading the blocks of
/// `image` from byte `pos` on, as the boot loader reads them: a little-endian
/// length and address, then that many bytes of words; a length that is zero
/// or negative (as a signed word) ends the image.
pub open spec fn load_image(ram: Seq<u32>, mem_size: u32, image: Seq<u8>, pos: int) -> Result<Seq<u32>, BootError>
    decreases image.len() - pos,
{
    if pos < 0 || pos + 4 > image.len() {
        Err(BootError::Truncated)
    } else {
        let n = crate::image::le_u32(image, pos);
        if (n as i32) <= 0 {
            Ok(ram)
        } else if pos + 8 > image.len() {
            Err(BootError::Truncated)
        } else {
            let adr = crate::image::le_u32(image, pos + 4);
            if n % 4 != 0 || adr % 4 != 0 || adr + n > mem_size {
                Err(BootError::BadBlock)
            } else if pos + 8 + n > image.len() {
                Err(BootError::Truncated)
            } else {
                load_image(load_block(ram, image, pos + 8, adr, n), mem_size, image, pos + 8 + n)
            }
        }
    }
}

/// The machine booted into an inner core: the image's blocks loaded into RAM,
/// the memory limit (16 bytes below the display start) and the stack origin
/// left at byte addresses 12 and 24 as the boot loader leaves them, the module
/// table register R12 at 0x20, the stack pointer R14 at `stack_org`, and the
/// program counter at 0.
pub open spec fn booted(s: MachineState, image: Seq<u8>, stack_org: u32) -> Result<MachineState, BootError> {
    match load_image(s.ram, s.mem_size, image, 0) {
        Ok(ram) => Ok(
            MachineState {
                ram: ram.update(3, (s.display_start - 16) as u32).update(6, stack_org),
                r: s.r.update(12, 0x20).update(14, stack_org),
                pc: 0,
                ..s
            },
        ),
        Err(e) => Err(e),
    }
}

/// An access the next instruction makes to the I/O space (at or above the end
/// of RAM): a load into register `reg` (a byte of the word when `byte`), or a
/// store of `value` (a byte store stores the low byte).
#[derive(Debug, Clone, Copy, PartialEq, Eq, Structural)]
pub enum IoAccess {
    Load { address: u32, reg: u32, byte: bool },
    Store { address: u32, value: u32 },
}

/// The I/O access the next instruction of `s` makes, if any.
pub open spec fn io_access(s: MachineState) -> Option<IoAccess> {
    match fetch(s) {
        Some(ir) => {
            let address = add32(s.r[field_b(ir) as int], mem_offset(ir));
            if ir & PBIT == 0 || ir & QBIT != 0 || address < s.mem_size {
                None
            } else if ir & UBIT == 0 {
                Some(IoAccess::Load { address, reg: field_a(ir), byte: ir & VBIT != 0 })
            } else if ir & VBIT == 0 {
                Some(IoAccess::Store { address, value: s.r[field_a(ir) as int] })
            } else {
                Some(IoAccess::Store { address, value: s.r[field_a(ir) as int] & 0xFF })
            }
        },
        None => None,
    }
}

/// The next instruction done as an I/O load that read the word `v`.
pub open spec fn io_load_done(s: MachineState, reg: u32, address: u32, byte: bool, v: u32) -> MachineState {
    set_register(
        MachineState { pc: (s.pc + 1) as u32, ..s },
        reg,
        if byte { byte_of(v, address % 4) as u32 } else { v },
    )
}

/// The register fields of an instruction name registers.
proof fn lemma_fields_small(ir: u32)
    ensures
        field_a(ir) < 16,
        field_b(ir) < 16,
{
    assert(field_a(ir) < 16 && field_b(ir) < 16) by (bit_vector);
}

/// An instruction that reaches no I/O register does not depend on a device.
proof fn lemma_no_io_no_device(s: MachineState, dev: u32)
    requires
        s.wf(),
        io_access(s) is None,
    ensures
        step(s, dev) == step(s, 0),
{
    match fetch(s) {
        Some(ir) => {
            let s1 = MachineState { pc: (s.pc + 1) as u32, ..s };
            if ir & PBIT != 0 && ir & QBIT == 0 {
                let address = add32(s1.r[field_b(ir) as int], mem_offset(ir));
                assert(address < s.mem_size);
                assert(load_word(s1, address, dev) == load_word(s1, address, 0));
                assert(load_byte(s1, address, dev) == load_byte(s1, address, 0));
                assert(exec_memory(s1, ir, dev) == exec_memory(s1, ir, 0));
            }
        },
        None => {},
    }
}

impl Risc {
    /// Boot an inner core from `image` (see [`booted`]); on an error the
    /// machine is left as it was.
    pub fn boot_inner_core(&mut self, image: &[u8], stack_org: u32) -> (r: Result<(), BootError>)
        requires
            old(self).wf(),
            old(self)@.ram.len() > 6,
            old(self)@.display_start >= 16,
        ensures
            final(self).wf(),
            match booted(old(self)@, image@, stack_org) {
                Ok(s2) => r is Ok && final(self)@ == s2,
                Err(e) => r == Err::<(), BootError>(e) && final(self)@ == old(self)@,
            },
    {
        let mut ram = self.ram.clone();
        assert(ram@ =~= self.ram@);
        let mem_size = self.mem_size;
        let len = image.len();
        let mut pos: usize = 0;
        loop
            invariant
                pos <= len,
                len == image@.len(),
                mem_size == old(self)@.mem_size,
                ram@.len() == old(self)@.ram.len(),
                *self == *old(self),
                self.wf(),
                load_image(old(self)@.ram, mem_size, image@, 0) == load_image(ram@, mem_size, image@, pos as int),
            ensures
                ram@.len() == old(self)@.ram.len(),
                *self == *old(self),
                self.wf(),
                load_image(old(self)@.ram, mem_size, image@, 0) == Ok::<Seq<u32>, BootError>(ram@),
            decreases len - pos,
        {
            if len < 4 || pos > len - 4 {
                return Err(BootError::Truncated);
            }
            let n = crate::image::rd_u32(image, pos);
            if (n as i32) <= 0 {
                break;
            }
            if len < 8 || pos > len - 8 {
                return Err(BootError::Truncated);
            }
            let adr = crate::image::rd_u32(image, pos + 4);
            if n % 4 != 0 || adr % 4 != 0 || adr as u64 + n as u64 > mem_size as u64 {
                return Err(BootError::BadBlock);
            }
            if (n as usize) > len - pos - 8 {
                return Err(BootError::Truncated);
            }
            let at = pos + 8;
            let first = (adr / 4) as usize;
            let words = (n / 4) as usize;
            let ghost before = ram@;
            assert(first + words <= ram@.len()) by {
                assert(old(self)@.ram.len() == mem_size / 4);
            }
            let mut k: usize = 0;
            while k < words
                invariant
                    k <= words,
                    first + words <= ram@.len(),
                    ram@.len() == before.len(),
                    at + 4 * words <= len,
                    len == image@.len(),
                    first == adr / 4,
                    words == n / 4,
                    forall|i: int|
                        0 <= i < ram@.len() ==> #[trigger] ram@[i] == if first <= i < first + k {
                            crate::image::le_u32(image@, at + 4 * (i - first))
                        } else {
                            before[i]
                        },
                decreases words - k,
            {
                let w = crate::image::rd_u32(image, at + 4 * k);
                ram.set(first + k, w);
                k = k + 1;
            }
            assert(ram@ =~= load_block(before, image@, at as int, adr, n));
            pos = at + n as usize;
        }
        let ghost loaded = ram@;
        ram.set(3, self.display_start - 16);
        ram.set(6, stack_org);
        self.ram = ram;
        self.r[12] = 0x20;
        self.r[14] = stack_org;
        self.pc = 0;
        assert(self@.r =~= old(self)@.r.update(12, 0x20).update(14, stack_org));
        assert(self@.ram =~= loaded.update(3, (old(self)@.display_start - 16) as u32).update(6, stack_org));
        Ok(())
    }

    /// The I/O access the next instruction makes, if any (see [`io_access`]).
    pub fn pending_io(&self) -> (a: Option<IoAccess>)
        requires
            self.wf(),
        ensures
            a == io_access(self@),
    {
        let ir: u32;
        if self.pc < self.mem_size / 4 {
            ir = self.ram[self.pc as usize];
        } else if self.pc >= ROM_START / 4 && self.pc < ROM_START / 4 + ROM_WORDS as u32 {
            ir = self.rom[(self.pc - ROM_START / 4) as usize];
        } else {
            return None;
        }
        if ir & PBIT == 0 || ir & QBIT != 0 {
            return None;
        }
        let a = (ir & 0x0F00_0000) >> 24u32;
        let b = (ir & 0x00F0_0000) >> 20u32;
        proof {
            lemma_fields_small(ir);
        }
        let off = ((ir & 0x000F_FFFF) ^ 0x0008_0000).wrapping_sub(0x0008_0000);
        let address = self.r[b as usize].wrapping_add(off);
        if address < self.mem_size {
            None
        } else if ir & UBIT == 0 {
            Some(IoAccess::Load { address, reg: a, byte: ir & VBIT != 0 })
        } else if ir & VBIT == 0 {
            Some(IoAccess::Store { address, value: self.r[a as usize] })
        } else {
            Some(IoAccess::Store { address, value: self.r[a as usize] & 0xFF })
        }
    }

    /// Execute the next instruction, which reaches no I/O register.
    pub fn step_without_io(&mut self)
        requires
            old(self).wf(),
            io_access(old(self)@) is None,
        ensures
            final(self).wf(),
            final(self)@ == step(old(self)@, 0),
    {
        let dev = self.single_step();
        proof {
            lemma_no_io_no_device(old(self)@, dev@);
        }
    }

    /// Finish the next instruction, the I/O load `Load { address, reg, byte }`,
    /// with the word `v` read from that I/O address elsewhere.
    pub fn finish_io_load(&mut self, address: u32, reg: u32, byte: bool, v: u32)
        requires
            old(self).wf(),
            io_access(old(self)@) == Some(IoAccess::Load { address, reg, byte }),
        ensures
            final(self).wf(),
            final(self)@ == io_load_done(old(self)@, reg, address, byte, v),
    {
        assert(reg < 16) by {
            lemma_fields_small(fetch(old(self)@)->0);
        }
        self.pc = self.pc + 1;
        let val = if byte {
            let k = address % 4;
            let b = (v >> (k * 8)) & 0xFF;
            assert(b == byte_of(v, k) as u32) by (bit_vector)
                requires k < 4, b == (v >> (k * 8)) & 0xFF;
            b
        } else {
            v
        };
        self.set_register(reg, val);
    }

    /// Finish an I/O store whose value went elsewhere: the program counter
    /// moves on.
    pub fn finish_io_store(&mut self)
        requires
            old(self).wf(),
            old(self)@.pc < 0xFFFF_FFFF,
        ensures
            final(self).wf(),
            final(self)@ == (MachineState { pc: (old(self)@.pc + 1) as u32, ..old(self)@ }),
    {
        self.pc = self.pc + 1;
    }

    /// Put `ram` in place of the machine's RAM and hand the old RAM back (to
    /// lend it to the shim host for a syscall).
    pub fn swap_ram(&mut self, ram: Vec<u32>) -> (old_ram: Vec<u32>)
        ensures
            final(self)@ == (MachineState { ram: ram@, ..old(self)@ }),
            old_ram@ == old(self)@.ram,
    {
        let mut r = ram;
        std::mem::swap(&mut self.ram, &mut r);
        r
    }
}

} // verus!
