use std::cell::RefCell;
use std::rc::Rc;

use risc_core::fp::idiv;
use risc_core::io::{Clipboard, Led, Serial, Spi};
use risc_core::risc::{ByteAddr, Damage, Op, Risc, DEFAULT_DISPLAY_START, IO_START, ROM_START};

// The opcodes under their ISA mnemonics, for terse instruction encoding.
use risc_core::risc::Op::{
    Add as ADD, And as AND, Ann as ANN, Asr as ASR, Div as DIV, Fsb as FSB, Ior as IOR,
    Lsl as LSL, Mov as MOV, Mul as MUL, Ror as ROR, Sub as SUB, Xor as XOR,
};

/// Encode a register-format instruction. `ci` is the c register index (when
/// `q == 0`) or the 16-bit immediate (when `q == 1`).
fn reg(q: u32, u: u32, v: u32, a: u32, b: u32, op: Op, ci: u32) -> u32 {
    (q << 30) | (u << 29) | (v << 28) | (a << 24) | (b << 20) | ((op as u32) << 16) | ci
}
/// Encode a memory-format instruction. `u`: 0 = load, 1 = store. `v`: 0 = word, 1 = byte.
fn mem(u: u32, v: u32, a: u32, b: u32, off: u32) -> u32 {
    0x8000_0000 | (u << 29) | (v << 28) | (a << 24) | (b << 20) | (off & 0x000F_FFFF)
}
/// Encode an immediate (PC-relative) branch.
fn br_imm(negate: u32, cond: u32, link: u32, off: u32) -> u32 {
    0xE000_0000 | (link << 28) | (negate << 27) | (cond << 24) | (off & 0x00FF_FFFF)
}
/// Encode a register (indirect) branch.
fn br_reg(negate: u32, cond: u32, link: u32, c: u32) -> u32 {
    0xC000_0000 | (link << 28) | (negate << 27) | (cond << 24) | (c & 0xF)
}

// The state vector is [PC, R0..R15, H, flags], flags packed Z | N<<1 | C<<2 | V<<3.
const FZ: u32 = 1;
const FN: u32 = 2;
const FC: u32 = 4;
const FV: u32 = 8;

fn edit(r: &mut Risc, f: impl FnOnce(&mut [u32; 19])) {
    let mut st = r.cosim_dump_state();
    f(&mut st);
    r.cosim_set_state(&st);
}
fn set_pc(r: &mut Risc, pc: u32) {
    edit(r, |st| st[0] = pc);
}
fn set_reg(r: &mut Risc, i: usize, v: u32) {
    edit(r, |st| st[1 + i] = v);
}
fn set_h(r: &mut Risc, v: u32) {
    edit(r, |st| st[17] = v);
}
fn set_flag(r: &mut Risc, flag: u32, on: bool) {
    edit(r, |st| st[18] = if on { st[18] | flag } else { st[18] & !flag });
}
fn pc(r: &Risc) -> u32 {
    r.cosim_dump_state()[0]
}
fn rg(r: &Risc, i: usize) -> u32 {
    r.cosim_dump_state()[1 + i]
}
fn h(r: &Risc) -> u32 {
    r.cosim_dump_state()[17]
}
fn flag(r: &Risc, f: u32) -> bool {
    r.cosim_dump_state()[18] & f != 0
}

/// Fresh machine executing from RAM word 0.
fn cpu() -> Risc {
    let mut r = Risc::new();
    set_pc(&mut r, 0);
    r
}

// ---- MOV ----

#[test]
fn mov_immediate() {
    let mut r = cpu();
    r.cosim_ram_write(0, reg(1, 0, 0, 1, 0, MOV, 0x1234));
    r.cosim_step();
    assert_eq!(rg(&r, 1), 0x1234);
    assert!(!flag(&r, FZ) && !flag(&r, FN));
    assert_eq!(pc(&r), 1);
}

#[test]
fn mov_immediate_sign_extended() {
    let mut r = cpu();
    // q=1, v=1 -> c_val = 0xFFFF0000 | im.
    r.cosim_ram_write(0, reg(1, 0, 1, 1, 0, MOV, 0x8000));
    r.cosim_step();
    assert_eq!(rg(&r, 1), 0xFFFF_8000);
    assert!(flag(&r, FN) && !flag(&r, FZ));
}

#[test]
fn mov_high_shifts_left_16() {
    let mut r = cpu();
    r.cosim_ram_write(0, reg(1, 1, 0, 1, 0, MOV, 0x1234));
    r.cosim_step();
    assert_eq!(rg(&r, 1), 0x1234_0000);
}

#[test]
fn mov_register() {
    let mut r = cpu();
    // MOV moves the c operand: R1 = R3 (the b field is unused).
    r.cosim_ram_write(0, reg(0, 0, 0, 1, 0, MOV, 3));
    set_reg(&mut r, 3, 0xCAFE);
    r.cosim_step();
    assert_eq!(rg(&r, 1), 0xCAFE);
}

#[test]
fn mov_flags_quirk() {
    let mut r = cpu();
    // q=0, u=1, v=1 -> 0x53 | NZCV (the RISC5 hardware's low byte).
    r.cosim_ram_write(0, reg(0, 1, 1, 1, 0, MOV, 0));
    set_flag(&mut r, FN, true);
    set_flag(&mut r, FC, true);
    r.cosim_step();
    assert_eq!(rg(&r, 1), 0x53 | 0x8000_0000 | 0x2000_0000);
}

#[test]
fn mov_flags_read_is_hardware_0x53() {
    let mut r = cpu();
    r.cosim_ram_write(0, reg(0, 1, 1, 1, 0, MOV, 0));
    set_flag(&mut r, FZ, true);
    set_flag(&mut r, FV, true);
    r.cosim_step();
    assert_eq!(rg(&r, 1), 0x53 | 0x4000_0000 | 0x1000_0000);
}

#[test]
fn mov_h_register() {
    let mut r = cpu();
    // q=0, u=1, v=0 -> R = H.
    r.cosim_ram_write(0, reg(0, 1, 0, 1, 0, MOV, 0));
    set_h(&mut r, 0x9ABC_DEF0);
    r.cosim_step();
    assert_eq!(rg(&r, 1), 0x9ABC_DEF0);
}

// ---- Shifts / logical ----

#[test]
fn lsl() {
    let mut r = cpu();
    r.cosim_ram_write(0, reg(0, 0, 0, 1, 2, LSL, 3));
    set_reg(&mut r, 2, 0x1);
    set_reg(&mut r, 3, 4);
    r.cosim_step();
    assert_eq!(rg(&r, 1), 0x10);
}

#[test]
fn asr_sign_fill() {
    let mut r = cpu();
    r.cosim_ram_write(0, reg(0, 0, 0, 1, 2, ASR, 3));
    set_reg(&mut r, 2, 0x8000_0000);
    set_reg(&mut r, 3, 4);
    r.cosim_step();
    assert_eq!(rg(&r, 1), 0xF800_0000);
}

#[test]
fn ror_wraps() {
    let mut r = cpu();
    r.cosim_ram_write(0, reg(0, 0, 0, 1, 2, ROR, 3));
    set_reg(&mut r, 2, 0x0000_000F);
    set_reg(&mut r, 3, 4);
    r.cosim_step();
    assert_eq!(rg(&r, 1), 0xF000_0000);
}

#[test]
fn logical_ops() {
    for (op, want) in [
        (AND, 0x0F00 & 0x00F0),
        (ANN, 0x0F00 & !0x00F0),
        (IOR, 0x0F00 | 0x00F0),
        (XOR, 0x0F00 ^ 0x00F0),
    ] {
        let mut r = cpu();
        r.cosim_ram_write(0, reg(0, 0, 0, 1, 2, op, 3));
        set_reg(&mut r, 2, 0x0F00);
        set_reg(&mut r, 3, 0x00F0);
        r.cosim_step();
        assert_eq!(rg(&r, 1), want, "op {op:?}");
    }
}

// ---- ADD / SUB flags ----

#[test]
fn add_signed_overflow() {
    let mut r = cpu();
    r.cosim_ram_write(0, reg(0, 0, 0, 1, 2, ADD, 3));
    set_reg(&mut r, 2, 0x7FFF_FFFF);
    set_reg(&mut r, 3, 1);
    r.cosim_step();
    assert_eq!(rg(&r, 1), 0x8000_0000);
    assert!(flag(&r, FV), "signed overflow");
    assert!(!flag(&r, FC), "no unsigned carry");
    assert!(flag(&r, FN) && !flag(&r, FZ));
}

#[test]
fn add_unsigned_carry() {
    let mut r = cpu();
    r.cosim_ram_write(0, reg(0, 0, 0, 1, 2, ADD, 3));
    set_reg(&mut r, 2, 0xFFFF_FFFF);
    set_reg(&mut r, 3, 1);
    r.cosim_step();
    assert_eq!(rg(&r, 1), 0);
    assert!(flag(&r, FC), "unsigned carry");
    assert!(!flag(&r, FV));
    assert!(flag(&r, FZ) && !flag(&r, FN));
}

#[test]
fn add_with_carry_in() {
    let mut r = cpu();
    r.cosim_ram_write(0, reg(0, 1, 0, 1, 2, ADD, 3)); // u=1 -> add carry
    set_reg(&mut r, 2, 1);
    set_reg(&mut r, 3, 1);
    set_flag(&mut r, FC, true);
    r.cosim_step();
    assert_eq!(rg(&r, 1), 3);
}

#[test]
fn sub_signed_overflow() {
    let mut r = cpu();
    r.cosim_ram_write(0, reg(0, 0, 0, 1, 2, SUB, 3));
    set_reg(&mut r, 2, 0x8000_0000);
    set_reg(&mut r, 3, 1);
    r.cosim_step();
    assert_eq!(rg(&r, 1), 0x7FFF_FFFF);
    assert!(flag(&r, FV), "signed overflow");
    assert!(!flag(&r, FC));
}

#[test]
fn sub_borrow_sets_carry() {
    let mut r = cpu();
    r.cosim_ram_write(0, reg(0, 0, 0, 1, 2, SUB, 3));
    set_reg(&mut r, 2, 0);
    set_reg(&mut r, 3, 1);
    r.cosim_step();
    assert_eq!(rg(&r, 1), 0xFFFF_FFFF);
    assert!(flag(&r, FC), "borrow");
}

// ---- MUL / DIV ----

#[test]
fn mul_signed_high() {
    let mut r = cpu();
    r.cosim_ram_write(0, reg(0, 0, 0, 1, 2, MUL, 3));
    set_reg(&mut r, 2, (-2i32) as u32);
    set_reg(&mut r, 3, 3);
    r.cosim_step();
    assert_eq!(rg(&r, 1), (-6i32) as u32);
    assert_eq!(h(&r), 0xFFFF_FFFF); // sign-extended high word
}

#[test]
fn mul_unsigned_high() {
    let mut r = cpu();
    r.cosim_ram_write(0, reg(0, 1, 0, 1, 2, MUL, 3)); // u=1 -> unsigned
    set_reg(&mut r, 2, 0x1_0000);
    set_reg(&mut r, 3, 0x1_0000);
    r.cosim_step();
    assert_eq!(rg(&r, 1), 0);
    assert_eq!(h(&r), 1);
}

#[test]
fn div_signed_floors_with_positive_divisor() {
    let mut r = cpu();
    r.cosim_ram_write(0, reg(0, 0, 0, 1, 2, DIV, 3));
    set_reg(&mut r, 2, (-7i32) as u32);
    set_reg(&mut r, 3, 2);
    r.cosim_step();
    assert_eq!(rg(&r, 1), (-4i32) as u32); // floored
    assert_eq!(h(&r), 1);
}

#[test]
fn div_unsigned() {
    let mut r = cpu();
    r.cosim_ram_write(0, reg(0, 1, 0, 1, 2, DIV, 3)); // u=1
    set_reg(&mut r, 2, 17);
    set_reg(&mut r, 3, 5);
    r.cosim_step();
    assert_eq!(rg(&r, 1), 3);
    assert_eq!(h(&r), 2);
}

#[test]
fn div_nonpositive_divisor_uses_idiv() {
    let mut r = cpu();
    r.cosim_ram_write(0, reg(0, 0, 0, 1, 2, DIV, 3)); // signed
    set_reg(&mut r, 2, 7);
    set_reg(&mut r, 3, (-2i32) as u32); // c_val <= 0 -> idiv path
    r.cosim_step();
    let q = idiv(7, (-2i32) as u32, false);
    assert_eq!((rg(&r, 1), h(&r)), (q.quot, q.rem));
}

// ---- FP dispatch (FSB sign flip) ----

#[test]
fn fsb_flips_operand_sign() {
    let mut r = cpu();
    r.cosim_ram_write(0, reg(0, 0, 0, 1, 2, FSB, 3));
    set_reg(&mut r, 2, 0x4000_0000); // 2.0
    set_reg(&mut r, 3, 0x3F80_0000); // 1.0
    r.cosim_step();
    // 2.0 - 1.0 == 1.0
    assert_eq!(rg(&r, 1), 0x3F80_0000);
}

// ---- Memory ----

#[test]
fn store_then_load_word() {
    let mut r = cpu();
    r.cosim_ram_write(0, mem(1, 0, 1, 2, 0)); // store R1 -> [R2]
    r.cosim_ram_write(1, mem(0, 0, 3, 2, 0)); // load [R2] -> R3
    set_reg(&mut r, 1, 0xDEAD_BEEF);
    set_reg(&mut r, 2, 0x100);
    r.cosim_step();
    r.cosim_step();
    assert_eq!(rg(&r, 3), 0xDEAD_BEEF);
}

#[test]
fn mem_offset_sign_extends() {
    let mut r = cpu();
    // load [R2 + (-4)] -> R1. off field 0xFFFFC == -4 (20-bit).
    r.cosim_ram_write(0, mem(0, 0, 1, 2, 0xFFFFC));
    set_reg(&mut r, 2, 0x200);
    r.cosim_ram_write(0x1FC / 4, 0x1234_5678);
    r.cosim_step();
    assert_eq!(rg(&r, 1), 0x1234_5678);
}

#[test]
fn store_byte_rmw_little_endian() {
    let mut r = cpu();
    r.cosim_ram_write(0x40, 0x1122_3344); // address 0x100
    r.store_byte(ByteAddr(0x100), 0xAB);
    assert_eq!(r.cosim_ram_read(0x40), 0x1122_33AB, "low byte replaced, others kept");
    r.store_byte(ByteAddr(0x102), 0xEE);
    assert_eq!(r.cosim_ram_read(0x40), 0x11EE_33AB, "byte 2 replaced");
}

#[test]
fn load_byte_little_endian() {
    let mut r = cpu();
    r.cosim_ram_write(0x40, 0x1122_3344);
    assert_eq!(r.load_byte(ByteAddr(0x100)), 0x44);
    assert_eq!(r.load_byte(ByteAddr(0x101)), 0x33);
    assert_eq!(r.load_byte(ByteAddr(0x102)), 0x22);
    assert_eq!(r.load_byte(ByteAddr(0x103)), 0x11);
}

// ---- Branches ----

#[test]
fn branch_taken_forward() {
    let mut r = cpu();
    r.cosim_ram_write(0, br_imm(0, 7, 0, 5)); // unconditional, +5
    r.cosim_step();
    assert_eq!(pc(&r), 6); // 0 -> +1 (fetch) -> +5
}

#[test]
fn branch_taken_backward() {
    let mut r = cpu();
    set_pc(&mut r, 10);
    r.cosim_ram_write(10, br_imm(0, 7, 0, 0xFFFFFB)); // -5 (24-bit)
    r.cosim_step();
    assert_eq!(pc(&r), 6); // 10 -> +1 -> -5
}

#[test]
fn branch_not_taken() {
    let mut r = cpu();
    r.cosim_ram_write(0, br_imm(0, 1, 0, 5)); // cond Z, Z=false -> not taken
    set_flag(&mut r, FZ, false);
    r.cosim_step();
    assert_eq!(pc(&r), 1);
}

#[test]
fn branch_register_indirect() {
    let mut r = cpu();
    r.cosim_ram_write(0, br_reg(0, 7, 0, 3));
    set_reg(&mut r, 3, 0x40); // byte address -> PC = 0x40/4 = 0x10
    r.cosim_step();
    assert_eq!(pc(&r), 0x10);
}

#[test]
fn branch_with_link_saves_return() {
    let mut r = cpu();
    r.cosim_ram_write(0, br_imm(0, 7, 1, 5)); // link
    r.cosim_step();
    assert_eq!(rg(&r, 15), 4); // PC (1) * 4
    assert_eq!(pc(&r), 6);
}

#[test]
fn branched_into_void_resets() {
    let mut r = cpu();
    set_pc(&mut r, 0x8_0000); // past RAM, below ROM -> the void
    r.cosim_step();
    assert_eq!(pc(&r), ROM_START / 4);
}

// ---- Framebuffer damage ----

#[test]
fn store_to_display_marks_damage() {
    let mut r = cpu();
    let _ = r.framebuffer_damage(); // clear initial full-screen damage
    r.store_word(ByteAddr(DEFAULT_DISPLAY_START), 0x0000_00FF);
    let d = r.framebuffer_damage();
    assert_eq!(
        d,
        Damage {
            x1: 0,
            x2: 0,
            y1: 0,
            y2: 0
        }
    );
    assert_eq!(r.framebuffer()[0], 0x0000_00FF);
}

// ---- MMIO ----

#[test]
fn mmio_millisecond_counter_decrements_progress() {
    let mut r = cpu();
    r.set_time(0x0001_2345);
    r.set_progress(20);
    assert_eq!(r.load_io(IO_START), 0x0001_2345);
    assert_eq!(r.progress(), 19);
}

#[test]
fn mmio_switches() {
    let mut r = cpu();
    r.set_switches(1);
    assert_eq!(r.load_io(IO_START + 4), 1);
}

#[test]
fn mmio_spi_default_reads_255() {
    let mut r = cpu();
    assert_eq!(r.load_io(IO_START + 16), 255);
    assert_eq!(r.load_io(IO_START + 20), 1); // status: rx ready
}

#[test]
fn mmio_keyboard_and_mouse_status() {
    let mut r = cpu();
    r.set_progress(20);
    // No keys: status bit clear, progress decremented.
    assert_eq!(r.load_io(IO_START + 24) & 0x1000_0000, 0);
    assert_eq!(r.progress(), 19);
    // Enqueue scancodes.
    r.keyboard_input(&[0x1C, 0x32]);
    assert_eq!(
        r.load_io(IO_START + 24) & 0x1000_0000,
        0x1000_0000,
        "ready bit"
    );
    assert_eq!(r.load_io(IO_START + 28), 0x1C);
    assert_eq!(r.load_io(IO_START + 28), 0x32);
    assert_eq!(r.load_io(IO_START + 28), 0, "drained");
}

#[test]
fn mouse_packing_and_buttons() {
    let mut r = cpu();
    r.mouse_moved(0x123, 0x456);
    assert_eq!(
        r.load_io(IO_START + 24) & 0x00FF_FFFF,
        (0x456 << 12) | 0x123
    );
    r.mouse_button(1, true); // left -> bit 1<<(27-1)=26
    assert_eq!(r.load_io(IO_START + 24) & (1 << 26), 1 << 26);
    r.mouse_button(1, false);
    assert_eq!(r.load_io(IO_START + 24) & (1 << 26), 0);
    // Out-of-range coordinates are ignored.
    r.mouse_moved(-1, 9999);
    assert_eq!(
        r.load_io(IO_START + 24) & 0x00FF_FFFF,
        (0x456 << 12) | 0x123
    );
}

// Devices recording dispatch, observable via a shared log.
type Log = Rc<RefCell<Vec<(char, u32)>>>;

struct RecSerial(Log, u32);
impl Serial for RecSerial {
    fn read_status(&mut self) -> u32 {
        self.0.borrow_mut().push(('S', 0));
        self.1
    }
    fn read_data(&mut self) -> u32 {
        self.0.borrow_mut().push(('s', 0));
        self.1
    }
    fn write_data(&mut self, v: u32) {
        self.0.borrow_mut().push(('w', v));
    }
}

struct RecSpi(Log, u32);
impl Spi for RecSpi {
    fn read_data(&mut self) -> u32 {
        self.0.borrow_mut().push(('r', 0));
        self.1
    }
    fn write_data(&mut self, v: u32) {
        self.0.borrow_mut().push(('x', v));
    }
}

struct RecLed(Log);
impl Led for RecLed {
    fn write(&mut self, v: u32) {
        self.0.borrow_mut().push(('l', v));
    }
}

struct RecClip(Log);
impl Clipboard for RecClip {
    fn read_control(&mut self) -> u32 {
        self.0.borrow_mut().push(('C', 0));
        10
    }
    fn write_control(&mut self, v: u32) {
        self.0.borrow_mut().push(('c', v));
    }
    fn read_data(&mut self) -> u32 {
        self.0.borrow_mut().push(('D', 0));
        20
    }
    fn write_data(&mut self, v: u32) {
        self.0.borrow_mut().push(('d', v));
    }
}

#[test]
fn mmio_dispatches_to_devices_by_offset() {
    let log: Log = Rc::new(RefCell::new(Vec::new()));
    let mut r = cpu();
    r.set_serial(Box::new(RecSerial(log.clone(), 0xAB)));
    r.set_leds(Box::new(RecLed(log.clone())));
    r.set_clipboard(Box::new(RecClip(log.clone())));

    // Serial: offset 8 = data, 12 = status.
    assert_eq!(r.load_io(IO_START + 8), 0xAB);
    assert_eq!(r.load_io(IO_START + 12), 0xAB);
    r.store_io(IO_START + 8, 0x55);

    // SPI: select slave 1, then attach a device there.
    r.store_io(IO_START + 20, 1);
    assert_eq!(r.spi_selected(), 1);
    r.set_spi(1, Box::new(RecSpi(log.clone(), 0xCD)));
    assert_eq!(r.load_io(IO_START + 16), 0xCD);
    r.store_io(IO_START + 16, 0x99);

    // LEDs: offset 4 (write only).
    r.store_io(IO_START + 4, 0xF0);

    // Clipboard: 40 = control, 44 = data.
    assert_eq!(r.load_io(IO_START + 40), 10);
    assert_eq!(r.load_io(IO_START + 44), 20);
    r.store_io(IO_START + 40, 7);
    r.store_io(IO_START + 44, 0x41);

    let log = log.borrow();
    assert_eq!(
        *log,
        vec![
            ('s', 0),
            ('S', 0),
            ('w', 0x55),
            ('r', 0),
            ('x', 0x99),
            ('l', 0xF0),
            ('C', 0),
            ('D', 0),
            ('c', 7),
            ('d', 0x41),
        ]
    );
}

#[test]
fn set_spi_ignores_invalid_index() {
    let log: Log = Rc::new(RefCell::new(Vec::new()));
    let mut r = cpu();
    r.set_spi(0, Box::new(RecSpi(log.clone(), 1)));
    r.set_spi(3, Box::new(RecSpi(log.clone(), 1)));
    assert!(!r.spi_attached(0));
    assert!(!r.spi_attached(3));
}

#[test]
fn configure_memory_patches_rom_and_resizes() {
    let mut r = Risc::new();
    r.configure_memory(2, 800, 600);
    assert_eq!(r.display_start(), 2 << 20);
    assert_eq!(r.mem_size(), (2 << 20) + 800 * 600 / 8);
    assert_eq!(r.fb_width(), 800 / 32);
    assert_eq!(r.fb_height(), 600);
    // The magic words land at the default display start.
    let d = (DEFAULT_DISPLAY_START / 4) as usize;
    assert_eq!(r.cosim_ram_read(d), 0x5369_7A67);
    assert_eq!(r.cosim_ram_read(d + 1), 800);
    assert_eq!(r.cosim_ram_read(d + 2), 600);
    assert_eq!(r.cosim_ram_read(d + 3), 2 << 20);
    // Megabytes clamp to [1, 32].
    r.configure_memory(0, 1024, 768);
    assert_eq!(r.display_start(), 1 << 20);
    r.configure_memory(99, 1024, 768);
    assert_eq!(r.display_start(), 32 << 20);
}

#[test]
fn reset_jumps_to_rom() {
    let mut r = Risc::new();
    assert_eq!(pc(&r), ROM_START / 4);
    set_pc(&mut r, 0);
    r.reset();
    assert_eq!(pc(&r), ROM_START / 4);
}

// ---- Further behaviour ----

#[test]
fn a_stored_word_reads_back() {
    let mut r = cpu();
    r.store_word(ByteAddr(0x400), 0xCAFE_F00D);
    assert_eq!(r.load_word(ByteAddr(0x400)), 0xCAFE_F00D);
    r.store_byte(ByteAddr(0x401), 0x12);
    assert_eq!(r.load_byte(ByteAddr(0x401)), 0x12);
    assert_eq!(r.load_word(ByteAddr(0x400)), 0xCAFE_12_0D);
}

#[test]
fn loads_past_ram_go_to_the_io_ports() {
    let mut r = cpu();
    r.set_switches(5);
    assert_eq!(r.load_word(ByteAddr(IO_START + 4)), 5);
    assert_eq!(r.load_byte(ByteAddr(IO_START + 4)), 5);
}

#[test]
fn the_boot_rom_is_where_a_reset_fetches_from() {
    let mut rom = vec![0u32; 512];
    rom[0] = br_imm(0, 7, 0, 0xFFFFFF); // branch to itself
    let mut r = Risc::with_boot_rom(&rom);
    assert_eq!(r.rom_word(0), rom[0]);
    r.cosim_step();
    assert_eq!(pc(&r), ROM_START / 4);
}

#[test]
fn keyboard_input_that_does_not_fit_is_dropped_whole() {
    let mut r = cpu();
    let codes: Vec<u8> = (1..=16).collect();
    r.keyboard_input(&codes);
    r.keyboard_input(&[99]); // the queue is full: dropped
    for want in 1..=16u32 {
        assert_eq!(r.load_io(IO_START + 28), want);
    }
    assert_eq!(r.load_io(IO_START + 28), 0);
    r.keyboard_input(&[7; 17]); // longer than the queue: dropped
    assert_eq!(r.load_io(IO_START + 24) & 0x1000_0000, 0);
}

#[test]
fn run_stops_early_when_the_guest_idles() {
    let mut r = cpu();
    // LOAD R1 <- [IO_START] (the millisecond counter) forever: each poll uses
    // up a unit of progress, so the run ends well before the budget.
    // R2 = -64 (IO_START as a signed offset from 0)
    r.cosim_ram_write(0, reg(1, 0, 1, 2, 0, MOV, 0xFFC0));
    r.cosim_ram_write(1, mem(0, 0, 1, 2, 0));
    r.cosim_ram_write(2, br_imm(0, 7, 0, 0xFFFFFE)); // back to word 1
    r.run(1000);
    assert_eq!(r.progress(), 0);
    assert!(pc(&r) <= 3);
}

#[test]
fn cpu_state_mirrors_the_dumped_state() {
    let mut r = cpu();
    set_reg(&mut r, 5, 77);
    set_h(&mut r, 9);
    let st = r.cpu_state();
    assert_eq!(st.pc, 0);
    assert_eq!(st.r[5], 77);
    assert_eq!(st.h, 9);
}

#[test]
fn damage_after_several_stores_is_their_bounding_box() {
    let mut r = cpu();
    let _ = r.framebuffer_damage();
    let w = r.fb_width() as u32;
    let at = |col: u32, row: u32| ByteAddr(DEFAULT_DISPLAY_START + 4 * (row * w + col));
    r.store_word(at(3, 2), 0);
    r.store_byte(ByteAddr(at(1, 5).0 + 2), 0x5A);
    r.store_word(ByteAddr(0x100), 7); // below the display: no damage
    let d = r.framebuffer_damage();
    assert_eq!(d, Damage { x1: 1, x2: 3, y1: 2, y2: 5 });
    let empty = r.framebuffer_damage();
    assert_eq!(empty, Damage { x1: r.fb_width(), x2: 0, y1: r.fb_height(), y2: 0 });
}
