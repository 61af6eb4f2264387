use std::cell::RefCell;
use std::collections::BTreeMap;
use std::rc::Rc;

use risc_core::risc::{BootError, Risc};
use risc_core::shim::{
    read_name, run_shim, trap_message, valid_name, Host, ShimEnv, ShimMem, ShimOutcome, NAME_LEN, OBERON_DATE,
};

/// A working directory held in memory (and no search path), with a console.
#[derive(Default)]
struct MemEnv {
    files: Rc<RefCell<BTreeMap<String, Vec<u8>>>>,
    out: Rc<RefCell<Vec<u8>>>,
    input: Vec<u8>,
}

impl ShimEnv for MemEnv {
    fn clock_ms(&mut self) -> u32 {
        42
    }
    fn getchar(&mut self) -> u32 {
        if self.input.is_empty() {
            u32::MAX
        } else {
            self.input.remove(0) as u32
        }
    }
    fn putchar(&mut self, b: u8) {
        self.out.borrow_mut().push(b);
    }
    fn find(&mut self, name: &str) -> Option<(Vec<u8>, bool)> {
        self.files.borrow().get(name).map(|d| (d.clone(), true))
    }
    fn save(&mut self, name: &str, data: &[u8]) -> bool {
        self.files.borrow_mut().insert(name.to_string(), data.to_vec());
        true
    }
    fn delete(&mut self, name: &str) -> bool {
        self.files.borrow_mut().remove(name).is_some()
    }
    fn rename(&mut self, old: &str, new: &str) -> bool {
        let mut files = self.files.borrow_mut();
        match files.remove(old) {
            Some(d) => {
                files.insert(new.to_string(), d);
                true
            }
            None => false,
        }
    }
    fn list(&mut self) -> Vec<String> {
        self.files.borrow().keys().cloned().collect()
    }
}

// --- ShimMem: byte addressing over the guest's word array ---

#[test]
fn shimmem_packs_bytes_little_endian() {
    let mut mem = ShimMem::new(vec![0u32; 1]);
    mem.write_byte(0, 0x00);
    mem.write_byte(1, 0x11);
    mem.write_byte(2, 0x22);
    mem.write_byte(3, 0x33);
    let ram = mem.into_ram();
    assert_eq!(ram[0], 0x3322_1100); // little-endian within the word
}

#[test]
fn shimmem_write_byte_preserves_neighbors() {
    let mut mem = ShimMem::new(vec![0xFFFF_FFFFu32]);
    mem.write_byte(2, 0x00); // clear only the third byte
    assert_eq!(mem.read_byte(2), 0x00);
    assert_eq!(mem.read_byte(3), 0xFF);
    let ram = mem.into_ram();
    assert_eq!(ram[0], 0xFF00_FFFF);
}

#[test]
fn shimmem_bytes_round_trip_across_a_word_boundary() {
    let mut mem = ShimMem::new(vec![0u32; 4]);
    let src = [1u8, 2, 3, 4, 5, 6]; // 6 bytes from adr 2 spans two words
    mem.write_bytes(2, &src);
    let mut got = [0u8; 6];
    mem.read_bytes(2, &mut got);
    assert_eq!(got, src);
}

// --- name validation (read_name reads guest memory; valid_name is pure) ---

fn name_at_zero(bytes: &[u8]) -> Option<String> {
    let mut mem = ShimMem::new(vec![0u32; NAME_LEN]); // ample room
    mem.write_bytes(0, bytes);
    read_name(&mem, 0)
}

#[test]
fn read_name_stops_at_the_nul() {
    assert_eq!(
        name_at_zero(b"Kernel.Mod\0junk").as_deref(),
        Some("Kernel.Mod")
    );
}

#[test]
fn read_name_empty_is_ok_but_unterminated_is_rejected() {
    assert_eq!(name_at_zero(b"\0").as_deref(), Some("")); // leading NUL
    assert_eq!(name_at_zero(&[b'A'; NAME_LEN]), None); // no terminator in 32 bytes
}

#[test]
fn read_name_rejects_illegal_chars() {
    assert_eq!(name_at_zero(b"a/b\0"), None); // path separator
    assert_eq!(name_at_zero(b"9bad\0"), None); // leading digit
}

#[test]
fn valid_name_enforces_length_and_charset() {
    assert!(valid_name(b"Oberon10.Scn.Fnt"));
    assert!(!valid_name(b"")); // empty
    assert!(!valid_name(&[b'A'; NAME_LEN])); // >= NAME_LEN
    assert!(!valid_name(b"bad name")); // space is illegal
}

// --- Host file ABI, exercised directly (no CPU, no disk) ---

fn host() -> Host {
    Host::new(Box::new(MemEnv::default()), vec![])
}

#[test]
fn files_new_write_seek_read_round_trips_in_memory() {
    let mut mem = ShimMem::new(vec![0u32; 64]);
    mem.write_bytes(0, b"Scratch\0");
    let mut h = host();
    let fd = h.files_new(0, &mem);
    assert_ne!(fd, u32::MAX);

    let payload = b"hello oberon";
    mem.write_bytes(64, payload);
    assert_eq!(
        h.files_write(fd, 64, payload.len() as u32, &mem),
        payload.len() as u32
    );

    h.files_seek(fd, 0, 0); // whence 0 = SET
    assert_eq!(
        h.files_read(fd, 128, payload.len() as u32, &mut mem),
        payload.len() as u32
    );
    let mut got = vec![0u8; payload.len()];
    mem.read_bytes(128, &mut got);
    assert_eq!(got, payload);
}

#[test]
fn files_read_past_eof_zero_fills() {
    let mut mem = ShimMem::new(vec![0u32; 64]);
    mem.write_bytes(0, b"Scratch\0");
    let mut h = host();
    let fd = h.files_new(0, &mem);
    mem.write_bytes(64, &[0xAA, 0xBB]);
    h.files_write(fd, 64, 2, &mem);
    h.files_seek(fd, 0, 0);

    mem.write_bytes(128, &[0xFF; 4]); // dirty the destination first
    assert_eq!(h.files_read(fd, 128, 4, &mut mem), 2); // only 2 available
    let mut got = [0u8; 4];
    mem.read_bytes(128, &mut got);
    assert_eq!(got, [0xAA, 0xBB, 0x00, 0x00]); // tail zero-filled
}

#[test]
fn files_new_rejects_an_illegal_name() {
    let mut mem = ShimMem::new(vec![0u32; 16]);
    mem.write_bytes(0, b"a/b\0");
    assert_eq!(host().files_new(0, &mem), u32::MAX);
}

#[test]
fn syscalls_survive_wild_guest_pointers_and_lengths() {
    // A bad pointer or length must not panic the host or balloon its
    // memory: out-of-range reads yield zeros, writes vanish, transfer
    // lengths clamp to guest RAM.
    let mut mem = ShimMem::new(vec![0u32; 16]); // 64 bytes of guest RAM
    assert_eq!(mem.read_byte(1 << 20), 0);
    mem.write_byte(1 << 20, 0xAB); // dropped

    let mut h = host();
    mem.write_bytes(0, b"Scratch\0");
    let fd = h.files_new(0, &mem);
    assert_ne!(fd, u32::MAX);
    // A huge read length clamps to RAM; the file is empty, so 0 bytes read.
    assert_eq!(h.files_read(fd, 0, u32::MAX, &mut mem), 0);
    // A name pointer outside RAM reads as all-NUL -> the empty (valid) name.
    assert_eq!(read_name(&mem, 1 << 20).as_deref(), Some(""));
}

#[test]
fn files_write_past_the_size_cap_is_refused() {
    let mut mem = ShimMem::new(vec![0u32; 64]);
    mem.write_bytes(0, b"Scratch\0");
    let mut h = host();
    let fd = h.files_new(0, &mem);
    // Seek to ~2 GiB and write: refused outright, not a 2 GiB zero-fill.
    h.files_seek(fd, i32::MAX as u32, 0); // whence 0 = SET
    assert_eq!(h.files_write(fd, 0, 4, &mem), 0);
    assert_eq!(h.file(fd).unwrap().data.len(), 0, "file must not grow");
}

#[test]
fn seek_tell_and_length_follow_the_file() {
    let mut mem = ShimMem::new(vec![0u32; 64]);
    mem.write_bytes(0, b"Scratch\0");
    mem.write_bytes(64, b"abcdef");
    let mut h = host();
    let fd = h.files_new(0, &mem);
    h.files_write(fd, 64, 6, &mem);
    assert_eq!(h.files_length(fd), 6);
    assert_eq!(h.files_tell(fd), 6);
    h.files_seek(fd, (-2i32) as u32, 2); // two back from the end
    assert_eq!(h.files_tell(fd), 4);
    h.files_seek(fd, 1, 1); // one on from here
    assert_eq!(h.files_tell(fd), 5);
    h.files_seek(fd, (-100i32) as u32, 1); // before the start clamps to 0
    assert_eq!(h.files_tell(fd), 0);
    // A closed or unknown handle answers u32::MAX.
    assert_eq!(h.files_close(fd), 0);
    assert_eq!(h.files_tell(fd), u32::MAX);
    assert_eq!(h.files_length(12345), u32::MAX);
}

#[test]
fn argc_and_argv_hand_out_the_arguments() {
    let mut mem = ShimMem::new(vec![0u32; 16]);
    let h = Host::new(
        Box::new(MemEnv::default()),
        vec!["ORP.Compile".to_string(), "Foo.Mod".to_string()],
    );
    assert_eq!(h.argc(), 2);
    assert_eq!(h.argv(1, 0, 32, &mut mem), 7);
    let mut got = [0u8; 8];
    mem.read_bytes(0, &mut got);
    assert_eq!(&got, b"Foo.Mod\0");
}

#[test]
fn traps_and_halts_set_the_exit_code() {
    let mut h = host();
    assert_eq!(h.exit_code(), None);
    h.trap(6);
    assert_eq!(h.exit_code(), Some(106));
    let mut h = host();
    h.halt(3);
    assert_eq!(h.exit_code(), Some(3));
    assert_eq!(trap_message(6), "integer division by zero");
    assert_eq!(trap_message(42), "unknown trap");
}

#[test]
fn enumeration_lists_only_legal_names() {
    let env = MemEnv::default();
    for n in ["A.Mod", "bad name", "B.Mod"] {
        env.files.borrow_mut().insert(n.to_string(), vec![]);
    }
    let mut mem = ShimMem::new(vec![0u32; 16]);
    let mut h = Host::new(Box::new(env), vec![]);
    assert_eq!(h.enumerate_begin(), 0);
    assert_eq!(h.enumerate_next(0, &mut mem), 0);
    assert_eq!(read_name(&mem, 0).as_deref(), Some("A.Mod"));
    assert_eq!(h.enumerate_next(0, &mut mem), 0);
    assert_eq!(read_name(&mem, 0).as_deref(), Some("B.Mod"));
    assert_ne!(h.enumerate_next(0, &mut mem), 0);
    assert_eq!(h.enumerate_end(), 0);
}

#[test]
fn registered_files_are_saved_and_found_again() {
    let env = MemEnv::default();
    let files = env.files.clone();
    let mut mem = ShimMem::new(vec![0u32; 64]);
    let mut h = Host::new(Box::new(env), vec![]);
    mem.write_bytes(0, b"Out.Txt\0");
    let fd = h.files_new(0, &mem);
    mem.write_bytes(64, b"data");
    assert_eq!(h.files_write(fd, 64, 4, &mem), 4);
    assert_eq!(h.files_register(fd), 0);
    assert_eq!(files.borrow().get("Out.Txt").unwrap(), b"data");
    // A write after registering is saved on close.
    mem.write_bytes(64, b"more");
    h.files_write(fd, 64, 4, &mem);
    assert_eq!(h.files_close(fd), 0);
    assert_eq!(files.borrow().get("Out.Txt").unwrap(), b"datamore");
    // Files.Old finds it.
    let fd = h.files_old(0, &mem);
    assert_ne!(fd, u32::MAX);
    assert_eq!(h.files_length(fd), 8);
    h.shutdown();
    assert_eq!(h.files_length(fd), u32::MAX);
}

#[test]
fn files_old_on_a_missing_file_returns_max() {
    let mut mem = ShimMem::new(vec![0u32; 16]);
    mem.write_bytes(0, b"Nope.Mod\0");
    assert_eq!(host().files_old(0, &mem), u32::MAX);
}

#[test]
fn delete_and_rename_reach_the_working_directory() {
    let env = MemEnv::default();
    env.files.borrow_mut().insert("A.Mod".to_string(), vec![1]);
    let files = env.files.clone();
    let mut mem = ShimMem::new(vec![0u32; 32]);
    let mut h = Host::new(Box::new(env), vec![]);
    mem.write_bytes(0, b"A.Mod\0");
    mem.write_bytes(32, b"B.Mod\0");
    assert_eq!(h.files_rename(0, 32, &mem), 0);
    assert!(files.borrow().contains_key("B.Mod"));
    assert_eq!(h.files_rename(0, 32, &mem), u32::MAX); // A.Mod is gone
    assert_eq!(h.files_delete(32, &mem), 0);
    assert!(files.borrow().is_empty());
    mem.write_bytes(0, b"\0");
    assert_eq!(h.files_delete(0, &mem), u32::MAX); // the empty name
}

#[test]
fn syscalls_run_through_the_io_ports() {
    let env = MemEnv { input: b"x".to_vec(), ..MemEnv::default() };
    let out = env.out.clone();
    let mut mem = ShimMem::new(vec![0u32; 64]);
    let mut h = Host::new(Box::new(env), vec!["ORP.Compile".to_string()]);
    // Argc: syscall 2.
    h.store(60, 2, &mut mem);
    assert_eq!(h.load(60), 1);
    // Argv(0) into a 16-byte buffer at 64: argument 0 (a0) at 56, a1 at 52, a2 at 48.
    h.store(56, 0, &mut mem);
    h.store(52, 64, &mut mem);
    h.store(48, 16, &mut mem);
    assert_eq!((h.load(56), h.load(52), h.load(48)), (0, 64, 16));
    h.store(60, 3, &mut mem);
    assert_eq!(h.load(60), 11);
    let mut got = [0u8; 12];
    mem.read_bytes(64, &mut got);
    assert_eq!(&got, b"ORP.Compile\0");
    // Files.Date is fixed; the console reads and writes bytes.
    h.store(60, 20, &mut mem);
    assert_eq!(h.load(60), OBERON_DATE);
    assert_eq!(h.load(8), b'x' as u32);
    assert_eq!(h.load(8), u32::MAX);
    h.store(8, b'!' as u32, &mut mem);
    assert_eq!(*out.borrow(), b"!");
    assert_eq!(h.load(12), 3);
    assert_eq!(h.load(0), 42);
    // Halt(a0 = 7).
    h.store(56, 7, &mut mem);
    h.store(60, 1, &mut mem);
    assert_eq!(h.exit_code(), Some(7));
}

#[test]
fn an_unknown_syscall_stops_the_guest() {
    let mut mem = ShimMem::new(vec![0u32; 4]);
    let mut h = host();
    h.store(60, 99, &mut mem);
    assert_eq!(h.exit_code(), Some(1));
    assert_eq!(h.load(60), 0);
}

// --- Shim mode: booting an inner core and running it against the host ---

/// An inner-core image: one block of `words` at address 0, then the end mark.
fn inner_core(words: &[u32]) -> Vec<u8> {
    let mut image = Vec::new();
    image.extend((words.len() as u32 * 4).to_le_bytes());
    image.extend(0u32.to_le_bytes());
    for w in words {
        image.extend(w.to_le_bytes());
    }
    image.extend(0u32.to_le_bytes());
    image
}

/// A program that puts `c` into console output, then halts with exit code 7:
/// word 0 branches over the boot loader's words 3 and 6.
fn halting_program() -> Vec<u32> {
    let mut w = vec![0u32; 14];
    w[0] = 0xE700_0007; // B +7 (to word 8)
    w[8] = 0x4100_0043; // MOV R1, 'C'
    w[9] = 0xA10F_FFC8; // STW R1, [R0 - 56]: console out (port 8)
    w[10] = 0x4100_0007; // MOV R1, 7
    w[11] = 0xA10F_FFF8; // STW R1, [R0 - 8]: syscall argument 0 (port 56)
    w[12] = 0x4100_0001; // MOV R1, 1
    w[13] = 0xA10F_FFFC; // STW R1, [R0 - 4]: syscall 1, halt (port 60)
    w
}

fn shim_machine() -> Risc {
    let mut risc = Risc::new();
    risc.configure_memory(8, 32, 0);
    risc
}

#[test]
fn boot_inner_core_loads_the_blocks_and_sets_up_the_registers() {
    let mut risc = shim_machine();
    risc.boot_inner_core(&inner_core(&halting_program()), 0x8_0000).unwrap();
    assert_eq!(risc.cosim_ram_read(0), 0xE700_0007);
    assert_eq!(risc.cosim_ram_read(13), 0xA10F_FFFC);
    assert_eq!(risc.cosim_ram_read(3), 8 * 1024 * 1024 - 16); // the memory limit
    assert_eq!(risc.cosim_ram_read(6), 0x8_0000); // the stack origin
    let st = risc.cpu_state();
    assert_eq!(st.pc, 0);
    assert_eq!(st.r[12], 0x20);
    assert_eq!(st.r[14], 0x8_0000);
}

#[test]
fn boot_inner_core_refuses_a_truncated_or_misplaced_image() {
    let mut risc = shim_machine();
    let image = inner_core(&halting_program());
    assert_eq!(risc.boot_inner_core(&image[..20], 0x8_0000), Err(BootError::Truncated));
    let mut bad = image.clone();
    bad[4..8].copy_from_slice(&2u32.to_le_bytes()); // unaligned address
    assert_eq!(risc.boot_inner_core(&bad, 0x8_0000), Err(BootError::BadBlock));
    assert_eq!(risc.cosim_ram_read(0), 0); // nothing was loaded
}

#[test]
fn run_shim_runs_the_guest_to_its_exit_code() {
    let mut risc = shim_machine();
    risc.boot_inner_core(&inner_core(&halting_program()), 0x8_0000).unwrap();
    let env = MemEnv::default();
    let out = env.out.clone();
    let mut host = Host::new(Box::new(env), vec![]);
    assert_eq!(run_shim(&mut risc, &mut host, 1000), ShimOutcome::Exited(7));
    assert_eq!(*out.borrow(), b"C".to_vec());
}

#[test]
fn run_shim_stops_when_the_budget_runs_out() {
    let mut risc = shim_machine();
    risc.boot_inner_core(&inner_core(&halting_program()), 0x8_0000).unwrap();
    let mut host = Host::new(Box::new(MemEnv::default()), vec![]);
    assert_eq!(run_shim(&mut risc, &mut host, 3), ShimOutcome::OutOfSteps);
    assert_eq!(run_shim(&mut risc, &mut host, 1000), ShimOutcome::Exited(7));
}

#[test]
fn run_shim_refuses_a_syscall_it_cannot_serve() {
    let mut w = halting_program();
    w[10] = 0x6100_7FFF; // MOV' R1, 0x7FFF (shifted up): R1 = 0x7FFF_0000
    w[11] = 0x4116_FFF0; // IOR R1, R1, 0xFFF0: a trap number whose exit code overflows
    w[12] = 0xA10F_FFF8; // STW R1, [R0 - 8]: syscall argument 0
    w[13] = 0x4100_0004; // MOV R1, 4: trap
    w.push(0xA10F_FFFC); // STW R1, [R0 - 4]: the syscall
    let mut risc = shim_machine();
    risc.boot_inner_core(&inner_core(&w), 0x8_0000).unwrap();
    let mut host = Host::new(Box::new(MemEnv::default()), vec![]);
    assert_eq!(run_shim(&mut risc, &mut host, 1000), ShimOutcome::Refused(4));
    assert_eq!(host.exit_code(), None);
    assert_eq!(risc.cpu_state().pc, 14); // stopped before the store
}

#[test]
fn shimmem_drops_bytes_past_the_address_space() {
    let mut mem = ShimMem::new(vec![0u32; 4]);
    mem.write_bytes(0xFFFF_FFFE, &[1, 2, 3, 4]);
    let mut buf = [9u8; 4];
    mem.read_bytes(0xFFFF_FFFE, &mut buf);
    assert_eq!(buf, [0, 0, 0, 0]);
    mem.write_bytes(14, &[7, 8, 9]); // the last two bytes of RAM, then past it
    let mut tail = [0u8; 3];
    mem.read_bytes(14, &mut tail);
    assert_eq!(tail, [7, 8, 0]);
}
