//! The headless shim's host side: byte access to the guest's RAM and the
//! `Kernel`/`Files`/`FileDir` syscall ABI the guest reaches through its I/O
//! ports (the open-file table, reads, writes, seeks, the directory listing),
//! over a working directory and search path that a [`ShimEnv`] provides.
//!
//! Everything the guest supplies is bounds-checked: out-of-RAM reads yield
//! zeros and writes are dropped, transfer lengths clamp to RAM, and a file is
//! capped at 1 GiB, so a corrupt inner core degrades into clean errors instead
//! of host faults. Every request made of the environment is recorded in the
//! host's state.
use vstd::prelude::*;

use crate::risc::{
    byte_of, io_access, io_load_done, lemma_replace_byte, replace_byte, step, sub32, IoAccess, MachineState, Risc,
    IO_START,
};
use crate::text::{push_char, latin1_chars};
use crate::{name_char_ok, name_char_spec};

verus! {

/// Maximum simultaneously open files.
pub const MAX_FILES: usize = 500;

/// Cap on a shim file's size (1 GiB).
pub const MAX_FILE_BYTES: usize = 0x4000_0000;

/// Oberon file-name length, terminator included.
pub const NAME_LEN: usize = 32;

/// The fixed Oberon-encoded date (2024-05-27 12:00:00) every file reports.
pub const OBERON_DATE: u32 = 0x6176_C000;

/// Largest guest RAM, in words, a `ShimMem` can hold (its byte size fits a `u32`).
pub const MAX_RAM_WORDS: usize = 0x4000_0000;

// ---------------------------------------------------------------------------
// Guest memory
// ---------------------------------------------------------------------------

/// Byte `adr` of the guest RAM `ram` (little-endian words); zero outside RAM.
pub open spec fn mem_byte(ram: Seq<u32>, adr: int) -> u8 {
    if 0 <= adr && adr / 4 < ram.len() {
        byte_of(ram[adr / 4], (adr % 4) as u32)
    } else {
        0
    }
}

/// `ram` with byte `adr` set to `v`; unchanged when `adr` is outside RAM.
pub open spec fn mem_write_byte(ram: Seq<u32>, adr: int, v: u8) -> Seq<u32> {
    if 0 <= adr && adr / 4 < ram.len() {
        ram.update(adr / 4, replace_byte(ram[adr / 4], (adr % 4) as u32, v))
    } else {
        ram
    }
}

/// `ram` with `bs` written byte by byte from `adr` on.
pub open spec fn mem_write_bytes(ram: Seq<u32>, adr: int, bs: Seq<u8>) -> Seq<u32>
    decreases bs.len(),
{
    if bs.len() == 0 {
        ram
    } else {
        mem_write_byte(mem_write_bytes(ram, adr, bs.drop_last()), adr + bs.len() - 1, bs.last())
    }
}

/// The `n` bytes of `ram` from `adr` on.
pub open spec fn mem_bytes(ram: Seq<u32>, adr: int, n: nat) -> Seq<u8> {
    Seq::new(n, |i: int| mem_byte(ram, adr + i))
}

/// A byte-addressable view of the guest's RAM words.
pub struct ShimMem {
    ram: Vec<u32>,
}

impl View for ShimMem {
    type V = Seq<u32>;

    closed spec fn view(&self) -> Seq<u32> {
        self.ram@
    }
}

impl ShimMem {
    /// Wrap the guest's RAM words.
    pub fn new(ram: Vec<u32>) -> (m: ShimMem)
        requires
            ram@.len() < MAX_RAM_WORDS,
        ensures
            m@ == ram@,
    {
        ShimMem { ram }
    }

    /// The guest RAM words, handed back.
    pub fn into_ram(self) -> (ram: Vec<u32>)
        ensures
            ram@ == self@,
    {
        self.ram
    }

    /// RAM word `i`.
    pub fn word(&self, i: usize) -> (w: u32)
        requires
            i < self@.len(),
        ensures
            w == self@[i as int],
    {
        self.ram[i]
    }

    /// Read the byte at `adr`; out-of-range reads yield 0, so a bad guest
    /// pointer cannot take the host down.
    pub fn read_byte(&self, adr: u32) -> (b: u8)
        ensures
            b == mem_byte(self@, adr as int),
    {
        let i = (adr / 4) as usize;
        if i < self.ram.len() {
            let k = adr % 4;
            ((self.ram[i] >> (k * 8)) & 0xFF) as u8
        } else {
            0
        }
    }

    /// Write the byte at `adr` (read-modify-write of its word); out-of-range
    /// writes are dropped.
    pub fn write_byte(&mut self, adr: u32, value: u8)
        ensures
            final(self)@ == mem_write_byte(old(self)@, adr as int, value),
            final(self)@.len() == old(self)@.len(),
    {
        let i = (adr / 4) as usize;
        if i < self.ram.len() {
            let shift = (adr % 4) * 8;
            let w = self.ram[i];
            self.ram.set(i, (w & !(0xFFu32 << shift)) | ((value as u32) << shift));
        }
    }

    /// Guest RAM size in bytes: the bound on any single transfer.
    pub fn len_bytes(&self) -> (n: usize)
        requires
            self@.len() < MAX_RAM_WORDS,
        ensures
            n == 4 * self@.len(),
    {
        self.ram.len() * 4
    }

    /// The byte at (unbounded) address `a`; 0 outside RAM.
    fn byte_at(&self, a: u128) -> (b: u8)
        ensures
            b == mem_byte(self@, a as int),
    {
        let i = a / 4;
        if i < self.ram.len() as u128 {
            let k = (a % 4) as u32;
            let w = self.ram[i as usize];
            let b = ((w >> (k * 8)) & 0xFF) as u8;
            assert(b == byte_of(w, k));
            b
        } else {
            0
        }
    }

    /// Set the byte at (unbounded) address `a`; dropped outside RAM.
    fn set_byte_at(&mut self, a: u128, value: u8)
        ensures
            final(self)@ == mem_write_byte(old(self)@, a as int, value),
            final(self)@.len() == old(self)@.len(),
    {
        let i = a / 4;
        if i < self.ram.len() as u128 {
            let k = (a % 4) as u32;
            let shift = k * 8;
            let w = self.ram[i as usize];
            let nw = (w & !(0xFFu32 << shift)) | ((value as u32) << shift);
            assert(nw == replace_byte(w, k, value));
            self.ram.set(i as usize, nw);
        }
    }

    /// Copy `buf.len()` bytes of memory from `adr` on into `buf`; bytes past
    /// the end of RAM (or of the address space) read as 0.
    pub fn read_bytes(&self, adr: u32, buf: &mut [u8])
        ensures
            final(buf)@ == mem_bytes(self@, adr as int, old(buf)@.len()),
    {
        let n = buf.len();
        let mut i: usize = 0;
        while i < n
            invariant
                n == buf@.len(),
                n == old(buf)@.len(),
                i <= n,
                forall|j: int| 0 <= j < i ==> buf@[j] == mem_byte(self@, adr + j),
            decreases n - i,
        {
            buf[i] = self.byte_at(adr as u128 + i as u128);
            i = i + 1;
        }
        assert(buf@ =~= mem_bytes(self@, adr as int, n as nat));
    }

    /// Copy `buf` into memory from `adr` on; bytes past the end of RAM (or of
    /// the address space) are dropped.
    pub fn write_bytes(&mut self, adr: u32, buf: &[u8])
        ensures
            final(self)@ == mem_write_bytes(old(self)@, adr as int, buf@),
            final(self)@.len() == old(self)@.len(),
    {
        let n = buf.len();
        let mut i: usize = 0;
        while i < n
            invariant
                n == buf@.len(),
                i <= n,
                self@ == mem_write_bytes(old(self)@, adr as int, buf@.subrange(0, i as int)),
                self@.len() == old(self)@.len(),
            decreases n - i,
        {
            self.set_byte_at(adr as u128 + i as u128, buf[i]);
            i = i + 1;
            assert(buf@.subrange(0, i as int).drop_last() =~= buf@.subrange(0, i - 1));
        }
        assert(buf@.subrange(0, n as int) =~= buf@);
    }
}

/// Writing a byte changes that byte alone.
pub proof fn lemma_mem_write_byte(ram: Seq<u32>, a: int, v: u8, b: int)
    ensures
        mem_write_byte(ram, a, v).len() == ram.len(),
        mem_byte(mem_write_byte(ram, a, v), b) == if a == b && 0 <= a && a / 4 < ram.len() {
            v
        } else {
            mem_byte(ram, b)
        },
{
    if 0 <= a && a / 4 < ram.len() && 0 <= b && b / 4 < ram.len() && a / 4 == b / 4 {
        lemma_replace_byte(ram[a / 4], (a % 4) as u32, v, (b % 4) as u32);
    }
}

/// Bytes written to guest RAM read back unchanged, as long as they all land in
/// RAM; bytes outside the written range keep their values.
pub proof fn law_write_bytes_read_back(ram: Seq<u32>, adr: int, bs: Seq<u8>, b: int)
    requires
        0 <= adr,
        adr + bs.len() <= 4 * ram.len(),
    ensures
        mem_write_bytes(ram, adr, bs).len() == ram.len(),
        mem_byte(mem_write_bytes(ram, adr, bs), b) == if adr <= b < adr + bs.len() {
            bs[b - adr]
        } else {
            mem_byte(ram, b)
        },
    decreases bs.len(),
{
    if bs.len() > 0 {
        let prev = mem_write_bytes(ram, adr, bs.drop_last());
        law_write_bytes_read_back(ram, adr, bs.drop_last(), b);
        lemma_mem_write_byte(prev, adr + bs.len() - 1, bs.last(), b);
    }
}

// ---------------------------------------------------------------------------
// File names
// ---------------------------------------------------------------------------

/// The first `k` bytes of `bs` are legal name characters (so none is NUL).
pub open spec fn name_prefix_ok(bs: Seq<u8>, k: int) -> bool {
    forall|i: int| 0 <= i < k ==> #[trigger] name_char_spec(i, bs[i])
}

/// Whether `bs` holds a NUL-terminated legal name.
pub open spec fn has_name(bs: Seq<u8>) -> bool {
    exists|k: int| 0 <= k < bs.len() && bs[k] == 0 && name_prefix_ok(bs, k)
}

/// The name in a NUL-terminated buffer: `None` for an illegal character before
/// the NUL, or no NUL at all; the empty name is legal.
pub open spec fn name_in(bs: Seq<u8>) -> Option<Seq<char>> {
    if has_name(bs) {
        let k = choose|k: int| 0 <= k < bs.len() && bs[k] == 0 && name_prefix_ok(bs, k);
        Some(latin1_chars(bs.subrange(0, k)))
    } else {
        None
    }
}

/// The 32-byte name buffer at `adr` of guest RAM.
pub open spec fn name_buffer(ram: Seq<u32>, adr: int) -> Seq<u8> {
    mem_bytes(ram, adr, NAME_LEN as nat)
}

/// A legal prefix grows by one more legal, non-NUL character.
proof fn lemma_name_prefix_extend(bs: Seq<u8>, k: int)
    requires
        0 <= k < bs.len(),
        name_prefix_ok(bs, k),
        bs[k] != 0,
        name_char_spec(k, bs[k]),
    ensures
        name_prefix_ok(bs, k + 1),
{
    assert forall|j: int| 0 <= j < k + 1 implies #[trigger] name_char_spec(j, bs[j]) by {
        if j < k {
            assert(name_char_spec(j, bs[j]));
        }
    }
}

/// Read a 32-byte Oberon file name at `adr`, validating it. `Some("")` is a valid
/// (empty) name; `None` means an illegal character or no terminator.
pub fn read_name(mem: &ShimMem, adr: u32) -> (name: Option<String>)
    ensures
        match name {
            Some(s) => name_in(name_buffer(mem@, adr as int)) == Some(s@),
            None => name_in(name_buffer(mem@, adr as int)) is None,
        },
{
    let mut buf = [0u8; 32];
    mem.read_bytes(adr, &mut buf);
    let ghost bs = buf@;
    assert(bs == name_buffer(mem@, adr as int));
    let mut s = String::new();
    let mut i: usize = 0;
    while i < NAME_LEN
        invariant
            i <= NAME_LEN,
            bs.len() == NAME_LEN,
            buf@ == bs,
            bs == name_buffer(mem@, adr as int),
            name_prefix_ok(bs, i as int),
            s@ == latin1_chars(bs.subrange(0, i as int)),
        decreases NAME_LEN - i,
    {
        let ch = buf[i];
        if ch == 0 {
            proof {
                assert forall|k: int|
                    0 <= k < bs.len() && bs[k] == 0 && name_prefix_ok(bs, k) implies k == i by {
                    if k < i {
                        assert(name_char_spec(k, bs[k]));
                    } else if k > i {
                        assert(name_char_spec(i as int, bs[i as int]));
                    }
                }
                assert(has_name(bs));
                let k = choose|k: int| 0 <= k < bs.len() && bs[k] == 0 && name_prefix_ok(bs, k);
                assert(k == i);
            }
            return Some(s);
        }
        if !name_char_ok(i, ch) {
            proof {
                assert forall|k: int| 0 <= k < bs.len() && bs[k] == 0 implies !name_prefix_ok(bs, k) by {
                    if k < i {
                        assert(name_char_spec(k, bs[k]));
                    } else if k > i {
                        assert(!name_char_spec(i as int, bs[i as int]));
                    }
                }
                assert(!has_name(bs));
            }
            return None;
        }
        assert(name_char_spec(i as int, bs[i as int]) && bs[i as int] != 0);
        proof {
            lemma_name_prefix_extend(bs, i as int);
        }
        push_char(&mut s, ch as char);
        i = i + 1;
        assert(latin1_chars(bs.subrange(0, i as int)) =~= latin1_chars(bs.subrange(0, i - 1)).push(
            bs[i - 1] as char,
        ));
    }
    proof {
        assert forall|k: int| 0 <= k < bs.len() && bs[k] == 0 implies !name_prefix_ok(bs, k) by {
            assert(name_char_spec(k, bs[k]));
        }
        assert(!has_name(bs));
    }
    None
}

/// A legal Oberon file name: 1 to 31 characters, each allowed at its place.
pub open spec fn valid_name_spec(bs: Seq<u8>) -> bool {
    0 < bs.len() < NAME_LEN && forall|i: int| 0 <= i < bs.len() ==> #[trigger] name_char_spec(i, bs[i])
}

/// Whether `bytes` (a directory entry) is a legal Oberon file name.
pub fn valid_name(bytes: &[u8]) -> (ok: bool)
    ensures
        ok == valid_name_spec(bytes@),
{
    if bytes.len() == 0 || bytes.len() >= NAME_LEN {
        return false;
    }
    let mut i: usize = 0;
    while i < bytes.len()
        invariant
            i <= bytes.len(),
            forall|j: int| 0 <= j < i ==> #[trigger] name_char_spec(j, bytes@[j]),
        decreases bytes.len() - i,
    {
        if !name_char_ok(i, bytes[i]) {
            return false;
        }
        i = i + 1;
    }
    true
}

// ---------------------------------------------------------------------------
// The open-file table
// ---------------------------------------------------------------------------

/// One open file as the guest sees it.
pub struct FileState {
    pub data: Seq<u8>,
    pub pos: u64,
    pub name: Seq<char>,
    pub persist: bool,
    pub registered: bool,
    pub dirty: bool,
}

/// One open file. New (unregistered) files are anonymous in-memory buffers;
/// `persist` marks a file written back to the working directory under `name`
/// when it is closed dirty (files found on the read-only search path are not
/// persisted).
pub struct OpenFile {
    pub data: Vec<u8>,
    pub pos: u64,
    pub name: String,
    pub persist: bool,
    pub registered: bool,
    pub dirty: bool,
}

impl View for OpenFile {
    type V = FileState;

    open spec fn view(&self) -> FileState {
        FileState {
            data: self.data@,
            pos: self.pos,
            name: self.name@,
            persist: self.persist,
            registered: self.registered,
            dirty: self.dirty,
        }
    }
}

/// The view of an open-file slot.
pub open spec fn slot_view(slot: Option<OpenFile>) -> Option<FileState> {
    match slot {
        Some(f) => Some(f@),
        None => None,
    }
}

/// The host environment the shim's syscalls reach: the working directory
/// (read-write) with the read-only search path behind it, the clock, and the
/// console.
pub trait ShimEnv {
    /// Milliseconds since the command started.
    fn clock_ms(&mut self) -> u32;

    /// The next console input byte, or `u32::MAX` at its end.
    fn getchar(&mut self) -> u32;

    /// Write a byte to the console.
    fn putchar(&mut self, b: u8);

    /// File `name`, from the working directory or else the search path: its
    /// bytes, and whether it came from the working directory.
    fn find(&mut self, name: &str) -> Option<(Vec<u8>, bool)>;

    /// Write file `name` in the working directory; whether that worked.
    fn save(&mut self, name: &str, data: &[u8]) -> bool;

    /// Delete file `name` from the working directory; whether that worked.
    fn delete(&mut self, name: &str) -> bool;

    /// Rename file `old` to `new` in the working directory; whether that worked.
    fn rename(&mut self, old: &str, new: &str) -> bool;

    /// The names of the files in the working directory.
    fn list(&mut self) -> Vec<String>;
}

/// One request made of the environment, with its answer.
pub enum EnvEvent {
    Clock(u32),
    Getchar(u32),
    Putchar(u8),
    Find(Seq<char>, Option<(Seq<u8>, bool)>),
    Save(Seq<char>, Seq<u8>, bool),
    Delete(Seq<char>, bool),
    Rename(Seq<char>, Seq<char>, bool),
    List(Seq<Seq<char>>),
}

/// The guest-visible state of the shim host: its arguments, open files, the
/// pending directory listing, the exit code once the guest stopped, the
/// latched syscall arguments and result, and the requests made of the
/// environment.
pub struct HostState {
    pub args: Seq<Seq<char>>,
    pub files: Seq<Option<FileState>>,
    pub listing: Seq<Seq<char>>,
    pub listed: int,
    pub exit: Option<i32>,
    pub sysarg: Seq<u32>,
    pub sysres: u32,
    pub log: Seq<EnvEvent>,
}

/// The shim host's syscall state: command-line arguments, the open-file table,
/// a directory listing in progress, and the latched syscall arguments; and the
/// environment it works in.
pub struct Host {
    env: Box<dyn ShimEnv>,
    args: Vec<String>,
    files: Vec<Option<OpenFile>>,
    listing: Vec<String>,
    listed: usize,
    exit: Option<i32>,
    sysarg: [u32; 3],
    sysres: u32,
    log: Ghost<Seq<EnvEvent>>,
}

impl View for Host {
    type V = HostState;

    closed spec fn view(&self) -> HostState {
        HostState {
            args: self.args@.map_values(|a: String| a@),
            files: self.files@.map_values(|slot: Option<OpenFile>| slot_view(slot)),
            listing: self.listing@.map_values(|a: String| a@),
            listed: self.listed as int,
            exit: self.exit,
            sysarg: self.sysarg@,
            sysres: self.sysres,
            log: self.log@,
        }
    }
}

/// The index of the first free slot in `files`, if any.
pub open spec fn first_free(files: Seq<Option<FileState>>) -> Option<int> {
    if exists|i: int| 0 <= i < files.len() && files[i] is None {
        Some(choose|i: int| 0 <= i < files.len() && files[i] is None && forall|j: int| 0 <= j < i ==> files[j] is Some)
    } else {
        None
    }
}

/// The open file behind handle `h`, if any.
pub open spec fn open_file(s: HostState, h: u32) -> Option<FileState> {
    if (h as int) < s.files.len() {
        s.files[h as int]
    } else {
        None
    }
}

/// The state after the guest wrote `f` into slot `h`.
pub open spec fn with_file(s: HostState, h: u32, f: FileState) -> HostState {
    HostState { files: s.files.update(h as int, Some(f)), ..s }
}

/// The state and handle after opening `f`: the first free slot gets it; with no
/// slot free the guest is stopped with exit code 1 and gets `u32::MAX`.
pub open spec fn allocated(s: HostState, f: FileState) -> (HostState, u32) {
    match first_free(s.files) {
        Some(i) => (HostState { files: s.files.update(i, Some(f)), ..s }, i as u32),
        None => (HostState { exit: Some(1), ..s }, u32::MAX),
    }
}

/// The length of a transfer of `siz` bytes clamped to the guest's RAM.
pub open spec fn clamped(siz: u32, ram: Seq<u32>) -> int {
    if siz < 4 * ram.len() { siz as int } else { (4 * ram.len()) as int }
}

/// What a read of `siz` bytes at `pos` delivers: the file's bytes from `pos` on,
/// zero-filled past its end.
pub open spec fn read_window(data: Seq<u8>, pos: u64, siz: int) -> Seq<u8> {
    Seq::new(siz as nat, |i: int| if pos + i < data.len() { data[pos + i] } else { 0u8 })
}

/// How many of `siz` bytes at `pos` are in the file.
pub open spec fn read_count(data: Seq<u8>, pos: u64, siz: int) -> int {
    if pos >= data.len() {
        0
    } else if siz < data.len() - pos {
        siz
    } else {
        data.len() - pos
    }
}

/// The file data after writing `siz` bytes of guest RAM from `adr` at `pos`,
/// zero-extending the file first when the write starts past its end.
pub open spec fn written_data(data: Seq<u8>, pos: u64, ram: Seq<u32>, adr: int, siz: int) -> Seq<u8> {
    let end = pos + siz;
    let len = if end > data.len() { end } else { data.len() as int };
    Seq::new(
        len as nat,
        |j: int|
            if pos <= j < end {
                mem_byte(ram, adr + j - pos)
            } else if j < data.len() {
                data[j]
            } else {
                0u8
            },
    )
}

/// The position a seek lands on: `pos` (a signed offset) from the start
/// (`whence` 0 and anything but 1 or 2), the current position (1) or the end
/// (2), never before the start.
pub open spec fn seek_target(f: FileState, pos: u32, whence: u32) -> int {
    let base: int = if whence == 1 { f.pos as int } else if whence == 2 { f.data.len() as int } else { 0 };
    let t = base + crate::risc::signed(pos);
    if t < 0 { 0 } else { t }
}

/// What a write stores in a file, a read from the same position gives back:
/// all of the bytes the write took from guest memory.
pub proof fn law_file_write_read_back(data: Seq<u8>, pos: u64, ram: Seq<u32>, adr: int, siz: int)
    requires
        0 <= siz,
        pos + siz <= MAX_FILE_BYTES,
    ensures
        read_window(written_data(data, pos, ram, adr, siz), pos, siz) == mem_bytes(ram, adr, siz as nat),
        read_count(written_data(data, pos, ram, adr, siz), pos, siz) == siz,
{
    let w = written_data(data, pos, ram, adr, siz);
    assert(read_window(w, pos, siz) =~= mem_bytes(ram, adr, siz as nat));
}

/// A write leaves the bytes outside the written range as they were.
pub proof fn law_file_write_keeps_the_rest(data: Seq<u8>, pos: u64, ram: Seq<u32>, adr: int, siz: int, j: int)
    requires
        0 <= siz,
        0 <= j < data.len(),
        !(pos <= j < pos + siz),
    ensures
        written_data(data, pos, ram, adr, siz)[j] == data[j],
{
}

impl Host {
    /// The table is the right size and no file outgrows the cap.
    pub open spec fn wf(&self) -> bool {
        &&& self@.files.len() == MAX_FILES
        &&& forall|i: int|
            0 <= i < self@.files.len() && #[trigger] self@.files[i] is Some ==> self@.files[i]->0.data.len()
                <= MAX_FILE_BYTES && self@.files[i]->0.pos < 0x8000_0000_0000_0000
        &&& 0 <= self@.listed <= self@.listing.len()
    }

    /// A host for one command in environment `env`: its arguments, no open
    /// files.
    pub fn new(env: Box<dyn ShimEnv>, args: Vec<String>) -> (h: Host)
        ensures
            h.wf(),
            h@.args == args@.map_values(|a: String| a@),
            h@.files == Seq::new(MAX_FILES as nat, |i: int| None::<FileState>),
            h@.listing.len() == 0,
            h@.exit is None,
            h@.sysarg == seq![0u32, 0u32, 0u32],
            h@.sysres == 0,
            h@.log.len() == 0,
    {
        let mut files: Vec<Option<OpenFile>> = Vec::new();
        let mut i: usize = 0;
        while i < MAX_FILES
            invariant
                i <= MAX_FILES,
                files@.len() == i,
                forall|j: int| 0 <= j < i ==> files@[j] is None,
            decreases MAX_FILES - i,
        {
            files.push(None);
            i = i + 1;
        }
        let h = Host {
            env,
            args,
            files,
            listing: Vec::new(),
            listed: 0,
            exit: None,
            sysarg: [0, 0, 0],
            sysres: 0,
            log: Ghost(Seq::empty()),
        };
        assert(h@.files =~= Seq::new(MAX_FILES as nat, |i: int| None::<FileState>));
        assert(h@.sysarg =~= seq![0u32, 0u32, 0u32]);
        h
    }

    /// The exit code, once the guest halted, trapped or ran out of handles.
    pub fn exit_code(&self) -> (code: Option<i32>)
        ensures
            code == self@.exit,
    {
        self.exit
    }

    /// The open file behind handle `h`, if any.
    pub fn file(&self, h: u32) -> (f: Option<&OpenFile>)
        ensures
            match f {
                Some(f) => open_file(self@, h) == Some(f@),
                None => open_file(self@, h) is None,
            },
    {
        let i = h as usize;
        if i < self.files.len() {
            match &self.files[i] {
                Some(f) => Some(f),
                None => None,
            }
        } else {
            None
        }
    }

    /// Put `file` in the first free slot and return its handle; with every slot
    /// taken the guest is stopped (exit code 1) and gets `u32::MAX`.
    pub fn allocate(&mut self, file: OpenFile) -> (h: u32)
        requires
            old(self).wf(),
            file.data@.len() <= MAX_FILE_BYTES,
            file.pos < 0x8000_0000_0000_0000,
        ensures
            final(self).wf(),
            (final(self)@, h) == allocated(old(self)@, file@),
    {
        let ghost fv = file@;
        let mut i: usize = 0;
        while i < self.files.len()
            invariant
                self.wf(),
                self@ == old(self)@,
                i <= self.files@.len(),
                forall|j: int| 0 <= j < i ==> self@.files[j] is Some,
                fv == file@,
                file.data@.len() <= MAX_FILE_BYTES,
                file.pos < 0x8000_0000_0000_0000,
            decreases self.files@.len() - i,
        {
            if self.files[i].is_none() {
                proof {
                    assert(self@.files[i as int] is None);
                    let k = choose|k: int|
                        0 <= k < self@.files.len() && self@.files[k] is None && forall|j: int|
                            0 <= j < k ==> self@.files[j] is Some;
                    assert(k == i);
                }
                self.files.set(i, Some(file));
                assert(self@.files =~= old(self)@.files.update(i as int, Some(fv)));
                return i as u32;
            }
            i = i + 1;
        }
        proof {
            assert forall|k: int| 0 <= k < self@.files.len() implies self@.files[k] is Some by {}
        }
        self.exit = Some(1);
        u32::MAX
    }
}

impl Host {
    /// Take the file out of slot `h` (leaving the slot free).
    fn take_file(&mut self, h: u32) -> (f: Option<OpenFile>)
        requires
            old(self).wf(),
        ensures
            match f {
                Some(f) => open_file(old(self)@, h) == Some(f@) && (h as int) < MAX_FILES
                    && final(self)@ == (HostState {
                    files: old(self)@.files.update(h as int, None),
                    ..old(self)@
                }) && f.data@.len() <= MAX_FILE_BYTES && f.pos < 0x8000_0000_0000_0000,
                None => open_file(old(self)@, h) is None && final(self)@ == old(self)@,
            },
            final(self)@.files.len() == MAX_FILES,
            0 <= final(self)@.listed <= final(self)@.listing.len(),
            forall|i: int|
                0 <= i < final(self)@.files.len() && #[trigger] final(self)@.files[i] is Some
                    ==> final(self)@.files[i]->0.data.len() <= MAX_FILE_BYTES
                    && final(self)@.files[i]->0.pos < 0x8000_0000_0000_0000,
    {
        let i = h as usize;
        if i < self.files.len() && self.files[i].is_some() {
            let f = self.files[i].take();
            assert(self@.files =~= old(self)@.files.update(h as int, None));
            f
        } else {
            None
        }
    }

    /// Put `f` into slot `h`.
    fn put_file(&mut self, h: u32, f: OpenFile)
        requires
            (h as int) < old(self)@.files.len(),
            old(self)@.files.len() == MAX_FILES,
            0 <= old(self)@.listed <= old(self)@.listing.len(),
            forall|i: int|
                0 <= i < old(self)@.files.len() && #[trigger] old(self)@.files[i] is Some
                    ==> old(self)@.files[i]->0.data.len() <= MAX_FILE_BYTES
                    && old(self)@.files[i]->0.pos < 0x8000_0000_0000_0000,
            f.data@.len() <= MAX_FILE_BYTES,
            f.pos < 0x8000_0000_0000_0000,
        ensures
            final(self).wf(),
            final(self)@ == with_file(old(self)@, h, f@),
    {
        let ghost fv = f@;
        self.files.set(h as usize, Some(f));
        assert(self@.files =~= old(self)@.files.update(h as int, Some(fv)));
    }

    /// `Files.New`: open an anonymous file under the name at `adr`; `u32::MAX`
    /// for an illegal name or when no handle is free.
    pub fn files_new(&mut self, adr: u32, mem: &ShimMem) -> (h: u32)
        requires
            old(self).wf(),
        ensures
            final(self).wf(),
            match name_in(name_buffer(mem@, adr as int)) {
                None => h == u32::MAX && final(self)@ == old(self)@,
                Some(name) => (final(self)@, h) == allocated(
                    old(self)@,
                    FileState {
                        data: Seq::empty(),
                        pos: 0,
                        name,
                        persist: false,
                        registered: false,
                        dirty: false,
                    },
                ),
            },
    {
        match read_name(mem, adr) {
            None => u32::MAX,
            Some(name) => {
                let f = OpenFile {
                    data: Vec::new(),
                    pos: 0,
                    name,
                    persist: false,
                    registered: false,
                    dirty: false,
                };
                self.allocate(f)
            },
        }
    }

    /// Open `data` as the registered file `name`, persisted if it came from
    /// the working directory.
    fn open_found(&mut self, name: String, data: Vec<u8>, persist: bool) -> (h: u32)
        requires
            old(self).wf(),
            data@.len() <= MAX_FILE_BYTES,
        ensures
            final(self).wf(),
            (final(self)@, h) == allocated(
                old(self)@,
                FileState { data: data@, pos: 0, name: name@, persist, registered: true, dirty: false },
            ),
    {
        self.allocate(OpenFile { data, pos: 0, name, persist, registered: true, dirty: false })
    }

    /// `Files.Set`: move the position of file `h` (see [`seek_target`]); an
    /// unknown handle is ignored. Always answers 0.
    pub fn files_seek(&mut self, h: u32, pos: u32, whence: u32) -> (r: u32)
        requires
            old(self).wf(),
            open_file(old(self)@, h) matches Some(f) ==> seek_target(f, pos, whence) < 0x8000_0000_0000_0000,
        ensures
            final(self).wf(),
            r == 0,
            final(self)@ == match open_file(old(self)@, h) {
                Some(f) => with_file(old(self)@, h, FileState { pos: seek_target(f, pos, whence) as u64, ..f }),
                None => old(self)@,
            },
    {
        match self.take_file(h) {
            None => 0,
            Some(mut f) => {
                let len = f.data.len() as u64;
                let base: u64 = if whence == 1 {
                    f.pos
                } else if whence == 2 {
                    len
                } else {
                    0
                };
                let target: u64 = if pos < 0x8000_0000 {
                    base + pos as u64
                } else {
                    let back = 0x1_0000_0000u64 - pos as u64;
                    if back > base { 0 } else { base - back }
                };
                f.pos = target;
                let ghost fv = f@;
                self.put_file(h, f);
                assert(self@.files =~= old(self)@.files.update(h as int, Some(fv)));
                0
            },
        }
    }

    /// `Files.Pos`: the position of file `h` (truncated to 32 bits), or
    /// `u32::MAX` for an unknown handle.
    pub fn files_tell(&self, h: u32) -> (r: u32)
        ensures
            r == match open_file(self@, h) {
                Some(f) => f.pos as u32,
                None => u32::MAX,
            },
    {
        match self.file(h) {
            Some(f) => f.pos as u32,
            None => u32::MAX,
        }
    }

    /// `Files.Length`: the length of file `h`, or `u32::MAX` for an unknown handle.
    pub fn files_length(&self, h: u32) -> (r: u32)
        requires
            self.wf(),
        ensures
            r == match open_file(self@, h) {
                Some(f) => f.data.len() as u32,
                None => u32::MAX,
            },
    {
        match self.file(h) {
            Some(f) => f.data.len() as u32,
            None => u32::MAX,
        }
    }
}

impl Host {
    /// `Files.ReadBytes`: copy up to `siz` bytes (clamped to guest RAM) of file
    /// `h` from its position into guest memory at `adr`, zero-filling past the
    /// end of the file; answers how many bytes came from the file (0 for an
    /// unknown handle, which leaves memory alone).
    pub fn files_read(&mut self, h: u32, adr: u32, siz: u32, mem: &mut ShimMem) -> (n: u32)
        requires
            old(self).wf(),
            old(mem)@.len() < MAX_RAM_WORDS,
        ensures
            final(self).wf(),
            final(mem)@.len() == old(mem)@.len(),
            match open_file(old(self)@, h) {
                Some(f) => {
                    let k = clamped(siz, old(mem)@);
                    &&& n == read_count(f.data, f.pos, k)
                    &&& final(mem)@ == mem_write_bytes(old(mem)@, adr as int, read_window(f.data, f.pos, k))
                    &&& final(self)@ == with_file(old(self)@, h, FileState { pos: (f.pos + n) as u64, ..f })
                },
                None => n == 0 && final(mem)@ == old(mem)@ && final(self)@ == old(self)@,
            },
    {
        let total = mem.len_bytes();
        let siz: usize = if (siz as usize) < total { siz as usize } else { total };
        match self.take_file(h) {
            None => 0,
            Some(mut f) => {
                let len = f.data.len() as u64;
                let start = f.pos;
                let avail: u64 = if start < len { len - start } else { 0 };
                let n: u64 = if (siz as u64) < avail { siz as u64 } else { avail };
                let mut buf = vec![0u8; siz];
                let mut i: usize = 0;
                while (i as u64) < n
                    invariant
                        n <= siz,
                        n == read_count(f.data@, start, siz as int),
                        start == f.pos,
                        len == f.data@.len(),
                        len <= MAX_FILE_BYTES,
                        n == 0 || start + n <= len,
                        i <= n,
                        buf@.len() == siz,
                        forall|j: int| 0 <= j < i ==> buf@[j] == f.data@[start + j],
                        forall|j: int| i <= j < siz ==> buf@[j] == 0,
                    decreases n - i,
                {
                    buf.set(i, f.data[(start + i as u64) as usize]);
                    i = i + 1;
                }
                assert(buf@ =~= read_window(f.data@, start, siz as int));
                f.pos = start + n;
                let ghost fv = f@;
                self.put_file(h, f);
                assert(self@.files =~= old(self)@.files.update(h as int, Some(fv)));
                mem.write_bytes(adr, buf.as_slice());
                n as u32
            },
        }
    }

    /// `Files.WriteBytes`: copy `siz` bytes (clamped to guest RAM) of guest
    /// memory at `adr` into file `h` at its position, zero-extending the file
    /// as needed, and mark it dirty; answers the bytes written. A write that
    /// would take the file past the 1 GiB cap is refused (answer 0, file
    /// unchanged), as is one to an unknown handle.
    pub fn files_write(&mut self, h: u32, adr: u32, siz: u32, mem: &ShimMem) -> (n: u32)
        requires
            old(self).wf(),
            mem@.len() < MAX_RAM_WORDS,
        ensures
            final(self).wf(),
            match open_file(old(self)@, h) {
                Some(f) => {
                    let k = clamped(siz, mem@);
                    if f.pos + k > MAX_FILE_BYTES {
                        n == 0 && final(self)@ == old(self)@
                    } else {
                        &&& n == k
                        &&& final(self)@ == with_file(
                            old(self)@,
                            h,
                            FileState {
                                data: written_data(f.data, f.pos, mem@, adr as int, k),
                                pos: (f.pos + k) as u64,
                                dirty: true,
                                ..f
                            },
                        )
                    }
                },
                None => n == 0 && final(self)@ == old(self)@,
            },
    {
        let total = mem.len_bytes();
        let siz: usize = if (siz as usize) < total { siz as usize } else { total };
        match self.take_file(h) {
            None => 0,
            Some(mut f) => {
                let start = f.pos;
                let end = start + siz as u64;
                if end > MAX_FILE_BYTES as u64 {
                    let ghost fv = f@;
                    self.put_file(h, f);
                    assert(self@.files =~= old(self)@.files);
                    return 0;
                }
                let ghost old_data = f.data@;
                let ghost f0 = f@;
                while (f.data.len() as u64) < end
                    invariant
                        f@.name == f0.name && f@.persist == f0.persist && f@.registered == f0.registered,
                        f@.pos == f0.pos,
                        end <= MAX_FILE_BYTES,
                        f.data@.len() <= end || f.data@ == old_data,
                        old_data.len() <= f.data@.len(),
                        forall|j: int| 0 <= j < old_data.len() ==> f.data@[j] == old_data[j],
                        forall|j: int| old_data.len() <= j < f.data@.len() ==> f.data@[j] == 0,
                    decreases end - f.data@.len(),
                {
                    f.data.push(0);
                }
                let mut i: usize = 0;
                while i < siz
                    invariant
                        f@.name == f0.name && f@.persist == f0.persist && f@.registered == f0.registered,
                        end == start + siz,
                        end <= MAX_FILE_BYTES,
                        f.data@.len() == (if end > old_data.len() { end as int } else { old_data.len() as int }),
                        i <= siz,
                        forall|j: int|
                            0 <= j < f.data@.len() ==> f.data@[j] == if start <= j < start + i {
                                mem_byte(mem@, adr + j - start)
                            } else if j < old_data.len() {
                                old_data[j]
                            } else {
                                0u8
                            },
                    decreases siz - i,
                {
                    let b = mem.byte_at(adr as u128 + i as u128);
                    f.data.set((start + i as u64) as usize, b);
                    i = i + 1;
                }
                assert(f.data@ =~= written_data(old_data, start, mem@, adr as int, siz as int));
                f.pos = end;
                f.dirty = true;
                let ghost fv = f@;
                self.put_file(h, f);
                assert(self@.files =~= old(self)@.files.update(h as int, Some(fv)));
                siz as u32
            },
        }
    }

    /// `Files.Close`: close file `h`, writing it back to the working
    /// directory when it is dirty and persisted; an unknown handle is ignored.
    /// Always answers 0.
    pub fn files_close(&mut self, h: u32) -> (r: u32)
        requires
            old(self).wf(),
        ensures
            final(self).wf(),
            r == 0,
            exists|ok: bool| final(self)@ == close_spec(old(self)@, h, ok),
    {
        match self.take_file(h) {
            None => {
                assert(self@ == close_spec(old(self)@, h, true));
                0
            },
            Some(f) => {
                if f.dirty && f.persist {
                    let ok = self.env.save(f.name.as_str(), f.data.as_slice());
                    self.log = Ghost(self.log@.push(EnvEvent::Save(f.name@, f.data@, ok)));
                    assert(self@ == close_spec(old(self)@, h, ok));
                } else {
                    assert(self@ == close_spec(old(self)@, h, true));
                }
                0
            },
        }
    }

    /// `Files.Register`: give file `h` its name in the working directory
    /// (see [`register_spec`]).
    pub fn files_register(&mut self, h: u32) -> (r: u32)
        requires
            old(self).wf(),
        ensures
            final(self).wf(),
            exists|ok: bool| (final(self)@, r) == register_spec(old(self)@, h, ok),
    {
        match self.take_file(h) {
            None => {
                assert((self@, 0u32) == register_spec(old(self)@, h, true));
                0
            },
            Some(mut f) => {
                let ghost f0 = f@;
                if !f.registered && !f.name.as_str().is_empty() {
                    let ok = self.env.save(f.name.as_str(), f.data.as_slice());
                    self.log = Ghost(self.log@.push(EnvEvent::Save(f.name@, f.data@, ok)));
                    if !ok {
                        self.put_file(h, f);
                        proof {
                            assert(self@.files =~= old(self)@.files);
                            assert(self@.log == old(self)@.log.push(EnvEvent::Save(f0.name, f0.data, false)));
                            assert((self@, u32::MAX) == register_spec(old(self)@, h, false));
                        }
                        return u32::MAX;
                    }
                    f.persist = true;
                    f.registered = true;
                    f.dirty = false;
                    let ghost fv = f@;
                    self.put_file(h, f);
                    assert(self@.files =~= old(self)@.files.update(h as int, Some(fv)));
                    assert(self@.log == old(self)@.log.push(EnvEvent::Save(f0.name, f0.data, true)));
                    assert((self@, 0u32) == register_spec(old(self)@, h, true));
                } else {
                    self.put_file(h, f);
                    assert(self@.files =~= old(self)@.files);
                    assert((self@, 0u32) == register_spec(old(self)@, h, true));
                }
                0
            },
        }
    }

    /// `Files.Old`: open the file named at `adr` as the environment finds it
    /// (see [`old_spec`]); `u32::MAX` for an illegal name.
    pub fn files_old(&mut self, adr: u32, mem: &ShimMem) -> (h: u32)
        requires
            old(self).wf(),
        ensures
            final(self).wf(),
            name_in(name_buffer(mem@, adr as int)) is None ==> h == u32::MAX && final(self)@ == old(self)@,
            name_in(name_buffer(mem@, adr as int)) is Some ==> exists|found: Option<(Seq<u8>, bool)>|
                (final(self)@, h) == old_spec(old(self)@, name_in(name_buffer(mem@, adr as int))->0, found),
    {
        let ghost key = name_in(name_buffer(mem@, adr as int));
        match read_name(mem, adr) {
            None => u32::MAX,
            Some(name) => {
                let found = self.env.find(name.as_str());
                let ghost seen = match &found {
                    Some((d, c)) => Some((d@, *c)),
                    None => None,
                };
                self.log = Ghost(self.log@.push(EnvEvent::Find(name@, seen)));
                let ghost nm = name@;
                assert(key->0 == nm);
                let r = match found {
                    None => u32::MAX,
                    Some((data, cwd)) => {
                        if data.len() > MAX_FILE_BYTES {
                            u32::MAX
                        } else {
                            self.open_found(name, data, cwd)
                        }
                    },
                };
                assert((self@, r) == old_spec(old(self)@, key->0, seen));
                r
            },
        }
    }

    /// `Files.Delete`: delete the file named at `adr` from the working
    /// directory; 0 if that worked, else (or for an illegal or empty name)
    /// `u32::MAX`.
    pub fn files_delete(&mut self, adr: u32, mem: &ShimMem) -> (r: u32)
        requires
            old(self).wf(),
        ensures
            final(self).wf(),
            match name_in(name_buffer(mem@, adr as int)) {
                Some(name) if name.len() > 0 => (r == 0 || r == u32::MAX) && final(self)@ == (HostState {
                    log: old(self)@.log.push(EnvEvent::Delete(name, r == 0)),
                    ..old(self)@
                }),
                _ => r == u32::MAX && final(self)@ == old(self)@,
            },
    {
        match read_name(mem, adr) {
            Some(name) => {
                if name.as_str().is_empty() {
                    return u32::MAX;
                }
                let ok = self.env.delete(name.as_str());
                self.log = Ghost(self.log@.push(EnvEvent::Delete(name@, ok)));
                if ok { 0 } else { u32::MAX }
            },
            None => u32::MAX,
        }
    }

    /// `Files.Rename`: rename the file named at `old_adr` to the name at
    /// `new_adr` in the working directory; 0 if that worked, else (or for an
    /// illegal or empty name) `u32::MAX`.
    pub fn files_rename(&mut self, old_adr: u32, new_adr: u32, mem: &ShimMem) -> (r: u32)
        requires
            old(self).wf(),
        ensures
            final(self).wf(),
            match (name_in(name_buffer(mem@, old_adr as int)), name_in(name_buffer(mem@, new_adr as int))) {
                (Some(a), Some(b)) if a.len() > 0 && b.len() > 0 => (r == 0 || r == u32::MAX) && final(self)@ == (
                HostState { log: old(self)@.log.push(EnvEvent::Rename(a, b, r == 0)), ..old(self)@ }),
                _ => r == u32::MAX && final(self)@ == old(self)@,
            },
    {
        let a = read_name(mem, old_adr);
        let b = read_name(mem, new_adr);
        match (a, b) {
            (Some(a), Some(b)) => {
                if a.as_str().is_empty() || b.as_str().is_empty() {
                    return u32::MAX;
                }
                let ok = self.env.rename(a.as_str(), b.as_str());
                self.log = Ghost(self.log@.push(EnvEvent::Rename(a@, b@, ok)));
                if ok { 0 } else { u32::MAX }
            },
            _ => u32::MAX,
        }
    }
}

/// The state after closing file `h` (`ok`: whether a write-back worked).
pub open spec fn close_spec(s: HostState, h: u32, ok: bool) -> HostState {
    match open_file(s, h) {
        Some(f) => {
            let s1 = HostState { files: s.files.update(h as int, None), ..s };
            if f.dirty && f.persist {
                HostState { log: s1.log.push(EnvEvent::Save(f.name, f.data, ok)), ..s1 }
            } else {
                s1
            }
        },
        None => s,
    }
}

/// The state and answer after registering file `h` (`ok`: whether writing it
/// to the working directory worked). An open file that is not registered and
/// has a name is written under it; then it is persisted, registered and
/// clean, or, if the write failed, left as it was with the answer
/// `u32::MAX`. Anything else answers 0 and changes nothing.
pub open spec fn register_spec(s: HostState, h: u32, ok: bool) -> (HostState, u32) {
    match open_file(s, h) {
        Some(f) => if !f.registered && f.name.len() > 0 {
            let s1 = HostState { log: s.log.push(EnvEvent::Save(f.name, f.data, ok)), ..s };
            if ok {
                (with_file(s1, h, FileState { persist: true, registered: true, dirty: false, ..f }), 0)
            } else {
                (s1, u32::MAX)
            }
        } else {
            (s, 0)
        },
        None => (s, 0),
    }
}

/// The state and handle after opening file `name` as the environment found it
/// (`found`: its bytes, and whether it came from the working directory). A
/// file found is opened registered and positioned at 0, persisted if from the
/// working directory; one not found, or larger than the file cap, gets
/// `u32::MAX`.
pub open spec fn old_spec(s: HostState, name: Seq<char>, found: Option<(Seq<u8>, bool)>) -> (HostState, u32) {
    let s1 = HostState { log: s.log.push(EnvEvent::Find(name, found)), ..s };
    match found {
        None => (s1, u32::MAX),
        Some((data, cwd)) => if data.len() > MAX_FILE_BYTES {
            (s1, u32::MAX)
        } else {
            allocated(
                s1,
                FileState { data, pos: 0, name, persist: cwd, registered: true, dirty: false },
            )
        },
    }
}

/// The UTF-8 bytes of a string.
pub open spec fn utf8_of(s: Seq<char>) -> Seq<u8> {
    vstd::utf8::encode_utf8(s)
}

/// `bs` in a buffer of `size` bytes: truncated to leave room for the NUL, then
/// NUL-padded.
pub open spec fn padded(bs: Seq<u8>, size: int) -> Seq<u8> {
    Seq::new(size as nat, |j: int| if j < size - 1 && j < bs.len() { bs[j] } else { 0u8 })
}

/// The message a trap number reports.
pub open spec fn trap_text(trap: u32) -> Seq<char> {
    if trap == 1 {
        "array index out of range"@
    } else if trap == 2 {
        "type guard failure"@
    } else if trap == 3 {
        "array or string copy overflow"@
    } else if trap == 4 {
        "access via NIL pointer"@
    } else if trap == 5 {
        "illegal procedure call"@
    } else if trap == 6 {
        "integer division by zero"@
    } else if trap == 7 {
        "assertion violated"@
    } else {
        "unknown trap"@
    }
}

/// What a trap reports.
pub fn trap_message(trap: u32) -> (msg: &'static str)
    ensures
        msg@ == trap_text(trap),
{
    if trap == 1 {
        "array index out of range"
    } else if trap == 2 {
        "type guard failure"
    } else if trap == 3 {
        "array or string copy overflow"
    } else if trap == 4 {
        "access via NIL pointer"
    } else if trap == 5 {
        "illegal procedure call"
    } else if trap == 6 {
        "integer division by zero"
    } else if trap == 7 {
        "assertion violated"
    } else {
        "unknown trap"
    }
}

/// The names of a directory listing the guest may see: the legal Oberon names.
pub open spec fn listable(names: Seq<Seq<char>>) -> Seq<Seq<char>> {
    names.filter(|n: Seq<char>| valid_name_spec(utf8_of(n)))
}

impl Host {
    /// `Norebo.Argc`: the number of arguments.
    pub fn argc(&self) -> (n: u32)
        ensures
            n == self@.args.len() as u32,
    {
        self.args.len() as u32
    }

    /// `Norebo.Argv`: copy argument `idx` into the `siz`-byte guest buffer at
    /// `adr`, truncated and NUL-padded; answers the argument's full length, or
    /// `u32::MAX` when there is no such argument (memory untouched).
    pub fn argv(&self, idx: u32, adr: u32, siz: u32, mem: &mut ShimMem) -> (n: u32)
        ensures
            final(mem)@.len() == old(mem)@.len(),
            if (idx as int) < self@.args.len() {
                let bs = utf8_of(self@.args[idx as int]);
                &&& n == bs.len() as u32
                &&& final(mem)@ == mem_write_bytes(old(mem)@, adr as int, padded(bs, siz as int))
            } else {
                n == u32::MAX && final(mem)@ == old(mem)@
            },
    {
        let i = idx as usize;
        if i >= self.args.len() {
            return u32::MAX;
        }
        let bytes = self.args[i].as_str().as_bytes();
        let ghost want = padded(bytes@, siz as int);
        let mut buf: Vec<u8> = Vec::new();
        let mut j: u32 = 0;
        while j < siz
            invariant
                j <= siz,
                buf@ =~= want.subrange(0, j as int),
                want == padded(bytes@, siz as int),
            decreases siz - j,
        {
            let b = if j < siz - 1 && (j as usize) < bytes.len() { bytes[j as usize] } else { 0 };
            buf.push(b);
            j = j + 1;
        }
        assert(want.subrange(0, siz as int) =~= want);
        mem.write_bytes(adr, buf.as_slice());
        bytes.len() as u32
    }

    /// A trap stops the guest with exit code `100 + trap` (`trap` read as a
    /// signed word).
    pub fn trap(&mut self, trap: u32)
        requires
            crate::risc::signed(trap) + 100 <= i32::MAX,
        ensures
            final(self)@ == (HostState {
                exit: Some((crate::risc::signed(trap) + 100) as i32),
                ..old(self)@
            }),
    {
        let t: i64 = if trap < 0x8000_0000 { trap as i64 } else { trap as i64 - 0x1_0000_0000 };
        self.exit = Some((t + 100) as i32);
    }

    /// `Norebo.Halt`: stop the guest with exit code `code`.
    pub fn halt(&mut self, code: u32)
        ensures
            final(self)@ == (HostState { exit: Some(code as i32), ..old(self)@ }),
    {
        self.exit = Some(code as i32);
    }

    /// `FileDir.Enumerate` begins: of the working directory's files, as the
    /// environment lists them, keep the legal Oberon file names to hand out one
    /// by one. Always answers 0.
    pub fn enumerate_begin(&mut self) -> (r: u32)
        requires
            old(self).wf(),
        ensures
            final(self).wf(),
            r == 0,
            exists|names: Seq<Seq<char>>|
                final(self)@ == (HostState {
                    listing: #[trigger] listable(names),
                    listed: 0,
                    log: old(self)@.log.push(EnvEvent::List(names)),
                    ..old(self)@
                }),
    {
        let names = self.env.list();
        let ghost all = names@.map_values(|a: String| a@);
        self.log = Ghost(self.log@.push(EnvEvent::List(all)));
        let r = self.start_listing(names);
        assert(self@ == (HostState {
            listing: listable(all),
            listed: 0,
            log: old(self)@.log.push(EnvEvent::List(all)),
            ..old(self)@
        }));
        r
    }

    /// Of `names`, keep the legal Oberon file names to hand out one by one.
    fn start_listing(&mut self, names: Vec<String>) -> (r: u32)
        requires
            old(self).wf(),
        ensures
            final(self).wf(),
            r == 0,
            final(self)@ == (HostState {
                listing: listable(names@.map_values(|a: String| a@)),
                listed: 0,
                ..old(self)@
            }),
    {
        let ghost all = names@.map_values(|a: String| a@);
        let mut kept: Vec<String> = Vec::new();
        let mut i: usize = 0;
        while i < names.len()
            invariant
                i <= names@.len(),
                all == names@.map_values(|a: String| a@),
                kept@.map_values(|a: String| a@) == listable(all.subrange(0, i as int)),
            decreases names@.len() - i,
        {
            let name = &names[i];
            let ok = valid_name(name.as_str().as_bytes());
            proof {
                reveal(Seq::filter);
                assert(all.subrange(0, i + 1).drop_last() =~= all.subrange(0, i as int));
                assert(all.subrange(0, i + 1).last() == name@);
            }
            if ok {
                kept.push(name.clone());
                assert(kept@.map_values(|a: String| a@) =~= listable(all.subrange(0, i as int)).push(name@));
            }
            i = i + 1;
        }
        assert(all.subrange(0, names@.len() as int) =~= all);
        self.listing = kept;
        self.listed = 0;
        0
    }

    /// `FileDir.Enumerate` step: write the next listed name (NUL-padded to 32
    /// bytes) at `adr` and answer 0; at the end write an empty name and answer
    /// `u32::MAX`.
    pub fn enumerate_next(&mut self, adr: u32, mem: &mut ShimMem) -> (r: u32)
        requires
            old(self).wf(),
        ensures
            final(self).wf(),
            final(mem)@.len() == old(mem)@.len(),
            if old(self)@.listed < old(self)@.listing.len() {
                &&& r == 0
                &&& final(mem)@ == mem_write_bytes(
                    old(mem)@,
                    adr as int,
                    padded(utf8_of(old(self)@.listing[old(self)@.listed]), NAME_LEN as int),
                )
                &&& final(self)@ == (HostState { listed: old(self)@.listed + 1, ..old(self)@ })
            } else {
                &&& r == u32::MAX
                &&& final(mem)@ == mem_write_byte(old(mem)@, adr as int, 0)
                &&& final(self)@ == old(self)@
            },
    {
        if self.listed < self.listing.len() {
            let bytes = self.listing[self.listed].as_str().as_bytes();
            let ghost want = padded(bytes@, NAME_LEN as int);
            let mut buf: Vec<u8> = Vec::new();
            let mut j: usize = 0;
            while j < NAME_LEN
                invariant
                    j <= NAME_LEN,
                    buf@ =~= want.subrange(0, j as int),
                    want == padded(bytes@, NAME_LEN as int),
                decreases NAME_LEN - j,
            {
                let b = if j < NAME_LEN - 1 && j < bytes.len() { bytes[j] } else { 0 };
                buf.push(b);
                j = j + 1;
            }
            assert(want.subrange(0, NAME_LEN as int) =~= want);
            mem.write_bytes(adr, buf.as_slice());
            self.listed = self.listed + 1;
            0
        } else {
            mem.write_byte(adr, 0);
            u32::MAX
        }
    }

    /// `FileDir.Enumerate` ends: drop the listing.
    pub fn enumerate_end(&mut self) -> (r: u32)
        requires
            old(self).wf(),
        ensures
            final(self).wf(),
            r == 0,
            final(self)@ == (HostState { listing: Seq::empty(), listed: 0, ..old(self)@ }),
    {
        self.listing = Vec::new();
        self.listed = 0;
        assert(self@.listing =~= Seq::<Seq<char>>::empty());
        0
    }
}

/// Whether a syscall's latched arguments are ones the host can serve: a trap
/// number leaves room for its exit code, and a seek stays within 2^63.
pub open spec fn syscall_ok(s: HostState, n: u32, ram: Seq<u32>) -> bool {
    let a0 = s.sysarg[0];
    let a1 = s.sysarg[1];
    let a2 = s.sysarg[2];
    &&& s.sysarg.len() == 3
    &&& n == 4 ==> crate::risc::signed(a0) + 100 <= i32::MAX
    &&& n == 15 ==> (open_file(s, a0) matches Some(f) ==> seek_target(f, a1, a2) < 0x8000_0000_0000_0000)
}

/// What syscall `n` does, with latched arguments `a0`, `a1`, `a2`: from host
/// state `s` and guest memory `m` to `s2` and `m2`, answering `r`. 1 halts
/// with exit code `a0`; 2 and 3 hand out the arguments; 4 traps; 11 to 19
/// and 21 to 23 are the file operations, 20 answers a fixed date and 22 (purge)
/// does nothing; 31 to 33 list the working directory; any other number stops
/// the guest with exit code 1.
pub open spec fn syscall_spec(s: HostState, m: Seq<u32>, n: u32, s2: HostState, m2: Seq<u32>, r: u32) -> bool {
    let a0 = s.sysarg[0];
    let a1 = s.sysarg[1];
    let a2 = s.sysarg[2];
    let same_mem = m2 == m;
    if n == 1 {
        r == 0 && same_mem && s2 == (HostState { exit: Some(a0 as i32), ..s })
    } else if n == 2 {
        r == s.args.len() as u32 && same_mem && s2 == s
    } else if n == 3 {
        s2 == s && if (a0 as int) < s.args.len() {
            let bs = utf8_of(s.args[a0 as int]);
            r == bs.len() as u32 && m2 == mem_write_bytes(m, a1 as int, padded(bs, a2 as int))
        } else {
            r == u32::MAX && same_mem
        }
    } else if n == 4 {
        r == 0 && same_mem && s2 == (HostState { exit: Some((crate::risc::signed(a0) + 100) as i32), ..s })
    } else if n == 11 {
        same_mem && match name_in(name_buffer(m, a0 as int)) {
            None => r == u32::MAX && s2 == s,
            Some(name) => (s2, r) == allocated(
                s,
                FileState { data: Seq::empty(), pos: 0, name, persist: false, registered: false, dirty: false },
            ),
        }
    } else if n == 12 {
        same_mem && match name_in(name_buffer(m, a0 as int)) {
            None => r == u32::MAX && s2 == s,
            Some(name) => exists|found: Option<(Seq<u8>, bool)>| (s2, r) == old_spec(s, name, found),
        }
    } else if n == 13 {
        same_mem && exists|ok: bool| (s2, r) == register_spec(s, a0, ok)
    } else if n == 14 {
        same_mem && r == 0 && exists|ok: bool| s2 == close_spec(s, a0, ok)
    } else if n == 15 {
        same_mem && r == 0 && s2 == match open_file(s, a0) {
            Some(f) => with_file(s, a0, FileState { pos: seek_target(f, a1, a2) as u64, ..f }),
            None => s,
        }
    } else if n == 16 {
        same_mem && s2 == s && r == match open_file(s, a0) {
            Some(f) => f.pos as u32,
            None => u32::MAX,
        }
    } else if n == 17 {
        match open_file(s, a0) {
            Some(f) => {
                let k = clamped(a2, m);
                &&& r == read_count(f.data, f.pos, k)
                &&& m2 == mem_write_bytes(m, a1 as int, read_window(f.data, f.pos, k))
                &&& s2 == with_file(s, a0, FileState { pos: (f.pos + r) as u64, ..f })
            },
            None => r == 0 && same_mem && s2 == s,
        }
    } else if n == 18 {
        same_mem && match open_file(s, a0) {
            Some(f) => {
                let k = clamped(a2, m);
                if f.pos + k > MAX_FILE_BYTES {
                    r == 0 && s2 == s
                } else {
                    &&& r == k
                    &&& s2 == with_file(
                        s,
                        a0,
                        FileState {
                            data: written_data(f.data, f.pos, m, a1 as int, k),
                            pos: (f.pos + k) as u64,
                            dirty: true,
                            ..f
                        },
                    )
                }
            },
            None => r == 0 && s2 == s,
        }
    } else if n == 19 {
        same_mem && s2 == s && r == match open_file(s, a0) {
            Some(f) => f.data.len() as u32,
            None => u32::MAX,
        }
    } else if n == 20 {
        same_mem && s2 == s && r == OBERON_DATE
    } else if n == 21 {
        same_mem && match name_in(name_buffer(m, a0 as int)) {
            Some(name) if name.len() > 0 => (r == 0 || r == u32::MAX) && s2 == (HostState {
                log: s.log.push(EnvEvent::Delete(name, r == 0)),
                ..s
            }),
            _ => r == u32::MAX && s2 == s,
        }
    } else if n == 22 {
        same_mem && s2 == s && r == 0
    } else if n == 23 {
        same_mem && match (name_in(name_buffer(m, a0 as int)), name_in(name_buffer(m, a1 as int))) {
            (Some(x), Some(y)) if x.len() > 0 && y.len() > 0 => (r == 0 || r == u32::MAX) && s2 == (HostState {
                log: s.log.push(EnvEvent::Rename(x, y, r == 0)),
                ..s
            }),
            _ => r == u32::MAX && s2 == s,
        }
    } else if n == 31 {
        same_mem && r == 0 && exists|names: Seq<Seq<char>>|
            s2 == (HostState {
                listing: #[trigger] listable(names),
                listed: 0,
                log: s.log.push(EnvEvent::List(names)),
                ..s
            })
    } else if n == 32 {
        if s.listed < s.listing.len() {
            &&& r == 0
            &&& m2 == mem_write_bytes(m, a0 as int, padded(utf8_of(s.listing[s.listed]), NAME_LEN as int))
            &&& s2 == (HostState { listed: s.listed + 1, ..s })
        } else {
            &&& r == u32::MAX
            &&& m2 == mem_write_byte(m, a0 as int, 0)
            &&& s2 == s
        }
    } else if n == 33 {
        same_mem && r == 0 && s2 == (HostState { listing: Seq::empty(), listed: 0, ..s })
    } else {
        same_mem && r == 0 && s2 == (HostState { exit: Some(1), ..s })
    }
}

/// The I/O word at byte `offset` that a load reads without asking the
/// environment: 12 the status (3), 48, 52 and 56 the latched syscall
/// arguments 2, 1 and 0, 60 the last syscall result, anything else 0.
pub open spec fn load_spec(s: HostState, offset: u32) -> u32 {
    if offset == 12 {
        3
    } else if offset == 48 {
        s.sysarg[2]
    } else if offset == 52 {
        s.sysarg[1]
    } else if offset == 56 {
        s.sysarg[0]
    } else if offset == 60 {
        s.sysres
    } else {
        0
    }
}

impl Host {
    /// Run syscall `n` with the latched arguments (see [`syscall_spec`]).
    pub fn sysreq(&mut self, n: u32, mem: &mut ShimMem) -> (r: u32)
        requires
            old(self).wf(),
            old(mem)@.len() < MAX_RAM_WORDS,
            syscall_ok(old(self)@, n, old(mem)@),
        ensures
            final(self).wf(),
            final(mem)@.len() == old(mem)@.len(),
            final(self)@.sysarg == old(self)@.sysarg,
            syscall_spec(old(self)@, old(mem)@, n, final(self)@, final(mem)@, r),
    {
        let a0 = self.sysarg[0];
        let a1 = self.sysarg[1];
        let a2 = self.sysarg[2];
        assert(a0 == self@.sysarg[0] && a1 == self@.sysarg[1] && a2 == self@.sysarg[2]);
        if n == 1 {
            self.halt(a0);
            0
        } else if n == 2 {
            self.argc()
        } else if n == 3 {
            self.argv(a0, a1, a2, mem)
        } else if n == 4 {
            self.trap(a0);
            0
        } else if n == 11 {
            self.files_new(a0, mem)
        } else if n == 12 {
            self.files_old(a0, mem)
        } else if n == 13 {
            self.files_register(a0)
        } else if n == 14 {
            self.files_close(a0)
        } else if n == 15 {
            self.files_seek(a0, a1, a2)
        } else if n == 16 {
            self.files_tell(a0)
        } else if n == 17 {
            self.files_read(a0, a1, a2, mem)
        } else if n == 18 {
            self.files_write(a0, a1, a2, mem)
        } else if n == 19 {
            self.files_length(a0)
        } else if n == 20 {
            OBERON_DATE
        } else if n == 21 {
            self.files_delete(a0, mem)
        } else if n == 22 {
            0
        } else if n == 23 {
            self.files_rename(a0, a1, mem)
        } else if n == 31 {
            self.enumerate_begin()
        } else if n == 32 {
            self.enumerate_next(a0, mem)
        } else if n == 33 {
            self.enumerate_end()
        } else {
            self.exit = Some(1);
            0
        }
    }

    /// Read the I/O word at byte `offset`: 0 is the environment's millisecond
    /// clock and 8 its next console input byte; the rest as [`load_spec`].
    pub fn load(&mut self, offset: u32) -> (v: u32)
        requires
            old(self).wf(),
        ensures
            final(self).wf(),
            offset == 0 ==> final(self)@ == (HostState { log: old(self)@.log.push(EnvEvent::Clock(v)), ..old(self)@ }),
            offset == 8 ==> final(self)@ == (HostState { log: old(self)@.log.push(EnvEvent::Getchar(v)), ..old(self)@ }),
            offset != 0 && offset != 8 ==> final(self)@ == old(self)@ && v == load_spec(old(self)@, offset),
    {
        if offset == 0 {
            let t = self.env.clock_ms();
            self.log = Ghost(self.log@.push(EnvEvent::Clock(t)));
            t
        } else if offset == 8 {
            let c = self.env.getchar();
            self.log = Ghost(self.log@.push(EnvEvent::Getchar(c)));
            c
        } else if offset == 12 {
            3
        } else if offset == 48 {
            self.sysarg[2]
        } else if offset == 52 {
            self.sysarg[1]
        } else if offset == 56 {
            self.sysarg[0]
        } else if offset == 60 {
            self.sysres
        } else {
            0
        }
    }

    /// Write `value` to the I/O word at byte `offset`: 8 writes a console
    /// byte, 48, 52 and 56 latch syscall arguments 2, 1 and 0, and 60 runs
    /// syscall `value` (see [`syscall_spec`]) and latches its result; anything
    /// else (the LEDs at 4) is ignored.
    pub fn store(&mut self, offset: u32, value: u32, mem: &mut ShimMem)
        requires
            old(self).wf(),
            old(mem)@.len() < MAX_RAM_WORDS,
            offset == 60 ==> syscall_ok(old(self)@, value, old(mem)@),
        ensures
            final(self).wf(),
            final(mem)@.len() == old(mem)@.len(),
            offset == 8 ==> final(mem)@ == old(mem)@ && final(self)@ == (HostState {
                log: old(self)@.log.push(EnvEvent::Putchar((value & 0xFF) as u8)),
                ..old(self)@
            }),
            offset == 48 ==> final(mem)@ == old(mem)@ && final(self)@ == (HostState {
                sysarg: old(self)@.sysarg.update(2, value),
                ..old(self)@
            }),
            offset == 52 ==> final(mem)@ == old(mem)@ && final(self)@ == (HostState {
                sysarg: old(self)@.sysarg.update(1, value),
                ..old(self)@
            }),
            offset == 56 ==> final(mem)@ == old(mem)@ && final(self)@ == (HostState {
                sysarg: old(self)@.sysarg.update(0, value),
                ..old(self)@
            }),
            offset == 60 ==> exists|s2: HostState|
                #[trigger] syscall_spec(old(self)@, old(mem)@, value, s2, final(mem)@, final(self)@.sysres)
                    && final(self)@ == (HostState { sysres: final(self)@.sysres, ..s2 }),
            offset != 8 && offset != 48 && offset != 52 && offset != 56 && offset != 60 ==> final(mem)@
                == old(mem)@ && final(self)@ == old(self)@,
    {
        if offset == 8 {
            self.env.putchar((value & 0xFF) as u8);
            self.log = Ghost(self.log@.push(EnvEvent::Putchar((value & 0xFF) as u8)));
        } else if offset == 48 {
            self.sysarg[2] = value;
        } else if offset == 52 {
            self.sysarg[1] = value;
        } else if offset == 56 {
            self.sysarg[0] = value;
        } else if offset == 60 {
            let r = self.sysreq(value, mem);
            let ghost s2 = self@;
            self.sysres = r;
            assert(syscall_spec(old(self)@, old(mem)@, value, s2, mem@, self@.sysres));
            assert(self@ == (HostState { sysres: self@.sysres, ..s2 }));
        }
    }

    /// Close every file still open, writing back the dirty persisted ones (as
    /// the end of a command does).
    pub fn shutdown(&mut self)
        requires
            old(self).wf(),
        ensures
            final(self).wf(),
            forall|i: int| 0 <= i < final(self)@.files.len() ==> final(self)@.files[i] is None,
    {
        let mut i: usize = 0;
        while i < MAX_FILES
            invariant
                self.wf(),
                i <= MAX_FILES,
                forall|j: int| 0 <= j < i ==> self@.files[j] is None,
            decreases MAX_FILES - i,
        {
            self.files_close(i as u32);
            i = i + 1;
        }
    }
}

impl Host {
    /// Whether syscall `n` with the latched arguments is one the host can serve
    /// over guest memory `mem` (see [`syscall_ok`]).
    pub fn syscall_allowed(&self, n: u32, mem: &ShimMem) -> (b: bool)
        requires
            self.wf(),
            mem@.len() < MAX_RAM_WORDS,
        ensures
            b == syscall_ok(self@, n, mem@),
    {
        let a0 = self.sysarg[0] as u64;
        let a1 = self.sysarg[1] as u64;
        let a2 = self.sysarg[2] as u64;
        if n == 4 {
            let t: i64 = if a0 < 0x8000_0000 { a0 as i64 } else { a0 as i64 - 0x1_0000_0000 };
            t + 100 <= 0x7FFF_FFFF
        } else if n == 15 {
            match self.file(self.sysarg[0]) {
                None => true,
                Some(f) => {
                    let base: i128 = if a2 == 1 {
                        f.pos as i128
                    } else if a2 == 2 {
                        f.data.len() as i128
                    } else {
                        0
                    };
                    let p: i128 = if a1 < 0x8000_0000 { a1 as i128 } else { a1 as i128 - 0x1_0000_0000 };
                    let t = base + p;
                    let t = if t < 0 { 0 } else { t };
                    t < 0x8000_0000_0000_0000
                },
            }
        } else {
            true
        }
    }
}

/// What a load of the shim's I/O word at `offset` does: from host state `h` to
/// `h2`, reading `v` (see [`Host::load`]).
pub open spec fn load_done(h: HostState, offset: u32, h2: HostState, v: u32) -> bool {
    if offset == 0 {
        h2 == (HostState { log: h.log.push(EnvEvent::Clock(v)), ..h })
    } else if offset == 8 {
        h2 == (HostState { log: h.log.push(EnvEvent::Getchar(v)), ..h })
    } else {
        h2 == h && v == load_spec(h, offset)
    }
}

/// What a store of `value` to the shim's I/O word at `offset` does: from host
/// state `h` and guest memory `m` to `h2` and `m2` (see [`Host::store`]).
pub open spec fn store_done(h: HostState, m: Seq<u32>, offset: u32, value: u32, h2: HostState, m2: Seq<u32>) -> bool {
    if offset == 8 {
        m2 == m && h2 == (HostState { log: h.log.push(EnvEvent::Putchar((value & 0xFF) as u8)), ..h })
    } else if offset == 48 {
        m2 == m && h2 == (HostState { sysarg: h.sysarg.update(2, value), ..h })
    } else if offset == 52 {
        m2 == m && h2 == (HostState { sysarg: h.sysarg.update(1, value), ..h })
    } else if offset == 56 {
        m2 == m && h2 == (HostState { sysarg: h.sysarg.update(0, value), ..h })
    } else if offset == 60 {
        exists|s2: HostState| #[trigger] syscall_spec(h, m, value, s2, m2, h2.sysres) && h2 == (HostState { sysres: h2.sysres, ..s2 })
    } else {
        m2 == m && h2 == h
    }
}

/// One instruction of a machine in shim mode, from `(s, h)` to `(s2, h2)`: an
/// instruction that reaches no I/O register runs as on the machine; an I/O
/// load reads the shim host's word at its offset from the I/O base; an I/O
/// store hands the value to the shim host, which may read and write the RAM.
pub open spec fn shim_step(s: MachineState, h: HostState, s2: MachineState, h2: HostState) -> bool {
    match io_access(s) {
        None => s2 == step(s, 0) && h2 == h,
        Some(IoAccess::Load { address, reg, byte }) => exists|v: u32|
            #[trigger] load_done(h, sub32(address, IO_START), h2, v) && s2 == io_load_done(s, reg, address, byte, v),
        Some(IoAccess::Store { address, value }) => {
            &&& store_done(h, s.ram, sub32(address, IO_START), value, h2, s2.ram)
            &&& s2 == (MachineState { pc: (s.pc + 1) as u32, ram: s2.ram, ..s })
        },
    }
}

/// `trace` is a run in shim mode: each state the shim step of the one before,
/// the guest not yet stopped in any but the last.
pub open spec fn shim_trace(trace: Seq<(MachineState, HostState)>) -> bool {
    &&& trace.len() >= 1
    &&& forall|i: int|
        0 <= i < trace.len() - 1 ==> shim_step(#[trigger] trace[i].0, trace[i].1, trace[i + 1].0, trace[i + 1].1)
    &&& forall|i: int| 0 <= i < trace.len() - 1 ==> (#[trigger] trace[i].1).exit is None
}

/// How a shim run ended.
#[derive(Debug, Clone, Copy, PartialEq, Eq, Structural)]
pub enum ShimOutcome {
    /// The guest stopped with this exit code.
    Exited(i32),
    /// The guest asked for this syscall with arguments the host cannot serve
    /// (a trap number whose exit code overflows, a seek past 2^63); the
    /// machine stands before that store.
    Refused(u32),
    /// The step budget ran out first.
    OutOfSteps,
}

/// Run `risc` in shim mode against `host` for at most `budget` instructions:
/// RAM holds the inner core, and the whole I/O space is the shim host's ports
/// (offsets from the I/O base; see [`Host::load`] and [`Host::store`]).
pub fn run_shim(risc: &mut Risc, host: &mut Host, budget: u64) -> (out: ShimOutcome)
    requires
        old(risc).wf(),
        old(host).wf(),
    ensures
        final(risc).wf(),
        final(host).wf(),
        exists|trace: Seq<(MachineState, HostState)>|
            {
                &&& shim_trace(trace)
                &&& trace[0] == (old(risc)@, old(host)@)
                &&& trace.last() == (final(risc)@, final(host)@)
                &&& trace.len() <= budget + 1
                &&& match out {
                    ShimOutcome::Exited(c) => final(host)@.exit == Some(c),
                    ShimOutcome::Refused(n) => {
                        &&& final(host)@.exit is None
                        &&& io_access(final(risc)@) matches Some(IoAccess::Store { address, value })
                        &&& sub32(address, IO_START) == 60
                        &&& value == n
                        &&& !syscall_ok(final(host)@, n, final(risc)@.ram)
                    },
                    ShimOutcome::OutOfSteps => final(host)@.exit is None && trace.len() == budget + 1,
                }
            },
{
    let ghost mut trace: Seq<(MachineState, HostState)> = seq![(risc@, host@)];
    let mut steps: u64 = 0;
    loop
        invariant
            risc.wf(),
            host.wf(),
            steps <= budget,
            shim_trace(trace),
            trace.len() == steps + 1,
            trace[0] == (old(risc)@, old(host)@),
            trace.last() == (risc@, host@),
        decreases budget - steps,
    {
        match host.exit_code() {
            Some(c) => {
                return ShimOutcome::Exited(c);
            },
            None => {},
        }
        if steps == budget {
            return ShimOutcome::OutOfSteps;
        }
        let ghost s0 = risc@;
        let ghost h0 = host@;
        match risc.pending_io() {
            None => {
                risc.step_without_io();
            },
            Some(IoAccess::Load { address, reg, byte }) => {
                let v = host.load(address.wrapping_sub(IO_START));
                risc.finish_io_load(address, reg, byte, v);
                assert(load_done(h0, sub32(address, IO_START), host@, v));
            },
            Some(IoAccess::Store { address, value }) => {
                let off = address.wrapping_sub(IO_START);
                assert(s0.pc < 0xFFFF_FFFF);
                let ram = risc.swap_ram(Vec::new());
                let mut mem = ShimMem::new(ram);
                if off == 60 && !host.syscall_allowed(value, &mem) {
                    let ram = mem.into_ram();
                    risc.swap_ram(ram);
                    assert(risc@ == s0);
                    return ShimOutcome::Refused(value);
                }
                host.store(off, value, &mut mem);
                let ram = mem.into_ram();
                risc.swap_ram(ram);
                risc.finish_io_store();
                assert(store_done(h0, s0.ram, off, value, host@, risc@.ram));
            },
        }
        proof {
            let t2 = trace.push((risc@, host@));
            assert(shim_step(s0, h0, risc@, host@));
            assert forall|i: int| 0 <= i < t2.len() - 1 implies shim_step(
                #[trigger] t2[i].0,
                t2[i].1,
                t2[i + 1].0,
                t2[i + 1].1,
            ) by {
                if i < trace.len() - 1 {
                    assert(t2[i] == trace[i] && t2[i + 1] == trace[i + 1]);
                }
            }
            assert forall|i: int| 0 <= i < t2.len() - 1 implies (#[trigger] t2[i].1).exit is None by {
                if i < trace.len() - 1 {
                    assert(t2[i] == trace[i]);
                }
            }
            trace = t2;
        }
        steps = steps + 1;
    }
}

} // verus!
