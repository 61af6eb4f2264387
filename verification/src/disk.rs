//! The SPI SD-card state machine: just enough of the SD command protocol for
//! Oberon, single-block read (CMD17, byte 81) and write (CMD24, byte 88),
//! driven byte by byte through the [`Spi`] interface. The card's blocks live
//! in a [`BlockStore`] the embedder supplies (a host file); a filesystem-only
//! image (first word `0x9B1E_A38D`) has its sector numbers rebased by the
//! fixed `0x80002` offset.
use vstd::prelude::*;

use crate::io::Spi;

verus! {

/// Where the card's 512-byte blocks are kept, read and written at a current
/// position like a file.
pub trait BlockStore {
    /// Move to byte offset `pos`.
    fn seek(&mut self, pos: u64);

    /// Read up to 512 bytes from the current position (fewer at the end).
    fn read_block(&mut self) -> Vec<u8>;

    /// Write 512 bytes at the current position.
    fn write_block(&mut self, bytes: &[u8]);
}

/// The mark a filesystem-only image begins with.
pub const FS_MARK: u32 = 0x9B1E_A38D;

/// The sector offset of a filesystem-only image.
pub const FS_OFFSET: u32 = 0x8_0002;

/// What the card is doing.
#[derive(Debug, Clone, Copy, PartialEq, Eq, Structural)]
pub enum DiskState {
    Command,
    Read,
    Write,
    Writing,
}

/// One call the card made into its block store.
pub enum StoreEvent {
    Seek(u64),
    Read(Seq<u8>),
    Write(Seq<u8>),
}

/// The card's state, and its calls into the block store so far.
pub struct CardState {
    pub state: DiskState,
    pub attached: bool,
    pub offset: u32,
    pub rx: Seq<u32>,
    pub rx_idx: int,
    pub tx: Seq<u32>,
    pub tx_cnt: int,
    pub tx_idx: i32,
    pub log: Seq<StoreEvent>,
}

/// Little-endian word `i` of a block read back: bytes past its end are zero.
pub open spec fn block_word(bytes: Seq<u8>, i: int) -> u32 {
    let b = |k: int| if k < bytes.len() { bytes[k] } else { 0u8 };
    (b(4 * i) as u32) | ((b(4 * i + 1) as u32) << 8) | ((b(4 * i + 2) as u32) << 16) | ((b(4 * i + 3) as u32)
        << 24)
}

/// The 128 words of a block read back.
pub open spec fn block_words(bytes: Seq<u8>) -> Seq<u32> {
    Seq::new(128, |i: int| block_word(bytes, i))
}

/// The 512 little-endian bytes of 128 words.
pub open spec fn words_bytes(words: Seq<u32>) -> Seq<u8> {
    Seq::new(512, |k: int| ((words[k / 4] >> (8 * (k % 4)) as u32) & 0xFF) as u8)
}

/// The command in the receive buffer: byte 0, then a big-endian argument.
pub open spec fn command_arg(rx: Seq<u32>) -> u32 {
    (rx[1] << 24) | (rx[2] << 16) | (rx[3] << 8) | rx[4]
}

/// The byte offset of sector `sec` after rebasing by `offset`.
pub open spec fn sector_pos(offset: u32, sec: u32) -> u64 {
    vstd::wrapping::u32_specs::wrapping_mul(vstd::wrapping::u32_specs::wrapping_sub(sec, offset), 512) as u64
}

/// Running the received command: a read (81) seeks to the sector, reads it
/// (`block` is what the store handed back) and queues the R1 response, the
/// data token and the sector; a write (88) seeks and queues R1 and waits for
/// the data token; anything else queues a bare R1.
pub open spec fn run_command(s: CardState, block: Seq<u8>) -> CardState {
    let cmd = s.rx[0];
    let pos = sector_pos(s.offset, command_arg(s.rx));
    if cmd == 81 {
        let log = if s.attached {
            s.log.push(StoreEvent::Seek(pos)).push(StoreEvent::Read(block))
        } else {
            s.log
        };
        let data = if s.attached { block_words(block) } else { Seq::new(128, |i: int| 0u32) };
        CardState {
            state: DiskState::Read,
            tx: Seq::new(130, |i: int| if i == 0 { 0 } else if i == 1 { 254 } else if i < 130 { data[i - 2] } else { 0 }),
            tx_cnt: 130,
            tx_idx: -1i32,
            log,
            ..s
        }
    } else if cmd == 88 {
        let log = if s.attached { s.log.push(StoreEvent::Seek(pos)) } else { s.log };
        CardState { state: DiskState::Write, tx: s.tx.update(0, 0), tx_cnt: 1, tx_idx: -1i32, log, ..s }
    } else {
        CardState { tx: s.tx.update(0, 0), tx_cnt: 1, tx_idx: -1i32, ..s }
    }
}

/// A byte clocked in from the host (`block` is what a sector read hands back,
/// if the byte completes a read command).
pub open spec fn card_write(s: CardState, value: u32, block: Seq<u8>) -> CardState {
    let s1 = CardState { tx_idx: vstd::wrapping::i32_specs::wrapping_add(s.tx_idx, 1), ..s };
    match s.state {
        DiskState::Command => {
            if (value & 0xFF) != 0xFF || s.rx_idx != 0 {
                let s2 = CardState { rx: s1.rx.update(s1.rx_idx, value), rx_idx: s1.rx_idx + 1, ..s1 };
                if s2.rx_idx == 6 {
                    CardState { rx_idx: 0, ..run_command(s2, block) }
                } else {
                    s2
                }
            } else {
                s1
            }
        },
        DiskState::Read => {
            if s1.tx_idx as int == s1.tx_cnt {
                CardState { state: DiskState::Command, tx_cnt: 0, tx_idx: 0, ..s1 }
            } else {
                s1
            }
        },
        DiskState::Write => {
            if value == 254 {
                CardState { state: DiskState::Writing, ..s1 }
            } else {
                s1
            }
        },
        DiskState::Writing => {
            let rx = if s1.rx_idx < 128 { s1.rx.update(s1.rx_idx, value) } else { s1.rx };
            let idx = s1.rx_idx + 1;
            let log = if idx == 128 && s1.attached {
                s1.log.push(StoreEvent::Write(words_bytes(rx)))
            } else {
                s1.log
            };
            if idx == 130 {
                CardState {
                    rx,
                    rx_idx: 0,
                    tx: s1.tx.update(0, 5),
                    tx_cnt: 1,
                    tx_idx: -1i32,
                    state: DiskState::Command,
                    log,
                    ..s1
                }
            } else {
                CardState { rx, rx_idx: idx, log, ..s1 }
            }
        },
    }
}

/// The byte the card clocks out: the queued response byte, idle (255) otherwise.
pub open spec fn card_read(s: CardState) -> u32 {
    if 0 <= s.tx_idx < s.tx_cnt { s.tx[s.tx_idx as int] } else { 255 }
}

/// An SD card on the SPI bus.
pub struct Disk {
    state: DiskState,
    store: Option<Box<dyn BlockStore>>,
    offset: u32,
    rx_buf: Vec<u32>,
    rx_idx: usize,
    tx_buf: Vec<u32>,
    tx_cnt: i32,
    tx_idx: i32,
    log: Ghost<Seq<StoreEvent>>,
}

impl View for Disk {
    type V = CardState;

    closed spec fn view(&self) -> CardState {
        CardState {
            state: self.state,
            attached: self.store is Some,
            offset: self.offset,
            rx: self.rx_buf@,
            rx_idx: self.rx_idx as int,
            tx: self.tx_buf@,
            tx_cnt: self.tx_cnt as int,
            tx_idx: self.tx_idx,
            log: self.log@,
        }
    }
}

/// The words of a block read back (see [`block_words`]).
fn to_words(bytes: &Vec<u8>) -> (w: Vec<u32>)
    ensures
        w@ == block_words(bytes@),
{
    let mut w: Vec<u32> = Vec::new();
    let mut i: usize = 0;
    while i < 128
        invariant
            i <= 128,
            w@.len() == i,
            forall|j: int| 0 <= j < i ==> w@[j] == block_word(bytes@, j),
        decreases 128 - i,
    {
        let b0 = if 4 * i < bytes.len() { bytes[4 * i] } else { 0 };
        let b1 = if 4 * i + 1 < bytes.len() { bytes[4 * i + 1] } else { 0 };
        let b2 = if 4 * i + 2 < bytes.len() { bytes[4 * i + 2] } else { 0 };
        let b3 = if 4 * i + 3 < bytes.len() { bytes[4 * i + 3] } else { 0 };
        w.push((b0 as u32) | ((b1 as u32) << 8u32) | ((b2 as u32) << 16u32) | ((b3 as u32) << 24u32));
        i = i + 1;
    }
    assert(w@ =~= block_words(bytes@));
    w
}

/// The bytes of a sector's words (see [`words_bytes`]).
fn to_bytes(words: &Vec<u32>) -> (b: Vec<u8>)
    requires
        words@.len() == 128,
    ensures
        b@ == words_bytes(words@),
{
    let mut b: Vec<u8> = Vec::new();
    let mut k: usize = 0;
    while k < 512
        invariant
            k <= 512,
            words@.len() == 128,
            b@.len() == k,
            forall|j: int| 0 <= j < k ==> b@[j] == ((words@[j / 4] >> (8 * (j % 4)) as u32) & 0xFF) as u8,
        decreases 512 - k,
    {
        let sh = (8 * (k % 4)) as u32;
        b.push(((words[k / 4] >> sh) & 0xFF) as u8);
        k = k + 1;
    }
    assert(b@ =~= words_bytes(words@));
    b
}

impl Disk {
    /// The buffers have their sizes and the indices are in range.
    pub open spec fn wf(&self) -> bool {
        &&& self@.rx.len() == 128
        &&& self@.tx.len() == 130
        &&& 0 <= self@.rx_idx <= 130
        &&& (self@.state == DiskState::Command ==> self@.rx_idx < 6)
        &&& (self@.state == DiskState::Read || self@.state == DiskState::Write ==> self@.rx_idx == 0)
        &&& (self@.state == DiskState::Writing ==> self@.rx_idx < 130)
        &&& 0 <= self@.tx_cnt <= 130
    }

    /// The buffers have their sizes.
    pub open spec fn buffers_ok(&self) -> bool {
        &&& self@.rx.len() == 128
        &&& self@.tx.len() == 130
    }

    /// A card over `store`, or a card with no medium (`None`, for booting from
    /// the serial line). With a store, sector 0 is read to tell a
    /// filesystem-only image (first word the directory mark) from a full card
    /// image.
    pub fn new(store: Option<Box<dyn BlockStore>>) -> (d: Disk)
        ensures
            d.wf(),
            d@.state == DiskState::Command,
            d@.attached == (store is Some),
            d@.rx_idx == 0 && d@.tx_cnt == 0 && d@.tx_idx == 0,
            match store {
                None => d@.offset == 0 && d@.log.len() == 0,
                Some(_) => exists|block: Seq<u8>|
                    d@.log == seq![StoreEvent::Read(block)] && d@.offset == if block_word(block, 0) == FS_MARK {
                        FS_OFFSET
                    } else {
                        0u32
                    },
            },
    {
        let mut disk = Disk {
            state: DiskState::Command,
            store: None,
            offset: 0,
            rx_buf: vec![0u32; 128],
            rx_idx: 0,
            tx_buf: vec![0u32; 130],
            tx_cnt: 0,
            tx_idx: 0,
            log: Ghost(Seq::empty()),
        };
        match store {
            None => {},
            Some(mut st) => {
                let block = st.read_block();
                let words = to_words(&block);
                disk.offset = if words[0] == FS_MARK { FS_OFFSET } else { 0 };
                disk.log = Ghost(Seq::empty().push(StoreEvent::Read(block@)));
                disk.store = Some(st);
            },
        }
        disk
    }

    /// The sector offset applied to the card's sector numbers: `FS_OFFSET`
    /// for a filesystem-only image, else 0.
    pub fn offset(&self) -> (o: u32)
        ensures
            o == self@.offset,
    {
        self.offset
    }

    /// Run the command in the receive buffer.
    fn run_command(&mut self) -> (block: Ghost<Seq<u8>>)
        requires
            old(self).buffers_ok(),
        ensures
            final(self).buffers_ok(),
            final(self)@.tx_cnt == 1 || final(self)@.tx_cnt == 130,
            final(self)@ == run_command(old(self)@, block@),
    {
        let cmd = self.rx_buf[0];
        let arg = (self.rx_buf[1] << 24u32) | (self.rx_buf[2] << 16u32) | (self.rx_buf[3] << 8u32)
            | self.rx_buf[4];
        let pos = (arg.wrapping_sub(self.offset)).wrapping_mul(512) as u64;
        if cmd == 81 {
            self.state = DiskState::Read;
            let mut tx: Vec<u32> = vec![0u32; 130];
            tx.set(1, 254);
            let mut got: Ghost<Seq<u8>> = Ghost(Seq::empty());
            let words = match &mut self.store {
                Some(st) => {
                    st.seek(pos);
                    let block = st.read_block();
                    self.log = Ghost(self.log@.push(StoreEvent::Seek(pos)).push(StoreEvent::Read(block@)));
                    got = Ghost(block@);
                    to_words(&block)
                },
                None => vec![0u32; 128],
            };
            let mut i: usize = 0;
            while i < 128
                invariant
                    i <= 128,
                    words@.len() == 128,
                    tx@.len() == 130,
                    tx@[0] == 0 && tx@[1] == 254,
                    forall|j: int| 2 <= j < i + 2 ==> tx@[j] == words@[j - 2],
                decreases 128 - i,
            {
                tx.set(i + 2, words[i]);
                i = i + 1;
            }
            self.tx_buf = tx;
            self.tx_cnt = 130;
            self.tx_idx = -1;
            proof {
                let data = if old(self)@.attached { block_words(got@) } else { Seq::new(128, |i: int| 0u32) };
                assert(words@ =~= data);
                assert(self@.tx =~= Seq::new(
                    130,
                    |i: int| if i == 0 { 0 } else if i == 1 { 254 } else if i < 130 { data[i - 2] } else { 0 },
                ));
            }
            got
        } else if cmd == 88 {
            self.state = DiskState::Write;
            match &mut self.store {
                Some(st) => {
                    st.seek(pos);
                    self.log = Ghost(self.log@.push(StoreEvent::Seek(pos)));
                },
                None => {},
            }
            self.tx_buf.set(0, 0);
            self.tx_cnt = 1;
            self.tx_idx = -1;
            Ghost(Seq::empty())
        } else {
            self.tx_buf.set(0, 0);
            self.tx_cnt = 1;
            self.tx_idx = -1;
            Ghost(Seq::empty())
        }
    }
}

impl Spi for Disk {
    /// The byte the card clocks out.
    fn read_data(&mut self) -> (r: u32)
        ensures
            final(self)@ == old(self)@,
            old(self).wf() ==> r == card_read(old(self)@),
    {
        if self.tx_idx >= 0 && self.tx_idx < self.tx_cnt && (self.tx_idx as usize) < self.tx_buf.len() {
            self.tx_buf[self.tx_idx as usize]
        } else {
            255
        }
    }

    /// A byte clocked in from the host.
    fn write_data(&mut self, value: u32)
        ensures
            old(self).wf() ==> final(self).wf(),
            old(self).wf() ==> exists|block: Seq<u8>| final(self)@ == card_write(old(self)@, value, block),
    {
        if !(self.rx_buf.len() == 128 && self.tx_buf.len() == 130 && self.rx_idx <= 130 && self.tx_cnt >= 0
            && self.tx_cnt <= 130 && (self.state != DiskState::Command || self.rx_idx < 6) && ((self.state
            != DiskState::Read && self.state != DiskState::Write) || self.rx_idx == 0) && (self.state
            != DiskState::Writing || self.rx_idx < 130)) {
            return;
        }
        let ghost s0 = self@;
        self.tx_idx = self.tx_idx.wrapping_add(1);
        match self.state {
            DiskState::Command => {
                if (value & 0xFF) != 0xFF || self.rx_idx != 0 {
                    self.rx_buf.set(self.rx_idx, value);
                    self.rx_idx = self.rx_idx + 1;
                    if self.rx_idx == 6 {
                        let block = self.run_command();
                        self.rx_idx = 0;
                        assert(self@ == card_write(s0, value, block@));
                        return;
                    }
                }
            },
            DiskState::Read => {
                if self.tx_idx == self.tx_cnt {
                    self.state = DiskState::Command;
                    self.tx_cnt = 0;
                    self.tx_idx = 0;
                }
            },
            DiskState::Write => {
                if value == 254 {
                    self.state = DiskState::Writing;
                }
            },
            DiskState::Writing => {
                if self.rx_idx < 128 {
                    self.rx_buf.set(self.rx_idx, value);
                }
                self.rx_idx = self.rx_idx + 1;
                if self.rx_idx == 128 {
                    let bytes = to_bytes(&self.rx_buf);
                    match &mut self.store {
                        Some(st) => {
                            st.write_block(bytes.as_slice());
                            self.log = Ghost(self.log@.push(StoreEvent::Write(bytes@)));
                        },
                        None => {},
                    }
                }
                if self.rx_idx == 130 {
                    self.tx_buf.set(0, 5);
                    self.tx_cnt = 1;
                    self.tx_idx = -1;
                    self.rx_idx = 0;
                    self.state = DiskState::Command;
                }
            },
        }
        assert(self@ == card_write(s0, value, Seq::empty()));
    }
}

} // verus!
