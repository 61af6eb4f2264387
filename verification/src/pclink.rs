//! PCLink file transfer over the serial line: the framed byte protocol the
//! Oberon `PCLink` tool speaks.
//!
//! Two job files drive it: `PCLink.REC` names a host file to send to Oberon,
//! `PCLink.SND` a host file to receive from Oberon. The files themselves live
//! with a [`LinkHost`] the embedder supplies; this module decides what to ask
//! of it and what goes over the line. The machine's view of the link is
//! [`LinkState`], which records every request made of the host.
use vstd::prelude::*;

use crate::cli::{is_space, lead};
use crate::convert::chars_of;
use crate::io::Serial;
use crate::text::push_char;

verus! {

/// The acknowledge byte.
pub const ACK: u32 = 0x10;

/// The mode (and first byte sent) of a transfer to Oberon.
pub const REC: u32 = 0x21;

/// The mode (and first byte sent) of a transfer from Oberon.
pub const SND: u32 = 0x22;

/// Longest usable job file, in bytes.
pub const MAX_JOB: u64 = 33;

/// Largest file that can be sent to Oberon is one byte less than this.
pub const MAX_SEND: u64 = 0x0100_0000;

/// Longest file name taken from a job file, in chars.
pub const NAME_CHARS: usize = 31;

/// A job file.
#[derive(Debug, Clone, Copy, PartialEq, Eq, Structural)]
pub enum Job {
    /// `PCLink.REC`: a host file to send to Oberon.
    Rec,
    /// `PCLink.SND`: a host file to receive from Oberon.
    Snd,
}

/// The host side of the link: its job files and the file being transferred.
pub trait LinkHost {
    /// The size of job file `job`, or `None` if there is none.
    fn job_size(&mut self, job: Job) -> Option<u64>;

    /// The text of job file `job`, or `None` if it cannot be read as text.
    fn job_text(&mut self, job: Job) -> Option<String>;

    /// Delete job file `job`.
    fn remove_job(&mut self, job: Job);

    /// The size of file `name`, or `None` if there is none.
    fn file_size(&mut self, name: &str) -> Option<u64>;

    /// Open file `name` to send it; whether that worked.
    fn open(&mut self, name: &str) -> bool;

    /// Create (or truncate) file `name` to receive into it; whether that worked.
    fn create(&mut self, name: &str) -> bool;

    /// The next byte of the open file (0 past its end).
    fn read_byte(&mut self) -> u8;

    /// Append `bytes` to the open file.
    fn write(&mut self, bytes: &[u8]);

    /// Close the open file.
    fn close(&mut self);

    /// Delete file `name`.
    fn remove_file(&mut self, name: &str);
}

/// One request made of the host, with its answer.
pub enum LinkEvent {
    JobSize(Job, Option<u64>),
    JobText(Job, Option<Seq<char>>),
    RemoveJob(Job),
    FileSize(Seq<char>, Option<u64>),
    Open(Seq<char>, bool),
    Create(Seq<char>, bool),
    ReadByte(u8),
    Write(Seq<u8>),
    Close,
    RemoveFile(Seq<char>),
}

/// The link's state: the transfer mode (0 idle, `REC` or `SND`), the bytes
/// received from and sent to Oberon so far, the length of the name as sent
/// (with its NUL), the bytes left to send (`-1` while receiving), the file
/// name, the receive block buffer, and the requests made of the host.
pub struct LinkState {
    pub mode: u32,
    pub txcount: u32,
    pub rxcount: u32,
    pub fnlen: u32,
    pub flen: i64,
    pub name: Seq<char>,
    pub buf: Seq<u8>,
    pub log: Seq<LinkEvent>,
}

/// The end of the word that starts at `i`: the first white space from `i` on.
pub open spec fn word_stop(cs: Seq<char>, i: int) -> int
    decreases cs.len() - i,
{
    if i < 0 || i >= cs.len() || is_space(cs[i]) { i } else { word_stop(cs, i + 1) }
}

/// The first white-space-delimited word of `cs`, if any.
pub open spec fn first_word(cs: Seq<char>) -> Option<Seq<char>> {
    let a = lead(cs, 0);
    if a >= cs.len() { None } else { Some(cs.subrange(a, word_stop(cs, a))) }
}

/// The file name a job file's text names: its first word, cut to 31 chars.
pub open spec fn job_name(text: Seq<char>) -> Option<Seq<char>> {
    match first_word(text) {
        None => None,
        Some(w) => Some(if w.len() > NAME_CHARS { w.subrange(0, NAME_CHARS as int) } else { w }),
    }
}

/// What the host answered while the link looked for a job.
pub struct JobReplies {
    pub size: Option<u64>,
    pub text: Option<Seq<char>>,
}

/// The name a job file yields, given the host's answers: the file must hold 1
/// to 33 bytes of text with a word in it.
pub open spec fn job_result(r: JobReplies) -> Option<Seq<char>> {
    match r.size {
        Some(n) => if 0 < n <= MAX_JOB {
            match r.text {
                Some(t) => job_name(t),
                None => None,
            }
        } else {
            None
        },
        None => None,
    }
}

/// The requests made while looking for job `job`: its size, then its text if
/// the size is usable, then its deletion if it exists but names nothing.
pub open spec fn job_events(job: Job, r: JobReplies) -> Seq<LinkEvent> {
    let asked = seq![LinkEvent::JobSize(job, r.size)];
    let read = match r.size {
        Some(n) => if 0 < n <= MAX_JOB { asked.push(LinkEvent::JobText(job, r.text)) } else { asked },
        None => asked,
    };
    if r.size is Some && job_result(r) is None { read.push(LinkEvent::RemoveJob(job)) } else { read }
}

/// A job found: its name taken, the counters reset.
pub open spec fn take_job(s: LinkState, name: Seq<char>) -> LinkState {
    LinkState {
        name,
        txcount: 0,
        rxcount: 0,
        fnlen: (vstd::utf8::encode_utf8(name).len() + 1) as u32,
        ..s
    }
}

/// What the host answered while an idle link polled for work.
pub struct StatusReplies {
    pub rec: JobReplies,
    /// The size of the file to send.
    pub size: Option<u64>,
    /// Whether it opened.
    pub opened: bool,
    pub snd: JobReplies,
    /// Whether the file to receive into was created.
    pub created: bool,
}

/// The link after a status poll, given the host's answers. An idle link looks
/// for a `PCLink.REC` job first: it starts sending the named file if it is
/// smaller than 16 MiB and opens, else deletes the job. Failing that it looks
/// for a `PCLink.SND` job and starts receiving into the named file if that can
/// be created, else deletes the job. A busy link is left as it is.
pub open spec fn status_spec(s: LinkState, r: StatusReplies) -> LinkState {
    if s.mode != 0 {
        s
    } else {
        let rec_events = s.log + job_events(Job::Rec, r.rec);
        match job_result(r.rec) {
            Some(name) => {
                let t = take_job(LinkState { log: rec_events, ..s }, name);
                let sized = t.log.push(LinkEvent::FileSize(name, r.size));
                match r.size {
                    Some(n) => if n < MAX_SEND {
                        let tried = sized.push(LinkEvent::Open(name, r.opened));
                        if r.opened {
                            LinkState { mode: REC, flen: n as i64, log: tried, ..t }
                        } else {
                            LinkState { log: tried.push(LinkEvent::RemoveJob(Job::Rec)), ..t }
                        }
                    } else {
                        LinkState { log: sized.push(LinkEvent::RemoveJob(Job::Rec)), ..t }
                    },
                    None => LinkState { log: sized.push(LinkEvent::RemoveJob(Job::Rec)), ..t },
                }
            },
            None => {
                let snd_events = rec_events + job_events(Job::Snd, r.snd);
                match job_result(r.snd) {
                    Some(name) => {
                        let t = take_job(LinkState { log: snd_events, ..s }, name);
                        let tried = t.log.push(LinkEvent::Create(name, r.created));
                        if r.created {
                            LinkState { mode: SND, flen: -1i64, log: tried, ..t }
                        } else {
                            LinkState { log: tried.push(LinkEvent::RemoveJob(Job::Snd)), ..t }
                        }
                    },
                    None => LinkState { log: snd_events, ..s },
                }
            },
        }
    }
}

/// The byte Oberon receives on a read, and the link after it; `b` is the next
/// byte of the file being sent, should one be read. While busy: the mode byte,
/// then the file name and its NUL, then for a receive an `ACK` per read (the
/// last once the file is complete, which ends the job), and for a send the
/// file in blocks of up to 255 bytes, each after its length byte, ended by a
/// length below 255 (a final 0 ends the job).
pub open spec fn receive_spec(s: LinkState, b: u8) -> (LinkState, u32) {
    let next = LinkState { rxcount: vstd::wrapping::u32_specs::wrapping_add(s.rxcount, 1), ..s };
    let bytes = vstd::utf8::encode_utf8(s.name);
    if s.mode == 0 {
        (next, 0)
    } else if s.rxcount == 0 {
        (next, s.mode)
    } else if s.rxcount < s.fnlen + 1 {
        let i = s.rxcount - 1;
        (next, if i < bytes.len() { bytes[i] as u32 } else { 0 })
    } else if s.mode == SND {
        if s.flen == 0 {
            (LinkState { mode: 0, log: s.log.push(LinkEvent::RemoveJob(Job::Snd)), ..next }, ACK)
        } else {
            (next, ACK)
        }
    } else {
        let pos = (s.rxcount - s.fnlen - 1) % 256;
        if pos == 0 || s.flen == 0 {
            if s.flen > 255 {
                (next, 255)
            } else if s.flen == 0 {
                (LinkState { mode: 0, log: s.log.push(LinkEvent::RemoveJob(Job::Rec)), ..next }, 0)
            } else {
                (next, s.flen as u32)
            }
        } else {
            (LinkState { flen: (s.flen - 1) as i64, log: s.log.push(LinkEvent::ReadByte(b)), ..next }, b as u32)
        }
    }
}

/// The link after Oberon writes `value`. While busy, the first byte must be
/// `ACK`, else the job is abandoned (a half-received file deleted); after it, a
/// receive collects each block (its length byte, then its bytes) and appends
/// the block to the file once complete, closing the file after a block shorter
/// than 255 bytes.
pub open spec fn transmit_spec(s: LinkState, value: u32) -> LinkState {
    let next_tx = vstd::wrapping::u32_specs::wrapping_add(s.txcount, 1);
    if s.mode == 0 {
        LinkState { txcount: next_tx, ..s }
    } else if s.txcount == 0 {
        if value != ACK {
            let closed = s.log.push(LinkEvent::Close);
            let log = if s.mode == SND {
                closed.push(LinkEvent::RemoveFile(s.name)).push(LinkEvent::RemoveJob(Job::Snd))
            } else {
                closed.push(LinkEvent::RemoveJob(Job::Rec))
            };
            LinkState { mode: 0, txcount: next_tx, log, ..s }
        } else {
            LinkState { txcount: next_tx, ..s }
        }
    } else if s.mode == SND {
        let pos = ((s.txcount - 1) % 256) as int;
        let buf = s.buf.update(pos, value as u8);
        let lim = buf[0] as int;
        if pos == lim {
            let wrote = s.log.push(LinkEvent::Write(buf.subrange(1, 1 + lim)));
            if lim < 255 {
                LinkState { txcount: next_tx, buf, flen: 0, log: wrote.push(LinkEvent::Close), ..s }
            } else {
                LinkState { txcount: next_tx, buf, log: wrote, ..s }
            }
        } else {
            LinkState { txcount: next_tx, buf, ..s }
        }
    } else {
        LinkState { txcount: next_tx, ..s }
    }
}

/// The PCLink serial device.
pub struct PcLink {
    host: Box<dyn LinkHost>,
    mode: u32,
    txcount: u32,
    rxcount: u32,
    fnlen: u32,
    flen: i64,
    name: String,
    buf: Vec<u8>,
    log: Ghost<Seq<LinkEvent>>,
}

impl View for PcLink {
    type V = LinkState;

    closed spec fn view(&self) -> LinkState {
        LinkState {
            mode: self.mode,
            txcount: self.txcount,
            rxcount: self.rxcount,
            fnlen: self.fnlen,
            flen: self.flen,
            name: self.name@,
            buf: self.buf@,
            log: self.log@,
        }
    }
}

/// The state of a link at rest over a fresh host.
pub open spec fn idle_link() -> LinkState {
    LinkState {
        mode: 0,
        txcount: 0,
        rxcount: 0,
        fnlen: 0,
        flen: 0,
        name: Seq::empty(),
        buf: Seq::new(257, |i: int| 0u8),
        log: Seq::empty(),
    }
}

/// The link is consistent: a known mode, a 257-byte block buffer, while busy
/// a name whose length as sent (with its NUL) is `fnlen`, and while sending no
/// negative count of bytes left.
pub open spec fn link_wf(s: LinkState) -> bool {
    &&& s.mode == 0 || s.mode == REC || s.mode == SND
    &&& s.buf.len() == 257
    &&& (s.mode != 0 ==> s.fnlen == vstd::utf8::encode_utf8(s.name).len() + 1)
    &&& (s.mode == REC ==> 0 <= s.flen < MAX_SEND)
}

impl PcLink {
    /// The link is consistent (see [`link_wf`]).
    pub open spec fn wf(&self) -> bool {
        link_wf(self@)
    }

    /// An idle link over `host`.
    pub fn new(host: Box<dyn LinkHost>) -> (p: PcLink)
        ensures
            p.wf(),
            p@ == idle_link(),
    {
        let p = PcLink {
            host,
            mode: 0,
            txcount: 0,
            rxcount: 0,
            fnlen: 0,
            flen: 0,
            name: String::new(),
            buf: vec![0u8; 257],
            log: Ghost(Seq::empty()),
        };
        assert(p@.buf =~= idle_link().buf);
        p
    }

    /// Whether the link is consistent (see [`link_wf`]).
    pub fn consistent(&self) -> (b: bool)
        ensures
            b == self.wf(),
    {
        let bytes = self.name.as_str().as_bytes().len();
        (self.mode == 0 || self.mode == REC || self.mode == SND) && self.buf.len() == 257 && (self.mode
            == 0 || (bytes < 0xFFFF_FFFF && self.fnlen as usize == bytes + 1)) && (self.mode != REC || (0
            <= self.flen && self.flen < MAX_SEND as i64))
    }

    /// Look for job `job`: the name it yields, with the host's answers.
    fn get_job(&mut self, job: Job) -> (r: (Option<String>, Ghost<JobReplies>))
        ensures
            final(self)@ == (LinkState { log: old(self)@.log + job_events(job, r.1@), ..old(self)@ }),
            match r.0 {
                Some(n) => job_result(r.1@) == Some(n@),
                None => job_result(r.1@) is None,
            },
    {
        let size = self.host.job_size(job);
        let mut text_seen: Ghost<Option<Seq<char>>> = Ghost(None);
        let mut found: Option<String> = None;
        self.log = Ghost(self.log@.push(LinkEvent::JobSize(job, size)));
        match size {
            Some(n) => {
                if 0 < n && n <= MAX_JOB {
                    let text = self.host.job_text(job);
                    text_seen = Ghost(match &text {
                        Some(t) => Some(t@),
                        None => None,
                    });
                    self.log = Ghost(self.log@.push(LinkEvent::JobText(job, text_seen@)));
                    match text {
                        Some(t) => {
                            found = word_of(t.as_str());
                        },
                        None => {},
                    }
                }
                if found.is_none() {
                    self.host.remove_job(job);
                    self.log = Ghost(self.log@.push(LinkEvent::RemoveJob(job)));
                }
            },
            None => {},
        }
        let ghost replies = JobReplies { size, text: text_seen@ };
        assert(self@.log =~= old(self)@.log + job_events(job, replies));
        (found, Ghost(replies))
    }

    /// Poll the link (the serial status port): bit 1 (ready to transmit) is
    /// always set, bit 0 while a transfer is under way. An idle link looks for
    /// a job first (see [`status_spec`]).
    pub fn status(&mut self) -> (st: u32)
        requires
            old(self).wf(),
        ensures
            final(self).wf(),
            exists|r: StatusReplies| final(self)@ == status_spec(old(self)@, r),
            st == if final(self)@.mode != 0 { 3u32 } else { 2u32 },
    {
        if self.mode == 0 {
            let ghost s0 = self@;
            let (rec, Ghost(rec_r)) = self.get_job(Job::Rec);
            match rec {
                Some(name) => {
                    self.take(name);
                    let size = self.host.file_size(self.name.as_str());
                    self.log = Ghost(self.log@.push(LinkEvent::FileSize(self.name@, size)));
                    let mut opened = false;
                    match size {
                        Some(n) => {
                            if n < MAX_SEND {
                                opened = self.host.open(self.name.as_str());
                                self.log = Ghost(self.log@.push(LinkEvent::Open(self.name@, opened)));
                                if opened {
                                    self.flen = n as i64;
                                    self.mode = REC;
                                }
                            }
                        },
                        None => {},
                    }
                    if self.mode == 0 {
                        self.host.remove_job(Job::Rec);
                        self.log = Ghost(self.log@.push(LinkEvent::RemoveJob(Job::Rec)));
                    }
                    proof {
                        let r = StatusReplies {
                            rec: rec_r,
                            size,
                            opened,
                            snd: JobReplies { size: None, text: None },
                            created: false,
                        };
                        assert(self@ == status_spec(s0, r));
                    }
                },
                None => {
                    let (snd, Ghost(snd_r)) = self.get_job(Job::Snd);
                    let mut created = false;
                    match snd {
                        Some(name) => {
                            self.take(name);
                            created = self.host.create(self.name.as_str());
                            self.log = Ghost(self.log@.push(LinkEvent::Create(self.name@, created)));
                            if created {
                                self.flen = -1;
                                self.mode = SND;
                            } else {
                                self.host.remove_job(Job::Snd);
                                self.log = Ghost(self.log@.push(LinkEvent::RemoveJob(Job::Snd)));
                            }
                        },
                        None => {},
                    }
                    proof {
                        let r = StatusReplies { rec: rec_r, size: None, opened: false, snd: snd_r, created };
                        assert(self@.log =~= status_spec(s0, r).log);
                        assert(self@ == status_spec(s0, r));
                    }
                },
            }
        } else {
            proof {
                let r = StatusReplies {
                    rec: JobReplies { size: None, text: None },
                    size: None,
                    opened: false,
                    snd: JobReplies { size: None, text: None },
                    created: false,
                };
                assert(self@ == status_spec(self@, r));
            }
        }
        if self.mode != 0 { 3 } else { 2 }
    }

    /// Take job name `name`, resetting the counters.
    fn take(&mut self, name: String)
        requires
            name@.len() <= NAME_CHARS,
            old(self)@.mode == 0,
        ensures
            final(self)@ == take_job(old(self)@, name@),
            final(self)@.fnlen == vstd::utf8::encode_utf8(name@).len() + 1,
            final(self).host == old(self).host,
    {
        let n = name.as_str().as_bytes().len();
        proof {
            lemma_utf8_len_bound(name@);
        }
        self.name = name;
        self.txcount = 0;
        self.rxcount = 0;
        self.fnlen = n as u32 + 1;
    }

    /// Read a byte from the link (the serial data port; see [`receive_spec`]).
    pub fn receive(&mut self) -> (ch: u32)
        requires
            old(self).wf(),
        ensures
            final(self).wf(),
            exists|b: u8| (final(self)@, ch) == receive_spec(old(self)@, b),
    {
        let ghost s0 = self@;
        let mut b: u8 = 0;
        let mut ch: u32 = 0;
        if self.mode != 0 {
            if self.rxcount == 0 {
                ch = self.mode;
            } else if self.rxcount <= self.fnlen {
                let bytes = self.name.as_str().as_bytes();
                let i = (self.rxcount - 1) as usize;
                ch = if i < bytes.len() { bytes[i] as u32 } else { 0 };
            } else if self.mode == SND {
                ch = ACK;
                if self.flen == 0 {
                    self.mode = 0;
                    self.host.remove_job(Job::Snd);
                    self.log = Ghost(self.log@.push(LinkEvent::RemoveJob(Job::Snd)));
                }
            } else {
                let pos = (self.rxcount - self.fnlen - 1) % 256;
                if pos == 0 || self.flen == 0 {
                    if self.flen > 255 {
                        ch = 255;
                    } else {
                        ch = self.flen as u32;
                        if self.flen == 0 {
                            self.mode = 0;
                            self.host.remove_job(Job::Rec);
                            self.log = Ghost(self.log@.push(LinkEvent::RemoveJob(Job::Rec)));
                        }
                    }
                } else {
                    b = self.host.read_byte();
                    ch = b as u32;
                    self.flen = self.flen - 1;
                    self.log = Ghost(self.log@.push(LinkEvent::ReadByte(b)));
                }
            }
        }
        self.rxcount = self.rxcount.wrapping_add(1);
        assert((self@, ch) == receive_spec(s0, b));
        ch
    }

    /// Write a byte to the link (the serial data port; see [`transmit_spec`]).
    pub fn transmit(&mut self, value: u32)
        requires
            old(self).wf(),
        ensures
            final(self).wf(),
            final(self)@ == transmit_spec(old(self)@, value),
    {
        let ghost s0 = self@;
        if self.mode != 0 {
            if self.txcount == 0 {
                if value != ACK {
                    self.host.close();
                    self.log = Ghost(self.log@.push(LinkEvent::Close));
                    if self.mode == SND {
                        self.host.remove_file(self.name.as_str());
                        self.log = Ghost(self.log@.push(LinkEvent::RemoveFile(self.name@)));
                        self.host.remove_job(Job::Snd);
                        self.log = Ghost(self.log@.push(LinkEvent::RemoveJob(Job::Snd)));
                    } else {
                        self.host.remove_job(Job::Rec);
                        self.log = Ghost(self.log@.push(LinkEvent::RemoveJob(Job::Rec)));
                    }
                    self.mode = 0;
                }
            } else if self.mode == SND {
                let pos = ((self.txcount - 1) % 256) as usize;
                self.buf.set(pos, value as u8);
                let lim = self.buf[0] as usize;
                if pos == lim {
                    let block = block_of(&self.buf, lim);
                    self.host.write(block.as_slice());
                    self.log = Ghost(self.log@.push(LinkEvent::Write(block@)));
                    if lim < 255 {
                        self.flen = 0;
                        self.host.close();
                        self.log = Ghost(self.log@.push(LinkEvent::Close));
                    }
                }
            }
        }
        self.txcount = self.txcount.wrapping_add(1);
        assert(self@ == transmit_spec(s0, value));
    }
}

/// `buf[1..1 + lim]`.
fn block_of(buf: &Vec<u8>, lim: usize) -> (b: Vec<u8>)
    requires
        lim < 256,
        1 + lim <= buf@.len(),
    ensures
        b@ == buf@.subrange(1, 1 + lim as int),
{
    let mut b: Vec<u8> = Vec::new();
    let mut i: usize = 1;
    while i < 1 + lim
        invariant
            lim < 256,
            1 <= i <= 1 + lim <= buf@.len(),
            b@ =~= buf@.subrange(1, i as int),
        decreases 1 + lim - i,
    {
        b.push(buf[i]);
        i = i + 1;
    }
    b
}

/// A name of at most 31 chars is at most 124 bytes of UTF-8.
proof fn lemma_utf8_len_bound(cs: Seq<char>)
    requires
        cs.len() <= NAME_CHARS,
    ensures
        vstd::utf8::encode_utf8(cs).len() <= 4 * cs.len(),
    decreases cs.len(),
{
    if cs.len() > 0 {
        lemma_utf8_len_bound(cs.drop_first());
    }
}

/// The name a job file's text names (see [`job_name`]).
fn word_of(text: &str) -> (r: Option<String>)
    ensures
        match r {
            Some(n) => job_name(text@) == Some(n@) && n@.len() <= NAME_CHARS,
            None => job_name(text@) is None,
        },
{
    let cs = chars_of(text);
    let n = cs.len();
    let mut a: usize = 0;
    while a < n && crate::cli::space(cs[a])
        invariant
            a <= n == cs@.len(),
            lead(cs@, a as int) == lead(cs@, 0),
        decreases n - a,
    {
        a = a + 1;
    }
    assert(lead(cs@, a as int) == a);
    if a == n {
        return None;
    }
    let mut b = a;
    while b < n && !crate::cli::space(cs[b])
        invariant
            a <= b <= n == cs@.len(),
            word_stop(cs@, b as int) == word_stop(cs@, a as int),
        decreases n - b,
    {
        b = b + 1;
    }
    assert(word_stop(cs@, b as int) == b);
    let end = if b - a > NAME_CHARS { a + NAME_CHARS } else { b };
    let mut name = String::new();
    let mut i = a;
    while i < end
        invariant
            a <= i <= end <= b <= n == cs@.len(),
            name@ =~= cs@.subrange(a as int, i as int),
        decreases end - i,
    {
        push_char(&mut name, cs[i]);
        i = i + 1;
    }
    proof {
        let w = cs@.subrange(a as int, b as int);
        if w.len() > NAME_CHARS {
            assert(w.subrange(0, NAME_CHARS as int) =~= cs@.subrange(a as int, end as int));
        }
    }
    Some(name)
}

/// The serial device: a consistent link (every link this module makes is one)
/// answers as [`PcLink::status`], [`PcLink::receive`] and [`PcLink::transmit`]
/// say; any other would read as an idle line.
impl Serial for PcLink {
    fn read_status(&mut self) -> (st: u32)
        ensures
            old(self).wf() ==> {
                &&& final(self).wf()
                &&& exists|r: StatusReplies| final(self)@ == status_spec(old(self)@, r)
                &&& st == if final(self)@.mode != 0 { 3u32 } else { 2u32 }
            },
            !old(self).wf() ==> st == 2 && *final(self) == *old(self),
    {
        if self.consistent() {
            self.status()
        } else {
            2
        }
    }

    fn read_data(&mut self) -> (ch: u32)
        ensures
            old(self).wf() ==> final(self).wf() && exists|b: u8| (final(self)@, ch) == receive_spec(old(self)@, b),
            !old(self).wf() ==> ch == 0 && *final(self) == *old(self),
    {
        if self.consistent() {
            self.receive()
        } else {
            0
        }
    }

    fn write_data(&mut self, value: u32)
        ensures
            old(self).wf() ==> final(self).wf() && final(self)@ == transmit_spec(old(self)@, value),
            !old(self).wf() ==> *final(self) == *old(self),
    {
        if self.consistent() {
            self.transmit(value)
        }
    }
}

/// The link after Oberon writes `vals`, one after another.
pub open spec fn transmit_all(s: LinkState, vals: Seq<u32>) -> LinkState
    decreases vals.len(),
{
    if vals.len() == 0 {
        s
    } else {
        transmit_spec(transmit_all(s, vals.drop_last()), vals.last())
    }
}

/// A block as Oberon sends a file: its length, then its bytes.
pub open spec fn block_vals(data: Seq<u8>) -> Seq<u32> {
    seq![data.len() as u32] + data.map_values(|b: u8| b as u32)
}

/// Writing one more value after a prefix.
proof fn lemma_transmit_all_take(s: LinkState, vals: Seq<u32>, m: int)
    requires
        0 <= m < vals.len(),
    ensures
        transmit_all(s, vals.take(m + 1)) == transmit_spec(transmit_all(s, vals.take(m)), vals[m]),
{
    assert(vals.take(m + 1).drop_last() =~= vals.take(m));
}

/// Partway through a block: the length and the first `k` bytes are in the
/// buffer, nothing written to the host yet.
proof fn lemma_block_prefix(s: LinkState, data: Seq<u8>, k: int)
    requires
        s.mode == SND,
        s.buf.len() == 257,
        s.txcount >= 1,
        (s.txcount - 1) % 256 == 0,
        s.txcount + 256 <= 0xFFFF_FFFF,
        data.len() <= 255,
        0 <= k < data.len(),
    ensures
        ({
            let t = transmit_all(s, block_vals(data).take(k + 1));
            &&& t.mode == SND
            &&& t.txcount == s.txcount + k + 1
            &&& t.buf.len() == 257
            &&& t.buf[0] == data.len()
            &&& forall|j: int| 1 <= j <= k ==> #[trigger] t.buf[j] == data[j - 1]
            &&& t.log == s.log
            &&& t.flen == s.flen
        }),
    decreases k,
{
    let v = block_vals(data);
    let n = data.len() as int;
    lemma_transmit_all_take(s, v, k);
    if k == 0 {
        assert(v.take(0) =~= Seq::<u32>::empty());
        assert(transmit_all(s, v.take(0)) == s);
        assert(v[0] == n);
        assert((s.txcount - 1) % 256 == 0);
    } else {
        lemma_block_prefix(s, data, k - 1);
        let t0 = transmit_all(s, v.take(k));
        assert(v[k] == data[k - 1] as u32);
        assert((t0.txcount - 1) % 256 == k) by {
            assert(t0.txcount - 1 == (s.txcount - 1) + k);
        }
        assert(t0.buf[0] == n);
        assert(k != n);
    }
}

/// A block sent by Oberon while it sends a file to the host: its bytes are
/// appended to the host file, and only a block shorter than 255 bytes closes
/// the file and ends the transfer; after a full block the link waits for the
/// next block. So the host file is the concatenation of the blocks sent.
pub proof fn law_send_block(s: LinkState, data: Seq<u8>)
    requires
        s.mode == SND,
        s.buf.len() == 257,
        s.txcount >= 1,
        (s.txcount - 1) % 256 == 0,
        s.txcount + 256 <= 0xFFFF_FFFF,
        data.len() <= 255,
    ensures
        ({
            let t = transmit_all(s, block_vals(data));
            &&& t.log == s.log.push(LinkEvent::Write(data)) + if data.len() < 255 {
                seq![LinkEvent::Close]
            } else {
                Seq::empty()
            }
            &&& t.mode == SND
            &&& t.buf.len() == 257
            &&& t.txcount == s.txcount + data.len() + 1
            &&& data.len() < 255 ==> t.flen == 0
            &&& data.len() == 255 ==> t.flen == s.flen && (t.txcount - 1) % 256 == 0
        }),
{
    let v = block_vals(data);
    let n = data.len() as int;
    assert(v.take(n + 1) =~= v);
    lemma_transmit_all_take(s, v, n);
    let t0 = transmit_all(s, v.take(n));
    let t = transmit_all(s, v);
    if n == 0 {
        assert(v.take(0) =~= Seq::<u32>::empty());
        assert(t0 == s);
        assert(v[0] == 0);
        assert(t.buf.subrange(1, 1) =~= data);
        assert(t.log =~= s.log.push(LinkEvent::Write(data)) + seq![LinkEvent::Close]);
    } else {
        lemma_block_prefix(s, data, n - 1);
        assert(v[n] == data[n - 1] as u32);
        assert((t0.txcount - 1) % 256 == n) by {
            assert(t0.txcount - 1 == (s.txcount - 1) + n);
        }
        assert(t.buf.subrange(1, 1 + n) =~= data);
        if n < 255 {
            assert(t.log =~= s.log.push(LinkEvent::Write(data)) + seq![LinkEvent::Close]);
        } else {
            assert(t.log =~= s.log.push(LinkEvent::Write(data)) + Seq::<LinkEvent>::empty());
            assert((t.txcount - 1) % 256 == 0) by {
                assert(t.txcount - 1 == (s.txcount - 1) + 256);
            }
        }
    }
}

} // verus!
