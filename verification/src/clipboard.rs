//! The clipboard GET/PUT state machine bridging the host clipboard to Oberon.
//!
//! Oberon uses bare `CR` line endings; the host uses `LF` (or `CRLF`). On GET
//! (host to Oberon) `CRLF` and `LF` are folded to `CR`; on PUT (Oberon to host)
//! `CR` becomes `LF`. The host clipboard itself is a [`HostClipboard`] the
//! embedder supplies.
use vstd::prelude::*;

use crate::io::Clipboard;
use crate::shim::utf8_of;
use crate::text::{latin1_chars, string_from_latin1};

verus! {

/// Abstraction over the host system clipboard.
pub trait HostClipboard {
    fn get_text(&mut self) -> Option<String>;

    fn set_text(&mut self, text: &str);
}

/// What the bridge is doing.
#[derive(Debug, Clone, Copy, PartialEq, Eq, Structural)]
pub enum Mode {
    Idle,
    Get,
    Put,
}

/// The bridge's state: the transfer in progress, every text handed to the
/// host so far, and how many times the host's text was fetched.
pub struct ClipState {
    pub mode: Mode,
    pub data: Seq<u8>,
    pub ptr: int,
    pub len: int,
    pub sent: Seq<Seq<char>>,
    pub fetches: nat,
}

/// How many `CR LF` pairs `data` holds.
pub open spec fn crlf_count(data: Seq<u8>) -> nat
    decreases data.len(),
{
    if data.len() < 2 {
        0
    } else {
        crlf_count(data.drop_last()) + if data[data.len() - 2] == 0x0D && data.last() == 0x0A {
            1nat
        } else {
            0nat
        }
    }
}

/// The bytes Oberon receives for host text `data`: each `CR LF` and each lone
/// `LF` becomes one `CR`.
pub open spec fn fold_newlines(data: Seq<u8>) -> Seq<u8>
    decreases data.len(),
{
    if data.len() == 0 {
        Seq::empty()
    } else if data[0] == 0x0D && data.len() > 1 && data[1] == 0x0A {
        seq![0x0Du8] + fold_newlines(data.subrange(2, data.len() as int))
    } else if data[0] == 0x0A {
        seq![0x0Du8] + fold_newlines(data.drop_first())
    } else {
        seq![data[0]] + fold_newlines(data.drop_first())
    }
}

/// The idle bridge (a transfer abandoned).
pub open spec fn idle(s: ClipState) -> ClipState {
    ClipState { mode: Mode::Idle, data: Seq::empty(), ptr: 0, len: 0, ..s }
}

/// `read_control` when the host clipboard, asked once for its text, answered
/// `reply`: the announced length (each `CR LF` counts once) and the bridge
/// ready to hand it out; 0 and idle for no text, empty text, or text longer
/// than a word can count.
pub open spec fn start_get(s0: ClipState, reply: Option<Seq<char>>) -> (ClipState, u32) {
    let s = ClipState { fetches: s0.fetches + 1, ..s0 };
    match reply {
        None => (idle(s), 0),
        Some(t) => {
            let data = utf8_of(t);
            if data.len() == 0 || data.len() > u32::MAX {
                (idle(s), 0)
            } else {
                (
                    ClipState { mode: Mode::Get, data, ptr: 0, len: data.len() as int, ..s },
                    (data.len() - crlf_count(data)) as u32,
                )
            }
        },
    }
}

/// `read_data`: the next byte of the text with `CR LF` folded to `CR` and a
/// lone `LF` made `CR`; the bridge goes idle after the last. 0 outside a GET.
pub open spec fn get_byte(s: ClipState) -> (ClipState, u32) {
    if s.mode != Mode::Get || s.ptr >= s.len || s.ptr >= s.data.len() {
        (s, 0)
    } else {
        let c = s.data[s.ptr];
        let p1 = s.ptr + 1;
        let crlf = c == 0x0D && p1 < s.len && p1 < s.data.len() && s.data[p1] == 0x0A;
        let p2 = if crlf { p1 + 1 } else { p1 };
        let out: u32 = if c == 0x0A { 0x0D } else { c as u32 };
        if p2 == s.len {
            (idle(s), out)
        } else {
            (ClipState { ptr: p2, ..s }, out)
        }
    }
}

/// `write_control(len)`: get ready to receive `len` bytes (the bridge goes
/// idle instead for `u32::MAX`).
pub open spec fn start_put(s: ClipState, len: u32) -> ClipState {
    if len < u32::MAX {
        ClipState { mode: Mode::Put, data: Seq::new(len as nat, |i: int| 0u8), ptr: 0, len: len as int, ..s }
    } else {
        idle(s)
    }
}

/// `write_data(c)`: store the byte (`CR` made `LF`); after the last, hand the
/// text to the host, each byte decoded as the Latin-1 char it codes, and go
/// idle. Ignored outside a PUT.
pub open spec fn put_byte(s: ClipState, c: u32) -> ClipState {
    if s.mode != Mode::Put || s.ptr >= s.len || s.ptr >= s.data.len() {
        s
    } else {
        let b: u8 = if c == 0x0D { 0x0A } else { (c & 0xFF) as u8 };
        let data = s.data.update(s.ptr, b);
        if s.ptr + 1 == s.len {
            idle(ClipState { sent: s.sent.push(latin1_chars(data)), ..s })
        } else {
            ClipState { data, ptr: s.ptr + 1, ..s }
        }
    }
}

/// The clipboard device the CPU sees through the clipboard I/O ports.
pub struct ClipboardBridge {
    host: Box<dyn HostClipboard>,
    mode: Mode,
    data: Vec<u8>,
    ptr: usize,
    len: usize,
    sent: Ghost<Seq<Seq<char>>>,
    fetches: Ghost<nat>,
}

impl View for ClipboardBridge {
    type V = ClipState;

    closed spec fn view(&self) -> ClipState {
        ClipState {
            mode: self.mode,
            data: self.data@,
            ptr: self.ptr as int,
            len: self.len as int,
            sent: self.sent@,
            fetches: self.fetches@,
        }
    }
}

impl ClipboardBridge {
    /// The bridge is consistent: a transfer's length is its buffer's.
    pub open spec fn wf(&self) -> bool {
        &&& self@.mode != Mode::Idle ==> self@.len == self@.data.len() && self@.ptr <= self@.len
        &&& self@.mode == Mode::Idle ==> self@.ptr == 0 && self@.len == 0 && self@.data.len() == 0
    }

    /// An idle bridge to `host`.
    pub fn new(host: Box<dyn HostClipboard>) -> (b: ClipboardBridge)
        ensures
            b.wf(),
            b@ == (ClipState {
                mode: Mode::Idle,
                data: Seq::empty(),
                ptr: 0,
                len: 0,
                sent: Seq::empty(),
                fetches: 0,
            }),
    {
        ClipboardBridge {
            host,
            mode: Mode::Idle,
            data: Vec::new(),
            ptr: 0,
            len: 0,
            sent: Ghost(Seq::empty()),
            fetches: Ghost(0),
        }
    }

    /// Abandon any transfer.
    fn reset(&mut self)
        ensures
            final(self).wf(),
            final(self)@ == idle(old(self)@),
    {
        self.mode = Mode::Idle;
        self.data = Vec::new();
        self.len = 0;
        self.ptr = 0;
    }
}

impl Clipboard for ClipboardBridge {
    /// Start a GET: fetch the host text and announce its length as Oberon will
    /// see it.
    fn read_control(&mut self) -> (r: u32)
        ensures
            final(self).wf(),
            exists|reply: Option<Seq<char>>| (final(self)@, r) == start_get(old(self)@, reply),
    {
        self.reset();
        let reply = self.host.get_text();
        self.fetches = Ghost(self.fetches@ + 1);
        let text = match reply {
            None => {
                assert((self@, 0u32) == start_get(old(self)@, None));
                return 0;
            },
            Some(t) => t,
        };
        let bytes = text.as_str().as_bytes();
        let ghost got = Some(text@);
        let n = bytes.len();
        if n == 0 || n > 0xFFFF_FFFF {
            assert((self@, 0u32) == start_get(old(self)@, got));
            return 0;
        }
        let mut data: Vec<u8> = Vec::new();
        let mut pairs: usize = 0;
        let mut i: usize = 0;
        while i < n
            invariant
                n == bytes@.len(),
                i <= n,
                data@ =~= bytes@.subrange(0, i as int),
                pairs == crlf_count(bytes@.subrange(0, i as int)),
                pairs <= i,
            decreases n - i,
        {
            let b = bytes[i];
            if i > 0 && bytes[i - 1] == 0x0D && b == 0x0A {
                pairs = pairs + 1;
            }
            data.push(b);
            i = i + 1;
            assert(bytes@.subrange(0, i as int).drop_last() =~= bytes@.subrange(0, i - 1));
        }
        assert(bytes@.subrange(0, n as int) =~= bytes@);
        self.data = data;
        self.len = n;
        self.ptr = 0;
        self.mode = Mode::Get;
        let r = (n - pairs) as u32;
        assert((self@, r) == start_get(old(self)@, got));
        r
    }

    /// Start a PUT of `len` bytes.
    fn write_control(&mut self, len: u32)
        ensures
            final(self).wf(),
            final(self)@ == start_put(old(self)@, len),
    {
        self.reset();
        if len < 0xFFFF_FFFF {
            self.data = vec![0u8; len as usize];
            self.len = len as usize;
            self.mode = Mode::Put;
            assert(self@.data =~= Seq::new(len as nat, |i: int| 0u8));
        }
    }

    /// The next byte of a GET.
    fn read_data(&mut self) -> (r: u32)
        ensures
            old(self).wf() ==> final(self).wf(),
            (final(self)@, r) == get_byte(old(self)@),
    {
        if self.mode != Mode::Get || self.ptr >= self.len || self.ptr >= self.data.len() {
            return 0;
        }
        let c = self.data[self.ptr];
        let mut result = c as u32;
        self.ptr = self.ptr + 1;
        if c == 0x0D && self.ptr < self.len && self.ptr < self.data.len() && self.data[self.ptr] == 0x0A {
            self.ptr = self.ptr + 1;
        } else if c == 0x0A {
            result = 0x0D;
        }
        if self.ptr == self.len {
            self.reset();
        }
        result
    }

    /// The next byte of a PUT.
    fn write_data(&mut self, c: u32)
        ensures
            old(self).wf() ==> final(self).wf(),
            final(self)@ == put_byte(old(self)@, c),
    {
        if self.mode != Mode::Put || self.ptr >= self.len || self.ptr >= self.data.len() {
            return;
        }
        let byte: u8 = if c == 0x0D { 0x0A } else { (c & 0xFF) as u8 };
        self.data.set(self.ptr, byte);
        self.ptr = self.ptr + 1;
        if self.ptr == self.len {
            let text = string_from_latin1(self.data.as_slice());
            self.host.set_text(text.as_str());
            self.sent = Ghost(self.sent@.push(text@));
            self.reset();
        }
    }
}

/// The length a GET announces is the number of bytes it then hands out.
pub proof fn law_get_announces_length(data: Seq<u8>)
    ensures
        fold_newlines(data).len() == data.len() - crlf_count(data),
    decreases data.len(),
{
    if data.len() > 0 {
        if data[0] == 0x0D && data.len() > 1 && data[1] == 0x0A {
            law_get_announces_length(data.subrange(2, data.len() as int));
            lemma_crlf_count_front(data);
        } else {
            law_get_announces_length(data.drop_first());
            lemma_crlf_count_front(data);
        }
    }
}

/// Counting pairs from the front: a leading `CR LF` is one pair, and the rest
/// is counted after the first byte (or after the pair).
proof fn lemma_crlf_count_front(data: Seq<u8>)
    requires
        data.len() > 0,
    ensures
        data[0] == 0x0D && data.len() > 1 && data[1] == 0x0A ==> crlf_count(data) == 1 + crlf_count(
            data.subrange(2, data.len() as int),
        ),
        !(data[0] == 0x0D && data.len() > 1 && data[1] == 0x0A) ==> crlf_count(data) == crlf_count(
            data.drop_first(),
        ),
    decreases data.len(),
{
    reveal_with_fuel(crlf_count, 3);
    if data.len() >= 3 {
        let d = data.drop_last();
        lemma_crlf_count_front(d);
        assert(d.drop_first() =~= data.drop_first().drop_last());
        assert(d.subrange(2, d.len() as int) =~= data.subrange(2, data.len() as int).drop_last());
        let t = data.subrange(2, data.len() as int);
        let f = data.drop_first();
        assert(f.len() >= 2 && f[f.len() - 2] == data[data.len() - 2] && f.last() == data.last());
        if t.len() >= 2 {
            assert(t[t.len() - 2] == data[data.len() - 2] && t.last() == data.last());
        }
    }
}

/// Each byte a GET hands out is the next byte of the folded text, and what is
/// left to hand out is the folded rest.
pub proof fn law_get_hands_out_folded(s: ClipState)
    requires
        s.mode == Mode::Get,
        0 <= s.ptr < s.len,
        s.len == s.data.len(),
    ensures
        ({
            let (s2, b) = get_byte(s);
            let rest = s.data.subrange(s.ptr, s.len);
            &&& b == fold_newlines(rest)[0] as u32
            &&& if s2.mode == Mode::Get {
                fold_newlines(s2.data.subrange(s2.ptr, s2.len)) == fold_newlines(rest).drop_first()
            } else {
                fold_newlines(rest).len() == 1
            }
        }),
{
    let rest = s.data.subrange(s.ptr, s.len);
    let c = s.data[s.ptr];
    assert(rest[0] == c);
    if c == 0x0D && s.ptr + 1 < s.len && s.data[s.ptr + 1] == 0x0A {
        let tail = rest.subrange(2, rest.len() as int);
        assert(tail =~= s.data.subrange(s.ptr + 2, s.len));
        assert(fold_newlines(rest) == seq![0x0Du8] + fold_newlines(tail));
        assert((seq![0x0Du8] + fold_newlines(tail)).drop_first() =~= fold_newlines(tail));
        if s.ptr + 2 == s.len {
            assert(tail.len() == 0);
            assert(fold_newlines(tail).len() == 0);
        }
    } else {
        let tail = rest.drop_first();
        assert(tail =~= s.data.subrange(s.ptr + 1, s.len));
        let head: u8 = if c == 0x0A { 0x0D } else { c };
        assert(fold_newlines(rest) == seq![head] + fold_newlines(tail));
        assert((seq![head] + fold_newlines(tail)).drop_first() =~= fold_newlines(tail));
        if s.ptr + 1 == s.len {
            assert(tail.len() == 0);
            assert(fold_newlines(tail).len() == 0);
        }
    }
}

} // verus!
