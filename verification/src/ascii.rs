//! Reading Oberon `AsciiCoder` archives (`AsciiCoder.DecodeFiles`): the marker
//! that opens one, the list of file names, the 6-bit text packing of each
//! file's bytes, and the predictive compression of `%`-flagged archives.
use vstd::prelude::*;

verus! {

/// One shifted by nothing is positive.
proof fn lemma_one_shl_zero()
    ensures
        0u32 < (1u32 << 0u32),
{
    assert(0u32 < (1u32 << 0u32)) by (bit_vector);
}


/// A byte stream read front to back.
pub struct ByteStream<'a> {
    pub data: &'a [u8],
    pub pos: usize,
}

impl<'a> ByteStream<'a> {
    /// A stream at the start of `data`.
    pub fn new(data: &'a [u8]) -> (s: ByteStream<'a>)
        ensures
            s.data@ == data@,
            s.pos == 0,
    {
        ByteStream { data, pos: 0 }
    }

    /// The next byte, if any, consumed.
    pub fn next_byte(&mut self) -> (b: Option<u8>)
        requires
            old(self).pos <= old(self).data@.len(),
        ensures
            final(self).data == old(self).data,
            old(self).pos < old(self).data@.len() ==> b == Some(old(self).data@[old(self).pos as int])
                && final(self).pos == old(self).pos + 1,
            old(self).pos >= old(self).data@.len() ==> b is None && final(self).pos == old(self).pos,
    {
        if self.pos < self.data.len() {
            let b = self.data[self.pos];
            self.pos = self.pos + 1;
            Some(b)
        } else {
            None
        }
    }
}

/// The marker `AsciiCoder.DecodeFiles`.
pub open spec fn marker() -> Seq<u8> {
    seq![
        0x41u8, 0x73, 0x63, 0x69, 0x69, 0x43, 0x6F, 0x64, 0x65, 0x72, 0x2E, 0x44, 0x65, 0x63, 0x6F,
        0x64, 0x65, 0x46, 0x69, 0x6C, 0x65, 0x73,
    ]
}

/// The marker search from `pos`, `idx` bytes of the marker matched so far: a
/// mismatching byte restarts the match (and may begin a new one). Whether it
/// was found, and where the search stopped (just past the marker, or the end).
pub open spec fn find_marker(data: Seq<u8>, pos: int, idx: int) -> (bool, int)
    decreases data.len() - pos,
{
    if pos < 0 || pos >= data.len() || idx < 0 || idx >= 22 {
        (false, if pos < data.len() { data.len() as int } else { pos })
    } else {
        let ch = data[pos];
        let i1 = if ch != marker()[idx] { 0 } else { idx };
        if ch == marker()[i1] {
            if i1 + 1 == 22 {
                (true, pos + 1)
            } else {
                find_marker(data, pos + 1, i1 + 1)
            }
        } else {
            find_marker(data, pos + 1, i1)
        }
    }
}

/// Advance past the `AsciiCoder.DecodeFiles` marker that opens an archive;
/// whether it was found (the rest of the stream is consumed if not).
pub fn skip_header(s: &mut ByteStream) -> (found: bool)
    requires
        old(s).pos <= old(s).data@.len(),
    ensures
        final(s).data == old(s).data,
        (found, final(s).pos as int) == find_marker(old(s).data@, old(s).pos as int, 0),
{
    let command: [u8; 22] = [
        0x41, 0x73, 0x63, 0x69, 0x69, 0x43, 0x6F, 0x64, 0x65, 0x72, 0x2E, 0x44, 0x65, 0x63, 0x6F,
        0x64, 0x65, 0x46, 0x69, 0x6C, 0x65, 0x73,
    ];
    assert(command@ =~= marker());
    let ghost target = find_marker(s.data@, s.pos as int, 0);
    let mut idx: usize = 0;
    while s.pos < s.data.len()
        invariant
            s.data == old(s).data,
            s.pos <= s.data@.len(),
            idx < 22,
            command@ == marker(),
            target == find_marker(old(s).data@, old(s).pos as int, 0),
            target == find_marker(s.data@, s.pos as int, idx as int),
        decreases s.data@.len() - s.pos,
    {
        let ch = s.data[s.pos];
        s.pos = s.pos + 1;
        if ch != command[idx] {
            idx = 0;
        }
        if ch == command[idx] {
            idx = idx + 1;
            if idx == 22 {
                return true;
            }
        }
    }
    false
}

/// The 6-bit unpacking from `pos`: bytes up to space are skipped; `'0'..'o'`
/// each carry 6 bits, gathered least significant first into bytes; any other
/// byte ends the block and is right only if it says how many bits are left
/// over (`#` none, `%` two, `$` four). The bytes, or `None` for a wrong
/// terminator or no terminator; and where the stream stopped.
pub open spec fn unpack(data: Seq<u8>, pos: int, out: Seq<u8>, bits: u32, buf: u32) -> (Option<Seq<u8>>, int)
    decreases data.len() - pos,
{
    if pos < 0 || pos >= data.len() {
        (None, if pos < 0 { pos } else { data.len() as int })
    } else {
        let ch = data[pos];
        if ch <= 32 {
            unpack(data, pos + 1, out, bits, buf)
        } else if 48 <= ch < 112 && bits <= 6 {
            let buf1 = buf | (((ch - 48) as u32) << bits);
            let bits1 = (bits + 6) as u32;
            if bits1 >= 8 {
                unpack(data, pos + 1, out.push((buf1 & 0xFF) as u8), (bits1 - 8) as u32, buf1 >> 8)
            } else {
                unpack(data, pos + 1, out, bits1, buf1)
            }
        } else if (ch == 0x23 && bits == 0) || (ch == 0x25 && bits == 2) || (ch == 0x24 && bits == 4) {
            (Some(out), pos + 1)
        } else {
            (None, pos + 1)
        }
    }
}

/// Decode one 6-bit-packed block (see [`unpack`]).
pub fn decode(s: &mut ByteStream) -> (r: Option<Vec<u8>>)
    requires
        old(s).pos <= old(s).data@.len(),
    ensures
        final(s).data == old(s).data,
        (match r {
            Some(v) => Some(v@),
            None => None::<Seq<u8>>,
        }, final(s).pos as int) == unpack(old(s).data@, old(s).pos as int, Seq::empty(), 0, 0),
{
    let ghost target = unpack(s.data@, s.pos as int, Seq::empty(), 0, 0);
    let mut out: Vec<u8> = Vec::new();
    let mut bits: u32 = 0;
    let mut buf: u32 = 0;
    proof {
        lemma_one_shl_zero();
    }
    while s.pos < s.data.len()
        invariant
            s.data == old(s).data,
            s.pos <= s.data@.len(),
            target == unpack(old(s).data@, old(s).pos as int, Seq::empty(), 0, 0),
            bits == 0 || bits == 2 || bits == 4 || bits == 6,
            buf < (1u32 << bits),
            target == unpack(s.data@, s.pos as int, out@, bits, buf),
        decreases s.data@.len() - s.pos,
    {
        let ch = s.data[s.pos];
        s.pos = s.pos + 1;
        if ch <= 32 {
        } else if 48 <= ch && ch < 112 {
            let v = (ch - 48) as u32;
            assert(v < 64);
            assert(buf | (v << bits) < (1u32 << (bits + 6) as u32)) by (bit_vector)
                requires v < 64, buf < (1u32 << bits), bits <= 6;
            buf = buf | (v << bits);
            bits = bits + 6;
            if bits >= 8 {
                let ghost b0 = buf;
                out.push((buf & 0xFF) as u8);
                buf = buf >> 8;
                bits = bits - 8;
                assert(b0 >> 8u32 < (1u32 << bits)) by (bit_vector)
                    requires b0 < (1u32 << (bits + 8) as u32), bits <= 4;
            }
        } else {
            if (ch == 0x23 && bits == 0) || (ch == 0x25 && bits == 2) || (ch == 0x24 && bits == 4) {
                return Some(out);
            } else {
                return None;
            }
        }
    }
    None
}

/// The varint from `pos`: seven bits per byte, least significant first, the
/// high bit set while more follow; the last byte's seven bits are sign
/// extended. `None` if it would exceed 32 bits or the stream ends.
pub open spec fn varint(data: Seq<u8>, pos: int, n: u32, bits: u32) -> (Option<i32>, int)
    decreases data.len() - pos,
{
    if pos < 0 || pos >= data.len() || bits >= 32 {
        (None, if pos < 0 { pos } else if pos >= data.len() { data.len() as int } else { pos })
    } else {
        let b = data[pos];
        if b >= 0x80 {
            let n1 = n | (((b - 0x80) as u32) << bits);
            if bits + 7 >= 32 {
                (None, pos + 1)
            } else {
                varint(data, pos + 1, n1, (bits + 7) as u32)
            }
        } else {
            let v: u32 = if b >= 0x40 { (b as u32) | 0xFFFF_FF80 } else { b as u32 };
            (Some((n | (v << bits)) as i32), pos + 1)
        }
    }
}

/// Read a sign-extended little-endian base-128 varint (see [`varint`]).
pub fn read_number(s: &mut ByteStream) -> (r: Option<i32>)
    requires
        old(s).pos <= old(s).data@.len(),
    ensures
        final(s).data == old(s).data,
        final(s).pos <= final(s).data@.len(),
        (r, final(s).pos as int) == varint(old(s).data@, old(s).pos as int, 0, 0),
{
    let ghost target = varint(s.data@, s.pos as int, 0, 0);
    let mut n: u32 = 0;
    let mut bits: u32 = 0;
    while s.pos < s.data.len()
        invariant
            s.data == old(s).data,
            s.pos <= s.data@.len(),
            bits < 32,
            target == varint(old(s).data@, old(s).pos as int, 0, 0),
            target == varint(s.data@, s.pos as int, n, bits),
        decreases s.data@.len() - s.pos,
    {
        let b = s.data[s.pos];
        s.pos = s.pos + 1;
        if b >= 0x80 {
            n = n | (((b - 0x80) as u32) << bits);
            if bits + 7 >= 32 {
                return None;
            }
            bits = bits + 7;
        } else {
            let v: u32 = if b >= 0x40 { (b as u32) | 0xFFFF_FF80 } else { b as u32 };
            return Some((n | (v << bits)) as i32);
        }
    }
    None
}

/// Entries of the prediction table.
pub const TABLE_SIZE: usize = 16384;

/// Inflating `remaining` more bytes from `pos`: each byte costs one control
/// bit (bits are taken least significant first from the stream); a set bit
/// is a misprediction, whose byte follows in the stream and replaces the
/// table's guess, a clear bit takes the table's guess. The table is indexed
/// by a hash of the output so far.
pub open spec fn inflate(
    data: Seq<u8>,
    pos: int,
    remaining: nat,
    table: Seq<u8>,
    hash: int,
    buf: u32,
    bits: u32,
    out: Seq<u8>,
) -> (Option<Seq<u8>>, int)
    decreases remaining,
{
    if remaining == 0 {
        (Some(out), pos)
    } else if bits == 0 && !(0 <= pos < data.len()) {
        (None, pos)
    } else {
        let buf0: u32 = if bits == 0 { data[pos] as u32 } else { buf };
        let bits0: u32 = if bits == 0 { 8 } else { bits };
        let pos0 = if bits == 0 { pos + 1 } else { pos };
        let buf1 = buf0 >> 1;
        let bits1 = (bits0 - 1) as u32;
        if buf0 & 1 != 0 {
            if !(0 <= pos0 < data.len()) {
                (None, pos0)
            } else {
                let buf2 = buf1 | ((data[pos0] as u32) << bits1);
                let d = (buf2 & 0xFF) as u8;
                inflate(
                    data,
                    pos0 + 1,
                    (remaining - 1) as nat,
                    table.update(hash, d),
                    (16 * hash + d) % (TABLE_SIZE as int),
                    buf2 >> 8,
                    bits1,
                    out.push(d),
                )
            }
        } else {
            let d = table[hash];
            inflate(
                data,
                pos0,
                (remaining - 1) as nat,
                table,
                (16 * hash + d) % (TABLE_SIZE as int),
                buf1,
                bits1,
                out.push(d),
            )
        }
    }
}

/// A compressed payload from `pos`: its varint size, then the predictive
/// stream (see [`inflate`]); `None` for a negative or missing size or a
/// stream that ends early.
pub open spec fn decompress_spec(data: Seq<u8>, pos: int) -> (Option<Seq<u8>>, int) {
    let (size, p) = varint(data, pos, 0, 0);
    match size {
        Some(n) => if n >= 0 {
            inflate(data, p, n as nat, Seq::new(TABLE_SIZE as nat, |i: int| 0u8), 0, 0, 0, Seq::empty())
        } else {
            (None, p)
        },
        None => (None, p),
    }
}

/// The prediction context after emitting `out`: a hash of the bytes so far.
pub open spec fn context(out: Seq<u8>) -> int
    decreases out.len(),
{
    if out.len() == 0 {
        0
    } else {
        (16 * context(out.drop_last()) + out.last()) % (TABLE_SIZE as int)
    }
}

/// The last byte of `out` emitted in context `h` (0 if none was).
pub open spec fn last_in_context(out: Seq<u8>, h: int) -> u8
    decreases out.len(),
{
    if out.len() == 0 {
        0
    } else if context(out.drop_last()) == h {
        out.last()
    } else {
        last_in_context(out.drop_last(), h)
    }
}

/// The decoder with its prediction made explicit: a byte whose control bit
/// is clear is the last byte emitted in the current context (see
/// [`last_in_context`]); a set bit is followed by the byte itself.
pub open spec fn predicted_inflate(
    data: Seq<u8>,
    pos: int,
    remaining: nat,
    buf: u32,
    bits: u32,
    out: Seq<u8>,
) -> (Option<Seq<u8>>, int)
    decreases remaining,
{
    if remaining == 0 {
        (Some(out), pos)
    } else if bits == 0 && !(0 <= pos < data.len()) {
        (None, pos)
    } else {
        let buf0: u32 = if bits == 0 { data[pos] as u32 } else { buf };
        let bits0: u32 = if bits == 0 { 8 } else { bits };
        let pos0 = if bits == 0 { pos + 1 } else { pos };
        let buf1 = buf0 >> 1;
        let bits1 = (bits0 - 1) as u32;
        if buf0 & 1 != 0 {
            if !(0 <= pos0 < data.len()) {
                (None, pos0)
            } else {
                let buf2 = buf1 | ((data[pos0] as u32) << bits1);
                let d = (buf2 & 0xFF) as u8;
                predicted_inflate(data, pos0 + 1, (remaining - 1) as nat, buf2 >> 8, bits1, out.push(d))
            }
        } else {
            let d = last_in_context(out, context(out));
            predicted_inflate(data, pos0, (remaining - 1) as nat, buf1, bits1, out.push(d))
        }
    }
}

/// The table holds, for every context, the last byte emitted there.
proof fn lemma_inflate_predicts(
    data: Seq<u8>,
    pos: int,
    remaining: nat,
    table: Seq<u8>,
    hash: int,
    buf: u32,
    bits: u32,
    out: Seq<u8>,
)
    requires
        table.len() == TABLE_SIZE,
        hash == context(out),
        forall|h: int| 0 <= h < TABLE_SIZE ==> #[trigger] table[h] == last_in_context(out, h),
    ensures
        inflate(data, pos, remaining, table, hash, buf, bits, out) == predicted_inflate(
            data,
            pos,
            remaining,
            buf,
            bits,
            out,
        ),
    decreases remaining,
{
    if remaining > 0 && !(bits == 0 && !(0 <= pos < data.len())) {
        let buf0: u32 = if bits == 0 { data[pos] as u32 } else { buf };
        let bits0: u32 = if bits == 0 { 8 } else { bits };
        let pos0 = if bits == 0 { pos + 1 } else { pos };
        let buf1 = buf0 >> 1;
        let bits1 = (bits0 - 1) as u32;
        assert(0 <= hash < TABLE_SIZE) by {
            if out.len() > 0 {
                assert(context(out) == (16 * context(out.drop_last()) + out.last()) % (TABLE_SIZE as int));
            }
        }
        if buf0 & 1 != 0 {
            if 0 <= pos0 < data.len() {
                let buf2 = buf1 | ((data[pos0] as u32) << bits1);
                let d = (buf2 & 0xFF) as u8;
                let out2 = out.push(d);
                let t2 = table.update(hash, d);
                assert(out2.drop_last() =~= out);
                assert forall|h: int| 0 <= h < TABLE_SIZE implies #[trigger] t2[h] == last_in_context(out2, h) by {}
                lemma_inflate_predicts(data, pos0 + 1, (remaining - 1) as nat, t2, (16 * hash + d) % (TABLE_SIZE as int), buf2 >> 8, bits1, out2);
            }
        } else {
            let d = table[hash];
            let out2 = out.push(d);
            assert(out2.drop_last() =~= out);
            assert forall|h: int| 0 <= h < TABLE_SIZE implies #[trigger] table[h] == last_in_context(out2, h) by {}
            lemma_inflate_predicts(data, pos0, (remaining - 1) as nat, table, (16 * hash + d) % (TABLE_SIZE as int), buf1, bits1, out2);
        }
    }
}

/// Decompression predicts each byte whose control bit is clear as the last
/// byte emitted in the same hash context (0 where none was), and a byte sent
/// explicitly is what such a later prediction yields: the payload decodes as
/// [`predicted_inflate`] does, from an empty output.
pub proof fn law_decompress_predicts_last_in_context(data: Seq<u8>, pos: int)
    ensures
        decompress_spec(data, pos) == match varint(data, pos, 0, 0) {
            (Some(n), p) => if n >= 0 {
                predicted_inflate(data, p, n as nat, 0, 0, Seq::empty())
            } else {
                (None, p)
            },
            (None, p) => (None, p),
        },
{
    let (size, p) = varint(data, pos, 0, 0);
    if size is Some && size->0 >= 0 {
        let t0 = Seq::new(TABLE_SIZE as nat, |i: int| 0u8);
        assert forall|h: int| 0 <= h < TABLE_SIZE implies #[trigger] t0[h] == last_in_context(Seq::<u8>::empty(), h) by {}
        lemma_inflate_predicts(data, p, size->0 as nat, t0, 0, 0, 0, Seq::empty());
    }
}

/// Inflate a compressed payload (see [`decompress_spec`]).
pub fn decompress(s: &mut ByteStream) -> (r: Option<Vec<u8>>)
    requires
        old(s).pos <= old(s).data@.len(),
    ensures
        final(s).data == old(s).data,
        (match r {
            Some(v) => Some(v@),
            None => None::<Seq<u8>>,
        }, final(s).pos as int) == decompress_spec(old(s).data@, old(s).pos as int),
{
    let size = match read_number(s) {
        Some(n) => {
            if n < 0 {
                return None;
            }
            n as u32
        },
        None => return None,
    };
    let mut table = vec![0u8; TABLE_SIZE];
    let mut out: Vec<u8> = Vec::new();
    let mut hash: usize = 0;
    let mut buf: u32 = 0;
    let mut bits: u32 = 0;
    let mut k: u32 = 0;
    let ghost target = inflate(s.data@, s.pos as int, size as nat, table@, 0, 0, 0, Seq::empty());
    assert(table@ =~= Seq::new(TABLE_SIZE as nat, |i: int| 0u8));
    assert(decompress_spec(old(s).data@, old(s).pos as int) == target);
    proof {
        lemma_one_shl_zero();
    }
    while k < size
        invariant
            decompress_spec(old(s).data@, old(s).pos as int) == target,
            s.data == old(s).data,
            s.pos <= s.data@.len(),
            k <= size,
            table@.len() == TABLE_SIZE,
            hash < TABLE_SIZE,
            bits <= 8,
            buf < (1u32 << bits),
            target == inflate(s.data@, s.pos as int, (size - k) as nat, table@, hash as int, buf, bits, out@),
        decreases size - k,
    {
        if bits == 0 {
            match s.next_byte() {
                Some(b) => {
                    buf = b as u32;
                    bits = 8;
                    assert(buf < (1u32 << 8u32)) by (bit_vector)
                        requires buf < 256;
                },
                None => return None,
            }
        }
        let mis = (buf & 1) != 0;
        let ghost b0 = buf;
        let ghost k0 = bits;
        buf = buf >> 1;
        bits = bits - 1;
        assert(b0 >> 1u32 < (1u32 << bits)) by (bit_vector)
            requires b0 < (1u32 << k0), bits == k0 - 1, 1 <= k0 <= 8;
        let d: u8;
        if mis {
            match s.next_byte() {
                Some(b) => {
                    let ghost b1 = buf;
                    buf = buf | ((b as u32) << bits);
                    d = (buf & 0xFF) as u8;
                    let ghost b2 = buf;
                    buf = buf >> 8;
                    assert(b2 < 0x1_0000 && b2 >> 8u32 < (1u32 << bits)) by (bit_vector)
                        requires b1 < (1u32 << bits), b2 == b1 | ((b as u32) << bits), bits < 8;
                    table.set(hash, d);
                },
                None => return None,
            }
        } else {
            d = table[hash];
        }
        out.push(d);
        hash = (16 * hash + d as usize) % TABLE_SIZE;
        k = k + 1;
    }
    Some(out)
}

/// The token from `pos`: bytes up to space skipped, then the bytes above
/// space; the byte that ends it is consumed too. The token, and where the
/// stream stopped.
pub open spec fn token(data: Seq<u8>, pos: int) -> (Seq<u8>, int) {
    let start = skip_blank(data, pos);
    let end = word_end(data, start);
    (data.subrange(start, end), if end < data.len() { end + 1 } else { end })
}

/// Where the bytes up to space from `pos` end.
pub open spec fn skip_blank(data: Seq<u8>, pos: int) -> int
    decreases data.len() - pos,
{
    if pos < 0 || pos >= data.len() || data[pos] > 32 {
        pos
    } else {
        skip_blank(data, pos + 1)
    }
}

/// Where the bytes above space from `pos` end.
pub open spec fn word_end(data: Seq<u8>, pos: int) -> int
    decreases data.len() - pos,
{
    if pos < 0 || pos >= data.len() || data[pos] <= 32 {
        pos
    } else {
        word_end(data, pos + 1)
    }
}

pub proof fn lemma_skip_blank(data: Seq<u8>, pos: int)
    requires
        0 <= pos <= data.len(),
    ensures
        pos <= skip_blank(data, pos) <= data.len(),
        skip_blank(data, pos) < data.len() ==> data[skip_blank(data, pos)] > 32,
    decreases data.len() - pos,
{
    if pos < data.len() && data[pos] <= 32 {
        lemma_skip_blank(data, pos + 1);
    }
}

pub proof fn lemma_word_end(data: Seq<u8>, pos: int)
    requires
        0 <= pos <= data.len(),
    ensures
        pos <= word_end(data, pos) <= data.len(),
    decreases data.len() - pos,
{
    if pos < data.len() && data[pos] > 32 {
        lemma_word_end(data, pos + 1);
    }
}

/// `bytes` as a `String` if they are UTF-8. Calls `String::from_utf8`, which
/// std documents as failing exactly on bytes that are not UTF-8; the contract
/// claims that, and the decoded text.
#[verifier::external_body]
fn string_from_utf8(bytes: Vec<u8>) -> (s: Option<String>)
    ensures
        s is Some <==> vstd::utf8::valid_utf8(bytes@),
        s matches Some(t) ==> t@ == vstd::utf8::decode_utf8(bytes@),
{
    String::from_utf8(bytes).ok()
}

/// The bytes of the next whitespace-delimited token, consumed together with
/// the byte that ends it.
pub fn next_token(s: &mut ByteStream) -> (t: Vec<u8>)
    requires
        old(s).pos <= old(s).data@.len(),
    ensures
        final(s).data == old(s).data,
        t@ == token(old(s).data@, old(s).pos as int).0,
        final(s).pos as int == token(old(s).data@, old(s).pos as int).1,
        final(s).pos <= final(s).data@.len(),
{
    proof {
        lemma_skip_blank(s.data@, s.pos as int);
    }
    while s.pos < s.data.len() && s.data[s.pos] <= 32
        invariant
            s.data == old(s).data,
            s.pos <= s.data@.len(),
            skip_blank(s.data@, s.pos as int) == skip_blank(old(s).data@, old(s).pos as int),
        decreases s.data@.len() - s.pos,
    {
        s.pos = s.pos + 1;
    }
    let start = s.pos;
    proof {
        lemma_word_end(s.data@, start as int);
    }
    let mut t: Vec<u8> = Vec::new();
    while s.pos < s.data.len() && s.data[s.pos] > 32
        invariant
            s.data == old(s).data,
            start <= s.pos <= s.data@.len(),
            start == skip_blank(s.data@, old(s).pos as int),
            word_end(s.data@, s.pos as int) == word_end(s.data@, start as int),
            t@ =~= s.data@.subrange(start as int, s.pos as int),
        decreases s.data@.len() - s.pos,
    {
        t.push(s.data[s.pos]);
        s.pos = s.pos + 1;
    }
    if s.pos < s.data.len() {
        s.pos = s.pos + 1;
    }
    t
}

/// Read the next whitespace-delimited token as a name, or `None` when none is
/// left. The token must be UTF-8 (a name list is text).
pub fn read_name(s: &mut ByteStream) -> (r: Option<String>)
    requires
        old(s).pos <= old(s).data@.len(),
        vstd::utf8::valid_utf8(token(old(s).data@, old(s).pos as int).0),
    ensures
        final(s).data == old(s).data,
        final(s).pos as int == token(old(s).data@, old(s).pos as int).1,
        match r {
            Some(name) => token(old(s).data@, old(s).pos as int).0.len() > 0 && name@ == vstd::utf8::decode_utf8(
                token(old(s).data@, old(s).pos as int).0,
            ),
            None => token(old(s).data@, old(s).pos as int).0.len() == 0,
        },
{
    let t = next_token(s);
    if t.len() == 0 {
        return None;
    }
    string_from_utf8(t)
}

/// A nonempty token moves the stream on; an empty one leaves only the end.
pub proof fn lemma_token_advances(data: Seq<u8>, pos: int)
    requires
        0 <= pos <= data.len(),
    ensures
        pos <= token(data, pos).1 <= data.len(),
        token(data, pos).0.len() > 0 ==> token(data, pos).1 > pos,
        token(data, pos).0.len() == 0 ==> token(data, pos).1 == data.len(),
{
    let start = skip_blank(data, pos);
    lemma_skip_blank(data, pos);
    lemma_word_end(data, start);
    if start < data.len() {
        lemma_word_end(data, start + 1);
    }
}

/// The token `~`, which ends an archive's name list.
pub open spec fn end_mark() -> Seq<u8> {
    seq![0x7Eu8]
}

/// The token `%`, which marks an archive's files as compressed.
pub open spec fn compressed_mark() -> Seq<u8> {
    seq![0x25u8]
}

/// An archive's file-name list from `pos`: the tokens up to a `~` or the end of
/// the stream, where a `%` token marks the files as compressed instead of naming
/// one. The names, whether a `%` occurred, and where the stream stopped.
pub open spec fn name_list(data: Seq<u8>, pos: int) -> (Seq<Seq<u8>>, bool, int)
    decreases data.len() - pos,
{
    let (t, next) = token(data, pos);
    if pos < 0 || pos > data.len() || t.len() == 0 || t == end_mark() {
        (Seq::empty(), false, next)
    } else {
        proof {
            lemma_token_advances(data, pos);
        }
        let rest = name_list(data, next);
        if t == compressed_mark() {
            (rest.0, true, rest.2)
        } else {
            (seq![t] + rest.0, rest.1, rest.2)
        }
    }
}

/// Read an archive's file-name list (see [`name_list`]): the names, and whether
/// the files are compressed. Each name must be UTF-8.
pub fn read_names(s: &mut ByteStream) -> (r: (Vec<String>, bool))
    requires
        old(s).pos <= old(s).data@.len(),
        forall|i: int|
            0 <= i < name_list(old(s).data@, old(s).pos as int).0.len() ==> vstd::utf8::valid_utf8(
                #[trigger] name_list(old(s).data@, old(s).pos as int).0[i],
            ),
    ensures
        final(s).data == old(s).data,
        final(s).pos as int == name_list(old(s).data@, old(s).pos as int).2,
        r.1 == name_list(old(s).data@, old(s).pos as int).1,
        r.0@.len() == name_list(old(s).data@, old(s).pos as int).0.len(),
        forall|i: int|
            0 <= i < r.0@.len() ==> #[trigger] r.0@[i]@ == vstd::utf8::decode_utf8(
                name_list(old(s).data@, old(s).pos as int).0[i],
            ),
{
    let ghost all = name_list(s.data@, s.pos as int);
    let ghost mut seen: Seq<Seq<u8>> = Seq::empty();
    let mut names: Vec<String> = Vec::new();
    let mut compressed = false;
    loop
        invariant_except_break
            all.0 == seen + name_list(s.data@, s.pos as int).0,
            all.1 == (compressed || name_list(s.data@, s.pos as int).1),
            all.2 == name_list(s.data@, s.pos as int).2,
        invariant
            s.data == old(s).data,
            s.pos <= s.data@.len(),
            all == name_list(old(s).data@, old(s).pos as int),
            forall|i: int| 0 <= i < all.0.len() ==> vstd::utf8::valid_utf8(#[trigger] all.0[i]),
            names@.len() == seen.len(),
            forall|i: int| 0 <= i < seen.len() ==> #[trigger] names@[i]@ == vstd::utf8::decode_utf8(seen[i]),
        ensures
            s.data == old(s).data,
            s.pos as int == all.2,
            compressed == all.1,
            all.0 == seen,
            names@.len() == seen.len(),
            forall|i: int| 0 <= i < seen.len() ==> #[trigger] names@[i]@ == vstd::utf8::decode_utf8(seen[i]),
        decreases s.data@.len() - s.pos,
    {
        let ghost p = s.pos as int;
        proof {
            lemma_token_advances(s.data@, p);
        }
        let t = next_token(s);
        if t.len() == 0 || (t.len() == 1 && t[0] == 0x7E) {
            proof {
                assert(t.len() == 1 ==> t@ =~= end_mark());
                assert(seen + Seq::<Seq<u8>>::empty() =~= seen);
            }
            break;
        }
        assert(t@ != end_mark());
        if t.len() == 1 && t[0] == 0x25 {
            assert(t@ =~= compressed_mark());
            compressed = true;
        } else {
            assert(t@ != compressed_mark());
            proof {
                assert(all.0[seen.len() as int] == t@);
            }
            match string_from_utf8(t) {
                Some(name) => names.push(name),
                None => {},
            }
            proof {
                assert(seen + name_list(s.data@, p).0 =~= seen.push(t@) + name_list(s.data@, s.pos as int).0);
                seen = seen.push(t@);
            }
        }
    }
    (names, compressed)
}

/// Whether every name of the archive's name list from the stream's position
/// (see [`name_list`]) is UTF-8 text, as [`read_names`] needs.
pub fn names_are_text(s: &ByteStream) -> (b: bool)
    requires
        s.pos <= s.data@.len(),
    ensures
        b == forall|i: int|
            0 <= i < name_list(s.data@, s.pos as int).0.len() ==> vstd::utf8::valid_utf8(
                #[trigger] name_list(s.data@, s.pos as int).0[i],
            ),
{
    let ghost all = name_list(s.data@, s.pos as int);
    let ghost mut seen: Seq<Seq<u8>> = Seq::empty();
    let mut t = ByteStream { data: s.data, pos: s.pos };
    let mut ok = true;
    loop
        invariant_except_break
            all.0 == seen + name_list(t.data@, t.pos as int).0,
        invariant
            t.data == s.data,
            t.pos <= t.data@.len(),
            all == name_list(s.data@, s.pos as int),
            ok == forall|i: int| 0 <= i < seen.len() ==> vstd::utf8::valid_utf8(#[trigger] seen[i]),
        ensures
            all.0 == seen,
            ok == forall|i: int| 0 <= i < seen.len() ==> vstd::utf8::valid_utf8(#[trigger] seen[i]),
        decreases t.data@.len() - t.pos,
    {
        let ghost p = t.pos as int;
        proof {
            lemma_token_advances(t.data@, p);
        }
        let w = next_token(&mut t);
        if w.len() == 0 || (w.len() == 1 && w[0] == 0x7E) {
            proof {
                assert(w.len() == 1 ==> w@ =~= end_mark());
                assert(seen + Seq::<Seq<u8>>::empty() =~= seen);
            }
            break;
        }
        assert(w@ != end_mark());
        if w.len() == 1 && w[0] == 0x25 {
            assert(w@ =~= compressed_mark());
        } else {
            assert(w@ != compressed_mark());
            let ghost wv = w@;
            let text = string_from_utf8(w).is_some();
            proof {
                assert(seen + name_list(t.data@, p).0 =~= seen.push(wv) + name_list(t.data@, t.pos as int).0);
                let before = seen;
                seen = seen.push(wv);
                assert forall|i: int| 0 <= i < before.len() implies seen[i] == before[i] by {}
                if !text {
                    assert(!vstd::utf8::valid_utf8(seen[before.len() as int]));
                }
            }
            ok = ok && text;
        }
    }
    ok
}

/// Why a file of an archive could not be read.
#[derive(Debug, Clone, Copy, PartialEq, Eq, Structural)]
pub enum ExtractError {
    /// The 6-bit packed block is cut short or wrongly terminated.
    Decode,
    /// The unpacked bytes are not a valid compressed payload.
    Decompress,
}

/// The contents of the next file of an archive: its packed block unpacked,
/// then inflated if the archive is compressed.
pub open spec fn extract_spec(data: Seq<u8>, pos: int, compressed: bool) -> Result<Seq<u8>, ExtractError> {
    match unpack(data, pos, Seq::empty(), 0, 0).0 {
        None => Err(ExtractError::Decode),
        Some(d) => if compressed {
            match decompress_spec(d, 0).0 {
                None => Err(ExtractError::Decompress),
                Some(v) => Ok(v),
            }
        } else {
            Ok(d)
        },
    }
}

/// Read the next file of an archive (see [`extract_spec`]).
pub fn extract_file(s: &mut ByteStream, compressed: bool) -> (r: Result<Vec<u8>, ExtractError>)
    requires
        old(s).pos <= old(s).data@.len(),
    ensures
        final(s).data == old(s).data,
        final(s).pos as int == unpack(old(s).data@, old(s).pos as int, Seq::empty(), 0, 0).1,
        match r {
            Ok(v) => extract_spec(old(s).data@, old(s).pos as int, compressed) == Ok::<Seq<u8>, ExtractError>(v@),
            Err(e) => extract_spec(old(s).data@, old(s).pos as int, compressed) == Err::<Seq<u8>, ExtractError>(e),
        },
{
    let data = match decode(s) {
        None => return Err(ExtractError::Decode),
        Some(d) => d,
    };
    if !compressed {
        return Ok(data);
    }
    let mut inner = ByteStream::new(data.as_slice());
    match decompress(&mut inner) {
        None => Err(ExtractError::Decompress),
        Some(v) => Ok(v),
    }
}

} // verus!
