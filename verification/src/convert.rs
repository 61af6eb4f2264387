//! Converting between Oberon text (Latin-1 with `CR` line separators) and host
//! text (UTF-8 with `LF`).
use vstd::prelude::*;

use crate::text::push_char;
use vstd::std_specs::iter::IteratorSpec;

verus! {

broadcast use {vstd::string::axiom_spec_iter, vstd::string::next_postcondition};

/// Host text for Oberon bytes: each byte is its Latin-1 character, and `CR LF`
/// and a lone `CR` both become `LF`.
pub open spec fn from_oberon_spec(bs: Seq<u8>) -> Seq<char>
    decreases bs.len(),
{
    if bs.len() == 0 {
        Seq::empty()
    } else if bs[0] == 0x0D && bs.len() > 1 && bs[1] == 0x0A {
        seq!['\n'] + from_oberon_spec(bs.subrange(2, bs.len() as int))
    } else if bs[0] == 0x0D {
        seq!['\n'] + from_oberon_spec(bs.drop_first())
    } else {
        seq![bs[0] as char] + from_oberon_spec(bs.drop_first())
    }
}

/// Oberon bytes (Latin-1, `CR` separators) to host text (UTF-8, `LF`).
pub fn from_oberon(bytes: &[u8]) -> (s: String)
    ensures
        s@ == from_oberon_spec(bytes@),
{
    let n = bytes.len();
    let mut s = String::new();
    let mut i: usize = 0;
    assert(bytes@.subrange(0, n as int) =~= bytes@);
    assert(s@ + from_oberon_spec(bytes@) =~= from_oberon_spec(bytes@));
    while i < n
        invariant
            n == bytes@.len(),
            i <= n,
            from_oberon_spec(bytes@) == s@ + from_oberon_spec(bytes@.subrange(i as int, n as int)),
        decreases n - i,
    {
        let ghost rest = bytes@.subrange(i as int, n as int);
        let b = bytes[i];
        if b == 0x0D && i + 1 < n && bytes[i + 1] == 0x0A {
            push_char(&mut s, '\n');
            i = i + 2;
            assert(rest.subrange(2, rest.len() as int) =~= bytes@.subrange(i as int, n as int));
        } else {
            let c = if b == 0x0D { '\n' } else { b as char };
            push_char(&mut s, c);
            i = i + 1;
            assert(rest.drop_first() =~= bytes@.subrange(i as int, n as int));
        }
        proof {
            let ss = s@.drop_last();
            assert(s@ =~= ss + seq![s@.last()]);
            assert(ss + (seq![s@.last()] + from_oberon_spec(bytes@.subrange(i as int, n as int))) =~= s@
                + from_oberon_spec(bytes@.subrange(i as int, n as int)));
        }
    }
    assert(from_oberon_spec(bytes@.subrange(n as int, n as int)) =~= Seq::<char>::empty());
    assert(s@ + Seq::<char>::empty() =~= s@);
    s
}

/// The Latin-1 byte of a character, `?` beyond Latin-1.
pub open spec fn latin1_byte(c: char) -> u8 {
    if (c as u32) <= 0xFF { (c as u32) as u8 } else { 0x3F }
}

/// Oberon bytes for host text: `CR LF` and `LF` become `CR`, and each other
/// character its Latin-1 byte (`?` beyond Latin-1).
pub open spec fn to_oberon_spec(cs: Seq<char>) -> Seq<u8>
    decreases cs.len(),
{
    if cs.len() == 0 {
        Seq::empty()
    } else if cs[0] == '\r' && cs.len() > 1 && cs[1] == '\n' {
        seq![0x0Du8] + to_oberon_spec(cs.subrange(2, cs.len() as int))
    } else if cs[0] == '\n' {
        seq![0x0Du8] + to_oberon_spec(cs.drop_first())
    } else {
        seq![latin1_byte(cs[0])] + to_oberon_spec(cs.drop_first())
    }
}

/// The characters of `text`, in order.
pub(crate) fn chars_of(text: &str) -> (cs: Vec<char>)
    ensures
        cs@ == text@,
{
    let mut it = text.chars();
    let mut cs: Vec<char> = Vec::new();
    loop
        invariant
            text@ == cs@ + it.remaining(),
            it.obeys_prophetic_iter_laws(),
            it.decrease() is Some,
        decreases it.decrease()->0,
    {
        let ghost before = it.remaining();
        match it.next() {
            Some(c) => {
                cs.push(c);
                assert(before =~= seq![c] + it.remaining());
                assert(cs@ + it.remaining() =~= text@);
            },
            None => {
                assert(cs@ =~= text@);
                return cs;
            },
        }
    }
}

/// Host text (UTF-8, `LF`) to Oberon bytes (Latin-1, `CR` separators); code
/// points beyond Latin-1 become `?`.
pub fn to_oberon(text: &str) -> (out: Vec<u8>)
    ensures
        out@ == to_oberon_spec(text@),
{
    let cs = chars_of(text);
    let n = cs.len();
    let mut out: Vec<u8> = Vec::new();
    let mut i: usize = 0;
    assert(cs@.subrange(0, n as int) =~= cs@);
    assert(out@ + to_oberon_spec(cs@) =~= to_oberon_spec(cs@));
    while i < n
        invariant
            n == cs@.len(),
            cs@ == text@,
            i <= n,
            to_oberon_spec(cs@) == out@ + to_oberon_spec(cs@.subrange(i as int, n as int)),
        decreases n - i,
    {
        let ghost rest = cs@.subrange(i as int, n as int);
        let c = cs[i];
        if c == '\r' && i + 1 < n && cs[i + 1] == '\n' {
            out.push(0x0D);
            i = i + 2;
            assert(rest.subrange(2, rest.len() as int) =~= cs@.subrange(i as int, n as int));
        } else {
            let b: u8 = if c == '\n' {
                0x0D
            } else if (c as u32) <= 0xFF {
                (c as u32) as u8
            } else {
                0x3F
            };
            out.push(b);
            i = i + 1;
            assert(rest.drop_first() =~= cs@.subrange(i as int, n as int));
        }
        proof {
            let oo = out@.drop_last();
            assert(out@ =~= oo + seq![out@.last()]);
            assert(oo + (seq![out@.last()] + to_oberon_spec(cs@.subrange(i as int, n as int))) =~= out@
                + to_oberon_spec(cs@.subrange(i as int, n as int)));
        }
    }
    assert(to_oberon_spec(cs@.subrange(n as int, n as int)) =~= Seq::<u8>::empty());
    assert(out@ + Seq::<u8>::empty() =~= out@);
    out
}

/// Whether `b` begins with the header of a formatted Oberon text: six bytes,
/// the first two `F0 01` (or `01 F0`).
pub open spec fn is_oberon_text(b: Seq<u8>) -> bool {
    b.len() >= 6 && ((b[0] == 0xF0 && b[1] == 0x01) || (b[0] == 0x01 && b[1] == 0xF0))
}

/// The header length such a text records, little-endian in bytes 2 to 5.
pub open spec fn text_header_len(b: Seq<u8>) -> int {
    b[2] + 256 * b[3] + 65536 * b[4] + 16777216 * b[5]
}

/// The plain text of `b`: a formatted Oberon text without its header (all of
/// it if the header claims more than there is), `CR` turned to `LF`; anything
/// else unchanged.
pub open spec fn plain_text_spec(b: Seq<u8>) -> Seq<u8> {
    if is_oberon_text(b) {
        let start = if text_header_len(b) < b.len() { text_header_len(b) } else { b.len() as int };
        Seq::new((b.len() - start) as nat, |i: int| if b[start + i] == 0x0D { 0x0Au8 } else { b[start + i] })
    } else {
        b
    }
}

/// Whether [`plain_text`] can take `b`: a formatted text's header must claim
/// at least its own six bytes.
pub fn plain_text_ok(b: &[u8]) -> (ok: bool)
    ensures
        ok == !(is_oberon_text(b@) && text_header_len(b@) < 6),
{
    if b.len() >= 6 && ((b[0] == 0xF0 && b[1] == 0x01) || (b[0] == 0x01 && b[1] == 0xF0)) {
        let size: u64 = b[2] as u64 + 256 * (b[3] as u64) + 65536 * (b[4] as u64) + 16777216 * (b[5] as u64);
        size >= 6
    } else {
        true
    }
}

/// The plain-text content of an Oberon text (see [`plain_text_spec`]): the
/// header dropped and `CR` line ends turned to `LF`; input that is no
/// formatted Oberon text is returned unchanged.
pub fn plain_text(b: &[u8]) -> (out: Vec<u8>)
    requires
        !(is_oberon_text(b@) && text_header_len(b@) < 6),
    ensures
        out@ == plain_text_spec(b@),
{
    let n = b.len();
    let mut out: Vec<u8> = Vec::new();
    if n >= 6 && ((b[0] == 0xF0 && b[1] == 0x01) || (b[0] == 0x01 && b[1] == 0xF0)) {
        let size: u64 = b[2] as u64 + 256 * (b[3] as u64) + 65536 * (b[4] as u64) + 16777216 * (b[5] as u64);
        let start: usize = if size < n as u64 { size as usize } else { n };
        let mut i = start;
        while i < n
            invariant
                start <= i <= n == b@.len(),
                start == (if text_header_len(b@) < n { text_header_len(b@) } else { n as int }),
                out@ =~= Seq::new(
                    (i - start) as nat,
                    |k: int| if b@[start + k] == 0x0D { 0x0Au8 } else { b@[start + k] },
                ),
            decreases n - i,
        {
            let c = b[i];
            out.push(if c == 0x0D { 0x0A } else { c });
            i = i + 1;
        }
    } else {
        let mut i: usize = 0;
        while i < n
            invariant
                i <= n == b@.len(),
                out@ =~= b@.subrange(0, i as int),
            decreases n - i,
        {
            out.push(b[i]);
            i = i + 1;
        }
    }
    out
}

/// Oberon text without stray `LF` bytes survives a trip to host text and back.
pub proof fn law_oberon_round_trip(bs: Seq<u8>)
    requires
        forall|i: int| 0 <= i < bs.len() ==> bs[i] != 0x0A,
    ensures
        to_oberon_spec(from_oberon_spec(bs)) == bs,
    decreases bs.len(),
{
    if bs.len() > 0 {
        let rest = bs.drop_first();
        law_oberon_round_trip(rest);
        let c: char = if bs[0] == 0x0D { '\n' } else { bs[0] as char };
        assert(from_oberon_spec(bs) == seq![c] + from_oberon_spec(rest));
        let t = seq![c] + from_oberon_spec(rest);
        assert(t[0] == c);
        assert(t.drop_first() =~= from_oberon_spec(rest));
        assert(c != '\r');
        assert(to_oberon_spec(t) == seq![if c == '\n' { 0x0Du8 } else { latin1_byte(c) }] + to_oberon_spec(t.drop_first()));
        assert(bs =~= seq![bs[0]] + rest);
    }
}

/// Host text of Latin-1 characters without `CR` survives a trip to Oberon
/// text and back.
pub proof fn law_host_round_trip(cs: Seq<char>)
    requires
        forall|i: int| 0 <= i < cs.len() ==> cs[i] != '\r' && (cs[i] as u32) <= 0xFF,
    ensures
        from_oberon_spec(to_oberon_spec(cs)) == cs,
    decreases cs.len(),
{
    if cs.len() > 0 {
        assert(cs[0] != '\r' && (cs[0] as u32) <= 0xFF);
        lemma_char_code(cs[0]);
        let rest = cs.drop_first();
        law_host_round_trip(rest);
        let b: u8 = if cs[0] == '\n' { 0x0D } else { latin1_byte(cs[0]) };
        assert(to_oberon_spec(cs) == seq![b] + to_oberon_spec(rest));
        let t = seq![b] + to_oberon_spec(rest);
        assert(t.drop_first() =~= to_oberon_spec(rest));
        let rt = to_oberon_spec(rest);
        if b == 0x0D && t.len() > 1 && t[1] == 0x0A {
            // An LF byte comes only from a character 0x0A, which is `\n` and maps to CR.
            lemma_to_oberon_no_lf(rest);
            assert(t[1] == rt[0]);
        }
        assert(b == 0x0D <==> cs[0] == '\n') by {
            if cs[0] != '\n' {
                assert((cs[0] as u32) != 0x0D);
            }
        }
        assert((b as char) == cs[0] || cs[0] == '\n');
        assert(cs =~= seq![cs[0]] + rest);
    }
}

/// Oberon text made from host text holds no `LF` byte.
proof fn lemma_to_oberon_no_lf(cs: Seq<char>)
    requires
        forall|i: int| 0 <= i < cs.len() ==> (cs[i] as u32) <= 0xFF,
    ensures
        forall|i: int| 0 <= i < to_oberon_spec(cs).len() ==> to_oberon_spec(cs)[i] != 0x0A,
    decreases cs.len(),
{
    if cs.len() > 0 {
        assert((cs[0] as u32) <= 0xFF);
        lemma_char_code(cs[0]);
        let (b, r) = if cs[0] == '\r' && cs.len() > 1 && cs[1] == '\n' {
            lemma_to_oberon_no_lf(cs.subrange(2, cs.len() as int));
            (0x0Du8, cs.subrange(2, cs.len() as int))
        } else {
            lemma_to_oberon_no_lf(cs.drop_first());
            (if cs[0] == '\n' { 0x0Du8 } else { latin1_byte(cs[0]) }, cs.drop_first())
        };
        let t = to_oberon_spec(cs);
        assert(t == seq![b] + to_oberon_spec(r));
        assert(b != 0x0A);
        assert forall|i: int| 0 <= i < t.len() implies t[i] != 0x0A by {
            if i > 0 {
                assert(t[i] == to_oberon_spec(r)[i - 1]);
            }
        }
    }
}

/// A character's code: `CR` is 13, `LF` is 10, and a Latin-1 character is its byte.
proof fn lemma_char_code(c: char)
    ensures
        (c == '\r') == ((c as u32) == 13),
        (c == '\n') == ((c as u32) == 10),
        (c as u32) <= 0xFF ==> (((c as u32) as u8) as char) == c,
        (c as u32) <= 0xFF ==> ((c as u32) as u8) as u32 == c as u32,
{
}

} // verus!
