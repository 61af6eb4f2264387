//! Building `String`s character by character.
use vstd::prelude::*;

verus! {

/// Appends `c` to `s`. Calls `String::push`, which std documents as appending
/// the given char to the end of the string; that is all this contract claims.
#[verifier::external_body]
pub(crate) fn push_char(s: &mut String, c: char)
    ensures
        final(s)@ == old(s)@.push(c),
{
    s.push(c);
}

/// The string of the ASCII (or Latin-1) bytes `bytes`, one char per byte.
pub open spec fn latin1_chars(bytes: Seq<u8>) -> Seq<char> {
    Seq::new(bytes.len(), |i: int| bytes[i] as char)
}

/// The string whose chars are the bytes of `bytes`, one char per byte.
pub(crate) fn string_from_latin1(bytes: &[u8]) -> (s: String)
    ensures
        s@ == latin1_chars(bytes@),
{
    let mut s = String::new();
    let mut i: usize = 0;
    while i < bytes.len()
        invariant
            i <= bytes.len(),
            s@ == latin1_chars(bytes@.subrange(0, i as int)),
        decreases bytes.len() - i,
    {
        push_char(&mut s, bytes[i] as char);
        i = i + 1;
        assert(latin1_chars(bytes@.subrange(0, i as int)) =~= latin1_chars(
            bytes@.subrange(0, i - 1),
        ).push(bytes@[i - 1] as char));
    }
    assert(bytes@.subrange(0, bytes@.len() as int) =~= bytes@);
    s
}

} // verus!
