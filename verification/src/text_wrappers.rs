use vstd::prelude::*;
use vstd::string::group_string_axioms;
use vstd::utf8::{decode_utf8, valid_utf8};

verus! {

broadcast use group_string_axioms;

/// `String::from_utf8`: the bytes as a string when they are valid UTF-8.
///
/// Trusted: calls `String::from_utf8`, whose documentation says it returns
/// `Err` exactly when the bytes are not valid UTF-8 and otherwise the string
/// that they encode. Claims both, over vstd's UTF-8 definitions.
#[verifier::external_body]
pub(crate) fn string_from_utf8(bytes: Vec<u8>) -> (r: Option<String>)
    ensures
        r is Some <==> valid_utf8(bytes@),
        r matches Some(s) ==> s@ == decode_utf8(bytes@),
{
    String::from_utf8(bytes).ok()
}


/// The text `String::from_utf8_lossy` makes of `bytes`: each invalid
/// sequence replaced by U+FFFD.
pub uninterp spec fn utf8_lossy(bytes: Seq<u8>) -> Seq<char>;

/// `String::from_utf8_lossy`, owned.
///
/// Trusted: calls `String::from_utf8_lossy`. Claims that the text is
/// `utf8_lossy(bytes)`, a function of the bytes alone, and, as its
/// documentation says, that valid UTF-8 is decoded as is.
#[verifier::external_body]
pub(crate) fn string_from_utf8_lossy(bytes: &[u8]) -> (r: String)
    ensures
        r@ == utf8_lossy(bytes@),
        valid_utf8(bytes@) ==> r@ == decode_utf8(bytes@),
{
    String::from_utf8_lossy(bytes).into_owned()
}


/// Appends one character to a string.
///
/// Trusted: calls `String::push`, which its documentation says appends the
/// character to the end of the string.
#[verifier::external_body]
pub(crate) fn string_push(s: &mut String, c: char)
    ensures
        final(s)@ == old(s)@.push(c),
{
    s.push(c);
}

/// The characters of a string slice.
pub fn str_chars(s: &str) -> (r: Vec<char>)
    ensures
        r@ == s@,
{
    let mut out: Vec<char> = Vec::new();
    for c in iter: s.chars()
        invariant
            out@ == iter.seq().take(iter.index() as int),
    {
        out.push(c);
    }
    out
}


/// A string holding the given characters.
pub fn string_from_chars(cs: &[char]) -> (r: String)
    ensures
        r@ == cs@,
{
    let mut s = String::new();
    let mut i: usize = 0;
    while i < cs.len()
        invariant
            0 <= i <= cs@.len(),
            s@ == cs@.subrange(0, i as int),
        decreases cs@.len() - i,
    {
        string_push(&mut s, cs[i]);
        i = i + 1;
        assert(s@ =~= cs@.subrange(0, i as int));
    }
    assert(cs@.subrange(0, cs@.len() as int) =~= cs@);
    s
}

/// Appends the characters of a string slice.
pub fn string_append(s: &mut String, t: &str)
    ensures
        final(s)@ == old(s)@ + t@,
{
    let cs = str_chars(t);
    let mut i: usize = 0;
    let ghost start = s@;
    while i < cs.len()
        invariant
            cs@ == t@,
            0 <= i <= cs@.len(),
            s@ == start + cs@.subrange(0, i as int),
        decreases cs@.len() - i,
    {
        string_push(s, cs[i]);
        i = i + 1;
        assert(s@ =~= start + cs@.subrange(0, i as int));
    }
    assert(cs@.subrange(0, cs@.len() as int) =~= cs@);
}

} // verus!
