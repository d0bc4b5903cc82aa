//! Text as sequences of characters: the few conversions and comparisons
//! that the rest of the library is built on.

use vstd::prelude::*;
use vstd::std_specs::iter::IteratorSpec;
use vstd::string::StringSliceAdditionalSpecFns;

verus! {

/// Appends one character to a string with `String::push`, which puts the
/// character after all that the string already holds.
#[verifier::external_body]
pub(crate) fn push_char(text: &mut String, c: char)
    ensures
        final(text)@ == old(text)@.push(c),
{
    text.push(c)
}

/// The texts of a list of strings, in order.
pub open spec fn texts(list: Seq<String>) -> Seq<Seq<char>> {
    list.map_values(|s: String| s@)
}

/// A text in which the bytes from `start` up to `end` of the UTF-8 form
/// of `text` gave way to `with`.
pub open spec fn spliced(text: Seq<char>, start: int, end: int, with: Seq<char>) -> Seq<char> {
    let bytes = vstd::utf8::encode_utf8(text);
    vstd::utf8::decode_utf8(
        bytes.subrange(0, start) + vstd::utf8::encode_utf8(with) + bytes.subrange(
            end,
            bytes.len() as int,
        ),
    )
}

/// Whether `start` and `end` mark off a stretch of the UTF-8 form of
/// `text` that begins and ends between two characters.
pub open spec fn is_stretch(text: Seq<char>, start: int, end: int) -> bool {
    let bytes = vstd::utf8::encode_utf8(text);
    &&& 0 <= start <= end <= bytes.len()
    &&& vstd::utf8::is_char_boundary(bytes, start)
    &&& vstd::utf8::is_char_boundary(bytes, end)
}

/// Puts `with` in place of a stretch of a string with
/// `String::replace_range`, which takes the bytes of the range out and
/// puts the new text where they were. That function panics where the
/// range does not begin and end between two characters of the string;
/// such a range is not accepted here.
#[verifier::external_body]
pub(crate) fn replace_range(text: &mut String, start: usize, end: usize, with: &str)
    requires
        is_stretch(old(text)@, start as int, end as int),
    ensures
        final(text)@ == spliced(old(text)@, start as int, end as int, with@),
{
    text.replace_range(start..end, with)
}

/// What `String::from_utf8_lossy` makes of a run of bytes.
pub uninterp spec fn lossy_text(bytes: Seq<u8>) -> Seq<char>;

/// The text that a run of bytes stands for, from
/// `String::from_utf8_lossy`, which reads the bytes as UTF-8 and puts
/// the replacement character where they are none. The contract gives
/// its result a name and claims nothing more of it.
#[verifier::external_body]
pub(crate) fn decode_lossy(bytes: &[u8]) -> (text: String)
    ensures
        text@ == lossy_text(bytes@),
{
    String::from_utf8_lossy(bytes).into_owned()
}

/// The characters of a text, in order.
pub fn chars_of(text: &str) -> (chars: Vec<char>)
    ensures
        chars@ == text@,
{
    broadcast use vstd::string::group_string_axioms;

    let mut chars: Vec<char> = Vec::new();
    for c in it: text.chars()
        invariant
            it.seq() == text@,
            chars@ == it.seq().subrange(0, it.index()),
    {
        proof {
            assert(chars@.push(c) =~= it.seq().subrange(0, it.index() + 1));
        }
        chars.push(c);
    }
    proof {
        assert(chars@ =~= text@);
    }
    chars
}

/// The text that holds these characters, in order.
pub fn text_of(chars: &[char]) -> (text: String)
    ensures
        text@ == chars@,
{
    let mut text = String::new();
    let mut i: usize = 0;
    while i < chars.len()
        invariant
            i <= chars.len(),
            text@ == chars@.subrange(0, i as int),
        decreases chars.len() - i,
    {
        push_char(&mut text, chars[i]);
        i += 1;
        proof {
            assert(text@ =~= chars@.subrange(0, i as int));
        }
    }
    proof {
        assert(chars@.subrange(0, i as int) =~= chars@);
    }
    text
}

/// Whether two texts hold the same characters.
pub fn same_text(a: &str, b: &str) -> (same: bool)
    ensures
        same == (a@ == b@),
{
    broadcast use vstd::utf8::encode_utf8_decode_utf8;

    let x = a.as_bytes();
    let y = b.as_bytes();
    if x.len() != y.len() {
        return false;
    }
    let mut i: usize = 0;
    while i < x.len()
        invariant
            i <= x.len(),
            x.len() == y.len(),
            x@ == a.spec_bytes(),
            y@ == b.spec_bytes(),
            forall|k: int| 0 <= k < i ==> x@[k] == y@[k],
        decreases x.len() - i,
    {
        if x[i] != y[i] {
            return false;
        }
        i += 1;
    }
    proof {
        assert(x@ =~= y@);
        assert(vstd::utf8::decode_utf8(vstd::utf8::encode_utf8(a@)) == a@);
        assert(vstd::utf8::decode_utf8(vstd::utf8::encode_utf8(b@)) == b@);
    }
    true
}

} // verus!
