//! Operations on strings that the other modules share.

use substring::Substring;
use vstd::prelude::*;
use vstd::string::StringSliceAdditionalSpecFns;
use vstd::utf8::{encode_utf8, encode_utf8_decode_utf8};

verus! {

/// Whether two string slices hold the same characters in the same order.
pub fn str_eq(a: &str, b: &str) -> (same: bool)
    ensures
        same == (a@ == b@),
{
    let left = a.as_bytes();
    let right = b.as_bytes();
    proof {
        // Strings with the same bytes are the same strings.
        encode_utf8_decode_utf8(a@);
        encode_utf8_decode_utf8(b@);
    }
    if left.len() != right.len() {
        return false;
    }
    let mut i: usize = 0;
    while i < left.len()
        invariant
            i <= left@.len(),
            left@.len() == right@.len(),
            left@ == encode_utf8(a@),
            right@ == encode_utf8(b@),
            forall|j: int| 0 <= j < i ==> left@[j] == right@[j],
        decreases left@.len() - i,
    {
        if left[i] != right[i] {
            return false;
        }
        i += 1;
    }
    assert(left@ =~= right@);
    true
}

/// The characters of `s` from position `start` up to, not including,
/// position `end`.  Positions past the end of `s` count as its end, and an
/// `end` that is not behind `start` gives nothing.
pub open spec fn spec_substring(s: Seq<char>, start: int, end: int) -> Seq<char> {
    if end <= start {
        Seq::empty()
    } else {
        s.subrange(
            if start < s.len() {
                start
            } else {
                s.len() as int
            },
            if end < s.len() {
                end
            } else {
                s.len() as int
            },
        )
    }
}

/// The part of `s` between two character positions.
///
/// Wraps `Substring::substring` of the `substring` crate, which counts in
/// characters, not bytes, takes positions past the end of the string as its
/// end, and returns the empty string when `end` is not behind `start`.
#[verifier::external_body]
pub(crate) fn substring<'a>(s: &'a str, start: usize, end: usize) -> (part: &'a str)
    ensures
        part@ == spec_substring(s@, start as int, end as int),
{
    s.substring(start, end)
}

/// A string has at least as many bytes as characters.
pub proof fn lemma_bytes_cover_chars(chars: Seq<char>)
    ensures
        encode_utf8(chars).len() >= chars.len(),
    decreases chars.len(),
{
    if chars.len() > 0 {
        lemma_bytes_cover_chars(chars.drop_first());
    }
}

/// The character sequences of a list of string slices, in order.
pub open spec fn slice_views(strings: Seq<&str>) -> Seq<Seq<char>> {
    strings.map_values(|s: &str| s@)
}

/// The character sequences of a list of strings, in order.
pub open spec fn views(strings: Seq<String>) -> Seq<Seq<char>> {
    strings.map_values(|s: String| s@)
}

} // verus!
