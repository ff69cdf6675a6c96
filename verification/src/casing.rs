//! Unicode case folding for case-insensitive matching.
//!
//! The full Unicode lowercase mapping is computed by the standard library;
//! its result is given a name, `lower_of`, that the matcher's contracts
//! speak of. On all-ASCII input the mapping is pinned down exactly: it is
//! the character-by-character ASCII lowercasing.

use vstd::prelude::*;
use vstd::utf8::char_u32_cast;
use vstd::utf8::is_ascii_chars;

use crate::substring::contains_at;
use crate::substring::has_substring;

verus! {

/// The character sequence that the Unicode lowercase mapping, as computed by
/// `str::to_lowercase`, makes of a character sequence.
pub uninterp spec fn lower_of(s: Seq<char>) -> Seq<char>;

/// `d` is what the Unicode lowercase mapping makes of the ASCII character
/// `c`: the letters `'A'..='Z'` move down to `'a'..='z'`, and every other
/// ASCII character stays itself.
pub open spec fn ascii_lower_pair(c: char, d: char) -> bool {
    if 'A' <= c && c <= 'Z' {
        d as u32 == c as u32 + 32
    } else {
        d == c
    }
}

/// `r` is the character-by-character ASCII lowercasing of `s`.
pub open spec fn ascii_lowering(s: Seq<char>, r: Seq<char>) -> bool {
    &&& r.len() == s.len()
    &&& forall|i: int| 0 <= i < s.len() ==> ascii_lower_pair(s[i], #[trigger] r[i])
}

/// Relies on `str::to_lowercase`: the result is a locale-independent
/// function of the characters alone; and on an all-ASCII input it is the
/// character-by-character ASCII lowercasing, since the Unicode lowercase
/// mapping sends `'A'..='Z'` to `'a'..='z'` and leaves every other ASCII
/// character unchanged.
#[verifier::external_body]
pub(crate) fn lowercase(s: &str) -> (r: String)
    ensures
        r@ == lower_of(s@),
        is_ascii_chars(s@) ==> ascii_lowering(s@, r@),
{
    s.to_lowercase()
}

/// ASCII lowercasing keeps substring containment: if the needle occurs in
/// the haystack, its lowercasing occurs in the haystack's lowercasing.
pub proof fn lemma_ascii_lowering_preserves_substring(
    hay: Seq<char>,
    low_hay: Seq<char>,
    needle: Seq<char>,
    low_needle: Seq<char>,
)
    requires
        ascii_lowering(hay, low_hay),
        ascii_lowering(needle, low_needle),
        has_substring(hay, needle),
    ensures
        has_substring(low_hay, low_needle),
{
    let i = choose|i: int| contains_at(hay, needle, i);
    assert forall|j: int| 0 <= j < low_needle.len() implies low_hay.subrange(
        i,
        i + low_needle.len() as int,
    )[j] == low_needle[j] by {
        assert(hay.subrange(i, i + needle.len() as int)[j] == needle[j]);
        assert(hay[i + j] == needle[j]);
        if 'A' <= needle[j] && needle[j] <= 'Z' {
            char_u32_cast(low_hay[i + j], low_hay[i + j] as u32);
            char_u32_cast(low_needle[j], low_needle[j] as u32);
        }
    }
    assert(low_hay.subrange(i, i + low_needle.len() as int) =~= low_needle);
    assert(contains_at(low_hay, low_needle, i));
}

} // verus!
