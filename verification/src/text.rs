use vstd::prelude::*;
use crate::types::{Listing, ListingView};

verus! {

/// The lowercase form of a character sequence.
pub uninterp spec fn lower_of(s: Seq<char>) -> Seq<char>;

/// Relies on `str::to_lowercase`: the result depends on the characters
/// alone, and an empty string stays empty.
#[verifier::external_body]
pub fn to_lowercase(s: &String) -> (r: String)
    ensures
        r@ == lower_of(s@),
        s@.len() == 0 ==> r@.len() == 0,
{
    s.to_lowercase()
}

/// Whether `n` occurs as a contiguous run inside `h`.
pub open spec fn has_substring(h: Seq<char>, n: Seq<char>) -> bool {
    exists|i: int| 0 <= i && i + n.len() <= h.len() && #[trigger] h.subrange(i, i + n.len()) == n
}

/// Relies on `str::contains` with a string pattern: true exactly when the
/// needle occurs as a contiguous substring of the haystack.
#[verifier::external_body]
pub fn contains_str(haystack: &String, needle: &String) -> (r: bool)
    ensures
        r == has_substring(haystack@, needle@),
{
    haystack.contains(needle.as_str())
}

/// Whether a listing matches the already-lowercased query `q`: its title,
/// description, category, or any tag contains `q` case-insensitively.
pub open spec fn listing_matches(l: ListingView, q: Seq<char>) -> bool {
    ||| has_substring(lower_of(l.title), q)
    ||| has_substring(lower_of(l.description), q)
    ||| has_substring(lower_of(l.category), q)
    ||| exists|i: int| 0 <= i < l.tags.len() && has_substring(lower_of(l.tags[i]), q)
}

/// Decide `listing_matches` for a listing against a lowercased query.
pub fn matches_listing(l: &Listing, q: &String) -> (r: bool)
    ensures
        r == listing_matches(l@, q@),
{
    let t = to_lowercase(&l.title);
    if contains_str(&t, q) {
        return true;
    }
    let d = to_lowercase(&l.description);
    if contains_str(&d, q) {
        return true;
    }
    let c = to_lowercase(&l.category);
    if contains_str(&c, q) {
        return true;
    }
    let mut i: usize = 0;
    while i < l.tags.len()
        invariant
            i <= l.tags.len(),
            forall|j: int| 0 <= j < i ==> !has_substring(lower_of(l@.tags[j]), q@),
            !has_substring(lower_of(l@.title), q@),
            !has_substring(lower_of(l@.description), q@),
            !has_substring(lower_of(l@.category), q@),
            l@.tags.len() == l.tags@.len(),
        decreases l.tags.len() - i,
    {
        let tag = to_lowercase(&l.tags[i]);
        if contains_str(&tag, q) {
            proof {
                assert(l@.tags[i as int] == l.tags@[i as int]@);
            }
            return true;
        }
        proof {
            assert(l@.tags[i as int] == l.tags@[i as int]@);
        }
        i = i + 1;
    }
    false
}

} // verus!
