//! Text primitives: case folding, trimming and substring containment.
//!
//! Upper-casing and trimming are Unicode mappings whose full tables are far
//! too large to restate, so their results are only named (`upper_of`,
//! `trim_of`); substring containment has a direct mathematical statement.

use vstd::prelude::*;

verus! {

/// The sequence of characters that `str::to_uppercase` produces for `s`.
pub uninterp spec fn upper_of(s: Seq<char>) -> Seq<char>;

/// The sequence of characters that `str::trim` leaves of `s`.
pub uninterp spec fn trim_of(s: Seq<char>) -> Seq<char>;

/// `needle` occurs in `hay` as a contiguous run starting at `i`.
pub open spec fn contains_at(hay: Seq<char>, needle: Seq<char>, i: int) -> bool {
    0 <= i && i + needle.len() <= hay.len() && hay.subrange(i, i + needle.len()) == needle
}

/// `needle` is a (possibly empty) substring of `hay`.
pub open spec fn contains_seq(hay: Seq<char>, needle: Seq<char>) -> bool {
    exists|i: int| contains_at(hay, needle, i)
}

/// A search term as the engine sees it: trimmed, then upper-cased.
pub open spec fn norm_of(term: Seq<char>) -> Seq<char> {
    upper_of(trim_of(term))
}

/// Relies on `str::to_uppercase`: the result depends on the characters alone.
#[verifier::external_body]
pub(crate) fn to_upper(s: &str) -> (r: String)
    ensures
        r@ == upper_of(s@),
{
    s.to_uppercase()
}

/// Relies on `str::trim`: the result depends on the characters alone.
#[verifier::external_body]
pub(crate) fn trim(s: &str) -> (r: &str)
    ensures
        r@ == trim_of(s@),
{
    s.trim()
}

/// Relies on `str::contains` with a `&str` pattern: true exactly when the
/// needle matches a sub-slice of the haystack.
#[verifier::external_body]
pub(crate) fn str_contains(hay: &str, needle: &str) -> (r: bool)
    ensures
        r == contains_seq(hay@, needle@),
{
    hay.contains(needle)
}

/// An owned copy of a string slice.
pub(crate) fn to_owned_str(s: &str) -> (r: String)
    ensures
        r@ == s@,
{
    s.to_owned()
}

/// Normalize a raw search term: trim surrounding whitespace, then upper-case.
pub(crate) fn normalize_term(term: &str) -> (r: String)
    ensures
        r@ == norm_of(term@),
{
    to_upper(trim(term))
}

/// An empty needle is a substring of everything.
pub proof fn lemma_contains_empty(hay: Seq<char>)
    ensures
        contains_seq(hay, Seq::<char>::empty()),
{
    assert(hay.subrange(0, 0) =~= Seq::<char>::empty());
    assert(contains_at(hay, Seq::<char>::empty(), 0));
}

} // verus!
