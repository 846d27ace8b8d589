//! Case-insensitive substring matching for the contains filter, through
//! the regex crate.

use vstd::prelude::*;

verus! {

pub uninterp spec fn ci_contains_of(hay: Seq<char>, needle: Seq<char>) -> bool;

/// Relies on `regex::escape` and `regex::Regex` (`new`, `is_match`): the
/// needle is escaped into a literal pattern, prefixed with the
/// case-insensitive flag, and matched anywhere in the haystack; the
/// outcome depends on the two texts alone.
#[verifier::external_body]
pub fn ci_contains(hay: &str, needle: &str) -> (r: bool)
    ensures
        r == ci_contains_of(hay@, needle@),
{
    let pattern = format!("(?i){}", regex::escape(needle));
    match regex::Regex::new(&pattern) {
        Ok(re) => re.is_match(hay),
        Err(_) => false,
    }
}

} // verus!
