//! The process-table filter.

use vstd::prelude::*;
use crate::text::{chars_of, contains_seq, find_chars};

verus! {

/// What `str::to_lowercase` gives for a character sequence: the Unicode
/// lower-case mapping, character by character, which takes Unicode's tables
/// to state.
pub uninterp spec fn unicode_lowercase(s: Seq<char>) -> Seq<char>;

/// `str::to_lowercase`. The contract claims only that the result is a
/// function of the characters of `s`; which characters it holds is left
/// unsaid.
#[verifier::external_body]
pub(crate) fn lowercase_string(s: &str) -> (r: String)
    ensures
        r@ == unicode_lowercase(s@),
{
    s.to_lowercase()
}

/// Whether a process named `name` stays in the table under the filter text
/// `filter`: an empty filter keeps every process; otherwise the lower-cased
/// name must contain the lower-cased filter.
pub fn name_matches_filter(name: &str, filter: &str) -> (r: bool)
    ensures
        r == (filter@.len() == 0 || contains_seq(unicode_lowercase(name@), unicode_lowercase(filter@))),
{
    if filter.is_empty() {
        return true;
    }
    let f = lowercase_string(filter);
    let n = lowercase_string(name);
    let fc = chars_of(f.as_str());
    let nc = chars_of(n.as_str());
    find_chars(&nc, &fc, 0).is_some()
}

} // verus!
