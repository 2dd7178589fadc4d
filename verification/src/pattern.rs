//! The search for a pattern in a text, which is asked of the `regex` crate
//! in the trusted function of this file: its contract is believed, not
//! proved.
use vstd::prelude::*;

verus! {

/// Whether `regex` finds a match of `pattern` anywhere in `text`; `None`
/// where it cannot compile the pattern.
pub uninterp spec fn pattern_found(pattern: Seq<char>, text: Seq<char>) -> Option<bool>;

/// Calls `regex::Regex::new` and, on the result, `regex::Regex::is_match`.
/// Trusted: the outcome is what `pattern_found` names, `None` standing for
/// the error of `regex::Regex::new`.
#[verifier::external_body]
pub(crate) fn find_pattern(pattern: &str, text: &str) -> (found: Option<bool>)
    ensures
        found == pattern_found(pattern@, text@),
{
    regex::Regex::new(pattern).ok().map(|compiled| compiled.is_match(text))
}

} // verus!
