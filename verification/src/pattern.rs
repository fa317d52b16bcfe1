//! Regular-expression matching, done by the `regex` crate.

use vstd::prelude::*;

verus! {

/// What one search of a haystack for a pattern gives: for each capture group of the
/// pattern, in the order of the opening parentheses and with the whole match as group
/// 0, the text that the group matched, or `None` for a group that took no part in the
/// match. `None` as a whole where the pattern matches nowhere in the haystack, or is
/// not a regular expression that `regex` accepts.
pub uninterp spec fn regex_captures(pattern: Seq<char>, haystack: Seq<char>) -> Option<
    Seq<Option<Seq<char>>>,
>;

/// `Regex::new` on `pattern`, then `Regex::captures` on `haystack`, the leftmost
/// match, and the text of each group of `Captures::iter` through `Match::as_str`.
///
/// Matching reads nothing but the pattern and the haystack, so the contract gives the
/// outcome the name [`regex_captures`]. Which text matches is for `regex` to say;
/// nothing is claimed of it here.
#[verifier::external_body]
pub(crate) fn captures(pattern: &str, haystack: &str) -> (groups: Option<Vec<Option<String>>>)
    ensures
        groups.deep_view() == regex_captures(pattern@, haystack@),
{
    let regex = regex::Regex::new(pattern).ok()?;
    let found = regex.captures(haystack)?;
    Some(found.iter().map(|group| group.map(|m| m.as_str().to_string())).collect())
}

} // verus!
