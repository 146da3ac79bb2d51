//! Regular-expression matching, done by the `regex` crate.
use vstd::prelude::*;

verus! {

/// The capture groups (group 0 first) of the leftmost match of `pattern` in
/// `text`, as `regex::Regex::captures` returns them; `None` when there is no
/// match or `pattern` does not compile.
pub uninterp spec fn captures_of(pattern: Seq<char>, text: Seq<char>) -> Option<Seq<Option<Seq<char>>>>;

/// Whether `pattern` matches somewhere in `text` (`regex::Regex::is_match`);
/// `None` when `pattern` does not compile.
pub uninterp spec fn finds_match(pattern: Seq<char>, text: Seq<char>) -> Option<bool>;

/// Compiles `pattern` (`regex::Regex::new`) and returns the capture groups
/// of its first match in `text` (`regex::Regex::captures`).
/// Trusted: the result is whatever the regex crate computes, named `captures_of`.
#[verifier::external_body]
pub(crate) fn regex_captures(pattern: &str, text: &str) -> (r: Option<Vec<Option<String>>>)
    ensures
        r.deep_view() == captures_of(pattern@, text@),
{
    regex::Regex::new(pattern).ok().and_then(
        |re| re.captures(text).map(|c| c.iter().map(|m| m.map(|m| m.as_str().to_string())).collect()),
    )
}

/// Compiles `pattern` (`regex::Regex::new`) and tells whether it matches
/// in `text` (`regex::Regex::is_match`).
/// Trusted: the result is whatever the regex crate computes, named `finds_match`.
#[verifier::external_body]
pub(crate) fn regex_is_match(pattern: &str, text: &str) -> (r: Option<bool>)
    ensures
        r == finds_match(pattern@, text@),
{
    regex::Regex::new(pattern).ok().map(|re| re.is_match(text))
}

} // verus!
