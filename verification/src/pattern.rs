//! Regular expressions over repository names, by way of the `regex` crate.
use vstd::prelude::*;

verus! {

/// The message of the error that `regex::Regex::new` reports for `pattern`,
/// or `None` when the pattern compiles.
pub uninterp spec fn regex_error(pattern: Seq<char>) -> Option<Seq<char>>;

/// Whether the compiled `pattern` matches somewhere in `text`
/// (`regex::Regex::is_match`).
pub uninterp spec fn regex_matches(pattern: Seq<char>, text: Seq<char>) -> bool;

/// Calls `regex::Regex::new` and hands back the text of its error, if any:
/// `None` exactly when `regex_error(pattern)` is `None`, else that message.
#[verifier::external_body]
pub(crate) fn pattern_error(pattern: &str) -> (r: Option<String>)
    ensures
        match r {
            Some(m) => regex_error(pattern@) == Some(m@),
            None => regex_error(pattern@) is None,
        },
{
    match regex::Regex::new(pattern) {
        Ok(_) => None,
        Err(e) => Some(e.to_string()),
    }
}

/// Calls `regex::Regex::is_match` on `pattern` compiled by `regex::Regex::new`;
/// the pattern is one that compiles, so the result is whether it matches `text`.
#[verifier::external_body]
pub(crate) fn is_match(pattern: &str, text: &str) -> (r: bool)
    requires
        regex_error(pattern@) is None,
    ensures
        r == regex_matches(pattern@, text@),
{
    match regex::Regex::new(pattern) {
        Ok(re) => re.is_match(text),
        Err(_) => false,
    }
}

} // verus!
