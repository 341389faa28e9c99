//! Trusted declarations over the `regex` crate.
//!
//! A compiled `regex::Regex` is opaque here; `regex_source` names the pattern
//! it holds, and the two scan results are named as functions of that pattern
//! and the haystack alone.

use vstd::prelude::*;

verus! {

#[verifier::external_type_specification]
#[verifier::external_body]
pub struct ExRegex(regex::Regex);

/// The pattern a compiled regex was built from, as `regex::Regex::as_str`
/// returns it.
pub uninterp spec fn regex_source(re: regex::Regex) -> Seq<char>;

/// What capture group one of every successive non-overlapping match yields
/// over a haystack, in order of appearance; a match without that group
/// contributes the empty string.
pub uninterp spec fn group1_all(pattern: Seq<char>, haystack: Seq<char>) -> Seq<Seq<char>>;

/// What capture group one of the first match yields over a haystack, if the
/// pattern matches at all; a match without that group yields the empty string.
pub uninterp spec fn group1_first(pattern: Seq<char>, haystack: Seq<char>) -> Option<Seq<char>>;

/// Relies on `regex::Regex::new`: a compiled regex holds exactly the pattern
/// it was built from (`Regex::as_str` returns the original string), and an
/// invalid pattern is answered with an error, never a panic.
#[verifier::external_body]
pub(crate) fn regex_new(pattern: &str) -> (r: Option<regex::Regex>)
    ensures
        r matches Some(re) ==> regex_source(re) == pattern@,
{
    regex::Regex::new(pattern).ok()
}

/// Relies on `regex::Regex::captures_iter`: it yields the successive
/// non-overlapping matches of the compiled pattern over the haystack, in
/// order; the result depends on the pattern and the haystack alone.
#[verifier::external_body]
pub(crate) fn regex_group1_all(re: &regex::Regex, haystack: &str) -> (r: Vec<String>)
    ensures
        r.deep_view() == group1_all(regex_source(*re), haystack@),
{
    let mut out: Vec<String> = Vec::new();
    for caps in re.captures_iter(haystack) {
        match caps.get(1) {
            Some(m) => out.push(m.as_str().to_string()),
            None => out.push(String::new()),
        }
    }
    out
}

/// Relies on `regex::Regex::captures`: it yields the capture groups of the
/// first match of the compiled pattern over the haystack, or `None` when the
/// pattern does not match; the result depends on the pattern and the haystack
/// alone.
#[verifier::external_body]
pub(crate) fn regex_group1_first(re: &regex::Regex, haystack: &str) -> (r: Option<String>)
    ensures
        r.deep_view() == group1_first(regex_source(*re), haystack@),
{
    match re.captures(haystack) {
        Some(caps) => match caps.get(1) {
            Some(m) => Some(m.as_str().to_string()),
            None => Some(String::new()),
        },
        None => None,
    }
}

} // verus!
