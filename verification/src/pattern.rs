//! The regular expressions of the `regex` crate, as far as the library
//! relies on them.  Nothing in this module is proved: each contract states
//! what the crate's documentation and source say of the call.

use vstd::prelude::*;

verus! {

/// `regex::Regex`, a compiled regular expression.  Opaque to the verifier.
#[verifier::external_type_specification]
#[verifier::external_body]
pub struct ExRegex(regex::Regex);

/// `regex::Error`, the reason a pattern failed to compile.  Opaque to the
/// verifier.
#[verifier::external_type_specification]
#[verifier::external_body]
pub struct ExRegexError(regex::Error);

/// The pattern text a compiled expression was built from: what
/// `Regex::as_str` returns.
pub uninterp spec fn regex_source(re: regex::Regex) -> Seq<char>;

/// Whether `Regex::new` accepts a pattern: its syntax is valid, and what it
/// compiles to stays within the size limit that `Regex::new` sets.
pub uninterp spec fn pattern_compiles(pattern: Seq<char>) -> bool;

/// The byte offsets of the leftmost match that `Regex::find` reports in a
/// text, if there is any.
pub uninterp spec fn regex_find(re: regex::Regex, text: Seq<char>) -> Option<(usize, usize)>;

/// What `Regex::captures_iter` yields first for a text and what
/// `Captures::get` then reports for a group: `None` where the text holds no
/// match, `Some(None)` where the leftmost match has no text for the group,
/// and the text of the group otherwise.
pub uninterp spec fn regex_first_capture(
    re: regex::Regex,
    text: Seq<char>,
    group: usize,
) -> Option<Option<Seq<char>>>;

/// Calls `Regex::new`.  An accepted pattern yields an expression whose
/// source is that pattern.
#[verifier::external_body]
pub(crate) fn compile(pattern: &str) -> (r: Result<regex::Regex, regex::Error>)
    ensures
        r is Ok <==> pattern_compiles(pattern@),
        r is Ok ==> regex_source(r->Ok_0) == pattern@,
{
    regex::Regex::new(pattern)
}

/// Calls `Regex::as_str`.
#[verifier::external_body]
pub(crate) fn source_text(re: &regex::Regex) -> (r: &str)
    ensures
        r@ == regex_source(*re),
{
    re.as_str()
}

/// Calls `Regex::find` and hands out the offsets of the match.
#[verifier::external_body]
pub(crate) fn find_first(re: &regex::Regex, text: &str) -> (r: Option<(usize, usize)>)
    ensures
        r == regex_find(*re, text@),
{
    re.find(text).map(|m| (m.start(), m.end()))
}

/// Calls `Regex::captures_iter`, takes the first item and asks it with
/// `Captures::get` for one group.
#[verifier::external_body]
pub(crate) fn first_capture(re: &regex::Regex, text: &str, group: usize) -> (r: Option<
    Option<String>,
>)
    ensures
        r.deep_view() == regex_first_capture(*re, text@, group),
{
    re.captures_iter(text).next().map(|c| c.get(group).map(|m| m.as_str().to_string()))
}

/// The words in which a `regex::Error` describes itself, as its `Display`
/// gives them.  Nothing is claimed of them.
#[verifier::external_body]
pub(crate) fn error_text(error: &regex::Error) -> String {
    error.to_string()
}

} // verus!
