//! Regular expressions, as far as grouping needs them: whether a pattern
//! compiles, and what it captures in an index name.

use crate::template::{groups_of, CaptureGroup, CaptureGroupView};
use vstd::prelude::*;

verus! {

#[verifier::external_type_specification]
#[verifier::external_body]
pub struct ExRegexError(regex::Error);

/// Whether `regex::Regex::new` accepts the pattern.
pub uninterp spec fn pattern_compiles(pattern: Seq<char>) -> bool;

/// What `regex::Regex::captures` finds when the compiled pattern is searched
/// for in the haystack: `None` where nothing matches; else the capture groups
/// of the leftmost match, the first of them the whole match, the others in
/// the order of their opening parentheses.
pub uninterp spec fn pattern_captures(pattern: Seq<char>, haystack: Seq<char>) -> Option<
    Seq<CaptureGroupView>,
>;

/// The capture groups that a search result stands for.
pub open spec fn found_groups(found: Option<Vec<CaptureGroup>>) -> Option<Seq<CaptureGroupView>> {
    match found {
        Some(groups) => Some(groups_of(groups@)),
        None => None,
    }
}

/// Compiles the pattern with `regex::Regex::new` and drops the result.
/// Trusted: it fails exactly on the patterns that `pattern_compiles` excludes.
#[verifier::external_body]
pub(crate) fn compile_pattern(pattern: &str) -> (compiled: Result<(), regex::Error>)
    ensures
        compiled is Ok <==> pattern_compiles(pattern@),
{
    regex::Regex::new(pattern).map(|_| ())
}

/// Compiles the pattern and searches the haystack with
/// `regex::Regex::captures`. The groups are handed out as they come from
/// `Regex::capture_names` and `Captures::iter`, which walk the same groups in
/// the same order: a name where the group has one, a text where the group
/// took part in the match.
/// Trusted: the pattern is refused exactly where `pattern_compiles` excludes
/// it, and the groups found are those that `pattern_captures` names.
#[verifier::external_body]
pub(crate) fn search_pattern(pattern: &str, haystack: &str) -> (found: Result<
    Option<Vec<CaptureGroup>>,
    regex::Error,
>)
    ensures
        found is Ok <==> pattern_compiles(pattern@),
        found matches Ok(groups) ==> found_groups(groups) == pattern_captures(
            pattern@,
            haystack@,
        ),
{
    let regex = regex::Regex::new(pattern)?;
    Ok(
        regex.captures(haystack).map(
            |captures|
                regex.capture_names().zip(captures.iter()).map(
                    |(name, text)|
                        CaptureGroup {
                            name: name.map(String::from),
                            text: text.map(|m| String::from(m.as_str())),
                        },
                ).collect(),
        ),
    )
}

/// What the compiler of regular expressions says of a refused pattern: the
/// text that the error writes when it is displayed.
pub(crate) fn refusal_text(error: &regex::Error) -> (text: String)
    ensures
        vstd::string::to_string_from_display_ensures::<regex::Error>(error, text),
{
    error.to_string()
}

} // verus!
