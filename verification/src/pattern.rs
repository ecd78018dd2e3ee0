//! Regular expressions, as far as the pipeline uses them.
//!
//! Matching is done by the `regex` crate. What a pattern matches is not
//! restated here: the contracts give the results of the crate's functions
//! names, and the pipeline's contracts are stated over those names.

use vstd::prelude::*;

verus! {

/// Whether `regex::Regex::new` accepts the pattern.
pub uninterp spec fn pattern_compiles(pattern: Seq<char>) -> bool;

/// What `Regex::replace_all` returns for a compiled pattern: `text` with
/// every non-overlapping match replaced by the expanded `replacement`.
pub uninterp spec fn replaced_all(
    pattern: Seq<char>,
    text: Seq<char>,
    replacement: Seq<char>,
) -> Seq<char>;

/// For every match that `Regex::captures_iter` yields on `text`, in order,
/// what `Captures::get(group)` holds: the text of that capture group, or
/// nothing if the pattern has no such group or the group took no part in
/// the match.
pub uninterp spec fn captured_groups(
    pattern: Seq<char>,
    text: Seq<char>,
    group: usize,
) -> Seq<Option<Seq<char>>>;

/// The views of optional strings.
pub open spec fn group_views(groups: Seq<Option<String>>) -> Seq<Option<Seq<char>>> {
    Seq::new(
        groups.len(),
        |i: int|
            match groups[i] {
                Some(s) => Some(s@),
                None => None,
            },
    )
}

/// `Regex::new` followed by `Regex::replace_all` with a replacement string
/// in which `$1`, `$2` refer to capture groups. Gives `None` exactly when
/// the pattern is rejected; otherwise the contract names the result.
#[verifier::external_body]
pub(crate) fn replace_all(pattern: &str, text: &str, replacement: &str) -> (out: Option<String>)
    ensures
        match out {
            Some(s) => pattern_compiles(pattern@) && s@ == replaced_all(
                pattern@,
                text@,
                replacement@,
            ),
            None => !pattern_compiles(pattern@),
        },
{
    match regex::Regex::new(pattern) {
        Ok(re) => Some(re.replace_all(text, replacement).into_owned()),
        Err(_) => None,
    }
}

/// `Regex::new` followed by `Regex::captures_iter`, handing out for each
/// match the text of one capture group as `Captures::get(group)` gives it.
/// Gives `None` exactly when the pattern is rejected; otherwise the contract
/// names the result.
#[verifier::external_body]
pub(crate) fn capture_groups(pattern: &str, text: &str, group: usize) -> (out: Option<
    Vec<Option<String>>,
>)
    ensures
        match out {
            Some(groups) => pattern_compiles(pattern@) && group_views(groups@) == captured_groups(
                pattern@,
                text@,
                group,
            ),
            None => !pattern_compiles(pattern@),
        },
{
    match regex::Regex::new(pattern) {
        Ok(re) => Some(
            re.captures_iter(text).map(|c| c.get(group).map(|m| m.as_str().to_string())).collect(),
        ),
        Err(_) => None,
    }
}

} // verus!
