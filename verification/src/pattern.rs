//! Regular-expression matching through the `regex` crate. What a match
//! yields is named, not restated: the library's own logic takes the named
//! results as arguments.

use vstd::prelude::*;

verus! {

/// What `regex::Regex::new(pattern)` followed by `captures(text)` yields:
/// `None` when the pattern does not compile or does not match; otherwise
/// the text of every group of the leftmost-first match, group 0 being the
/// whole match and an unmatched group being `None`.
pub uninterp spec fn regex_captures(pattern: Seq<char>, text: Seq<char>) -> Option<
    Seq<Option<Seq<char>>>,
>;

/// What `regex::Regex::new(pattern)` followed by `captures_iter(text)`
/// yields: `None` when the pattern does not compile; otherwise the groups of
/// each successive non-overlapping match, in the order of the text.
pub uninterp spec fn regex_captures_all(pattern: Seq<char>, text: Seq<char>) -> Option<
    Seq<Seq<Option<Seq<char>>>>,
>;

/// What `regex::Regex::new(pattern)` followed by `replace_all(text, rep)`
/// yields: `None` when the pattern does not compile; otherwise `text` with
/// every non-overlapping match replaced by `rep`.
pub uninterp spec fn regex_replace_all(pattern: Seq<char>, text: Seq<char>, rep: Seq<char>) -> Option<
    Seq<char>,
>;

/// The groups of the first match of `pattern` in `text` (`Regex::captures`).
#[verifier::external_body]
pub(crate) fn captures(pattern: &str, text: &str) -> (r: Option<Vec<Option<String>>>)
    ensures
        r.deep_view() == regex_captures(pattern@, text@),
{
    let re = regex::Regex::new(pattern).ok()?;
    re.captures(text).map(|c| c.iter().map(|m| m.map(|m| m.as_str().to_string())).collect())
}

/// The groups of every match of `pattern` in `text` (`Regex::captures_iter`).
#[verifier::external_body]
pub(crate) fn captures_all(pattern: &str, text: &str) -> (r: Option<Vec<Vec<Option<String>>>>)
    ensures
        r.deep_view() == regex_captures_all(pattern@, text@),
{
    let re = regex::Regex::new(pattern).ok()?;
    Some(
        re.captures_iter(text).map(
            |c| c.iter().map(|m| m.map(|m| m.as_str().to_string())).collect(),
        ).collect(),
    )
}

/// `text` with every match of `pattern` replaced by `rep` (`Regex::replace_all`).
#[verifier::external_body]
pub(crate) fn replace_all(pattern: &str, text: &str, rep: &str) -> (r: Option<String>)
    ensures
        r.deep_view() == regex_replace_all(pattern@, text@, rep@),
{
    let re = regex::Regex::new(pattern).ok()?;
    Some(re.replace_all(text, rep).into_owned())
}

/// Group `i` of a capture list, when the list has it and it took part in
/// the match.
pub open spec fn group(caps: Seq<Option<Seq<char>>>, i: int) -> Option<Seq<char>> {
    if 0 <= i < caps.len() {
        caps[i]
    } else {
        None
    }
}

pub fn group_exec(caps: &Vec<Option<String>>, i: usize) -> (r: Option<&String>)
    ensures
        r matches Some(g) ==> group(caps.deep_view(), i as int) == Some(g@),
        r is None ==> group(caps.deep_view(), i as int) is None,
{
    if i < caps.len() {
        match &caps[i] {
            Some(g) => Some(g),
            None => None,
        }
    } else {
        None
    }
}

} // verus!
