use regex::Regex;
use vstd::prelude::*;

verus! {

/// What the first capture group holds in the leftmost match that the regex crate finds for
/// `pattern` in `text`; nothing if the pattern is not accepted, does not match, or the group
/// took no part in the match.
pub uninterp spec fn regex_first_group(pattern: Seq<char>, text: Seq<char>) -> Option<Seq<char>>;

/// `text` with every match that the regex crate finds for `pattern` taken out; nothing if the
/// pattern is not accepted.
pub uninterp spec fn regex_removed(pattern: Seq<char>, text: Seq<char>) -> Option<Seq<char>>;

/// Compiles `pattern` with `Regex::new`, searches `text` with `Regex::captures` and hands out
/// the text of capture group 1.
#[verifier::external_body]
pub(crate) fn first_group(pattern: &str, text: &str) -> (r: Option<String>)
    ensures
        match r {
            Some(g) => regex_first_group(pattern@, text@) == Some(g@),
            None => regex_first_group(pattern@, text@) is None,
        },
{
    Regex::new(pattern).ok()?.captures(text)?.get(1).map(|m| m.as_str().to_owned())
}

/// Compiles `pattern` with `Regex::new` and replaces every match in `text` by the empty
/// text with `Regex::replace_all`.
#[verifier::external_body]
pub(crate) fn remove_all(pattern: &str, text: &str) -> (r: Option<String>)
    ensures
        match r {
            Some(t) => regex_removed(pattern@, text@) == Some(t@),
            None => regex_removed(pattern@, text@) is None,
        },
{
    Some(Regex::new(pattern).ok()?.replace_all(text, "").into_owned())
}

} // verus!
