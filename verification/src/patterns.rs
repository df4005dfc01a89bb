//! Regular expressions, as the `regex` crate matches them.

use vstd::prelude::*;

verus! {

/// What group `group` of the leftmost match of `pattern` in `text` spans, as
/// `Regex::captures` finds it. It is `None` where `pattern` is no regular
/// expression, where there is no match, and where the group took no part in
/// the match. Group 0 is the whole match.
pub uninterp spec fn captured(pattern: Seq<char>, text: Seq<char>, group: nat) -> Option<Seq<char>>;

/// Compiles `pattern` with `Regex::new`, searches `text` with
/// `Regex::captures` and copies what group `group` spans. The outcome
/// depends on the three arguments alone.
#[verifier::external_body]
pub(crate) fn capture(pattern: &str, text: &str, group: usize) -> (r: Option<String>)
    ensures
        match r {
            Some(found) => captured(pattern@, text@, group as nat) == Some(found@),
            None => captured(pattern@, text@, group as nat) is None,
        },
{
    let matcher = regex::Regex::new(pattern).ok()?;
    let groups = matcher.captures(text)?;
    Some(groups.get(group)?.as_str().to_string())
}

} // verus!
