//! Trusted boundary to the regular-expression engine, used by the
//! provider adapters to pull single fields out of raw page text.

use vstd::prelude::*;

verus! {

/// The text of the first capture group of the leftmost match of
/// `pattern` in `text`. `None` when the pattern does not compile, when
/// it does not match the text, or when the group takes no part in the
/// match. A function of the two strings alone.
pub uninterp spec fn capture_of(pattern: Seq<char>, text: Seq<char>) -> Option<Seq<char>>;

/// Relies on regex::Regex::new and regex::Regex::captures: compiling a
/// pattern and searching a haystack are deterministic, `captures`
/// returns the leftmost match, and `get(1)` is that match's first
/// capture group.
#[verifier::external_body]
pub(crate) fn capture_first(pattern: &str, text: &str) -> (r: Option<String>)
    ensures
        match r {
            Some(c) => capture_of(pattern@, text@) == Some(c@),
            None => capture_of(pattern@, text@) is None,
        },
{
    match regex::Regex::new(pattern) {
        Ok(re) => re.captures(text).and_then(|c| c.get(1)).map(|m| m.as_str().to_string()),
        Err(_) => None,
    }
}

} // verus!
