//! The regular expressions the catalog uses, through the `regex` crate.
use vstd::prelude::*;

verus! {

/// Whether `regex::Regex::new(pattern)` compiles and its `is_match(text)` holds.
pub uninterp spec fn regex_finds(pattern: Seq<char>, text: Seq<char>) -> bool;

/// The text of capture group `group` of the first match of `pattern` in
/// `text` (`None` when the pattern does not compile, nothing matches, or the
/// group did not take part in the match).
pub uninterp spec fn regex_group(pattern: Seq<char>, text: Seq<char>, group: nat) -> Option<Seq<char>>;

/// `regex::Regex::is_match`; a pattern that does not compile finds nothing.
#[verifier::external_body]
pub(crate) fn regex_is_match(pattern: &str, text: &str) -> (r: bool)
    ensures
        r == regex_finds(pattern@, text@),
{
    match regex::Regex::new(pattern) {
        Ok(re) => re.is_match(text),
        Err(_) => false,
    }
}

/// `regex::Regex::captures`, then the text of one group of the first match.
#[verifier::external_body]
pub(crate) fn regex_capture(pattern: &str, text: &str, group: usize) -> (r: Option<String>)
    ensures
        match r {
            Some(s) => regex_group(pattern@, text@, group as nat) == Some(s@),
            None => regex_group(pattern@, text@, group as nat) is None,
        },
{
    let caps = match regex::Regex::new(pattern) {
        Ok(re) => re.captures(text),
        Err(_) => None,
    };
    match caps {
        Some(c) => match c.get(group) {
            Some(m) => Some(m.as_str().to_string()),
            None => None,
        },
        None => None,
    }
}

} // verus!
