//! Searching text with a regular expression.
//!
//! The search itself is done by the `regex` crate. What it finds is a function of the
//! pattern and the text alone; the library gives that function a name and builds on it.

use vstd::prelude::*;

use crate::text::text_of;

verus! {

#[verifier::external_type_specification]
#[verifier::external_body]
pub struct ExRegexError(regex::Error);

/// Whether `regex::Regex::new` compiles `pattern`.
pub uninterp spec fn regex_accepts(pattern: Seq<char>) -> bool;

/// What the first capture group of `pattern` holds in the leftmost match that
/// `regex::Regex::captures` finds in `text`: `None` where there is no match, or where
/// the group took no part in it.
pub uninterp spec fn regex_first_group(pattern: Seq<char>, text: Seq<char>) -> Option<Seq<char>>;

/// Compiles `pattern` with `regex::Regex::new` and searches `text` with
/// `Regex::captures`. The contract claims that compilation succeeds exactly on the
/// patterns that `regex_accepts` names, and that the text of capture group 1, read with
/// `Captures::get` and `Match::as_str`, is the one that `regex_first_group` names.
#[verifier::external_body]
pub(crate) fn first_group(pattern: &str, text: &str) -> (r: Result<Option<String>, regex::Error>)
    ensures
        r is Ok <==> regex_accepts(pattern@),
        r is Ok ==> text_of(r->Ok_0) == regex_first_group(pattern@, text@),
{
    let re = regex::Regex::new(pattern)?;
    match re.captures(text) {
        Some(caps) => match caps.get(1) {
            Some(m) => Ok(Some(m.as_str().to_string())),
            None => Ok(None),
        },
        None => Ok(None),
    }
}

} // verus!
