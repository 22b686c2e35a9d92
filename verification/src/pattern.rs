//! Rewriting by pattern, which the `regex` crate does.
//!
//! Of this file only `suffix_for` is proved. `rewrite` hands its work to
//! `regex`, and `rewritten` names what comes back, which depends on the pattern
//! and the text alone.
use crate::text::option_text;
use regex::{Captures, Regex};
use vstd::prelude::*;
use vstd::string::StringExecFns;

verus! {

/// What `Regex::replace_all` makes of a text when the pattern is compiled by
/// `Regex::new` and each match is replaced by what `suffix_of` gives for it.
/// `None` where the pattern does not compile.
pub uninterp spec fn rewritten(pattern: Seq<char>, text: Seq<char>) -> Option<Seq<char>>;

/// What stands in place of a match: `str` for `or`, `er` for `e`, and any other
/// text as it is.
pub open spec fn suffix_of(found: Seq<char>) -> Seq<char> {
    if found == "or"@ {
        "str"@
    } else if found == "e"@ {
        "er"@
    } else {
        found
    }
}

/// Gives what stands in place of a match.
pub fn suffix_for(found: &str) -> (suffix: String)
    ensures
        suffix@ == suffix_of(found@),
{
    let found = String::from_str(found);
    if found == String::from_str("or") {
        String::from_str("str")
    } else if found == String::from_str("e") {
        String::from_str("er")
    } else {
        found
    }
}

/// Compiles the pattern with `Regex::new` and calls `Regex::replace_all` with a
/// replacement that calls `suffix_for` on the text of each match. Gives a copy
/// of what comes back, and nothing where the pattern does not compile. The
/// contract only names the result.
#[verifier::external_body]
pub(crate) fn rewrite(pattern: &str, text: &str) -> (out: Option<String>)
    ensures
        option_text(out) == rewritten(pattern@, text@),
{
    Regex::new(pattern).ok().map(
        |regex| regex.replace_all(text, |found: &Captures| suffix_for(&found[0])).into_owned(),
    )
}

} // verus!
