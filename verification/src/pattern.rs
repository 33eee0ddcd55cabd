//! Regular expressions, compiled and matched by the `regex` crate.

use regex::Regex;
use vstd::prelude::*;

verus! {

/// `regex::Regex`, a compiled expression. Nothing of its inside is known
/// but what `is_match` tells.
#[verifier::external_type_specification]
#[verifier::external_body]
pub struct ExRegex(regex::Regex);

/// `regex::Error`, which says that a pattern was not accepted.
#[verifier::external_type_specification]
#[verifier::external_body]
pub struct ExRegexError(regex::Error);

/// Whether the expression matches somewhere in the text.
pub uninterp spec fn regex_match(pattern: Regex, text: Seq<char>) -> bool;

/// `RegexBuilder::new`, `case_insensitive` and `build`: the compiled
/// expression, or the crate's error where the pattern is not accepted.
/// Nothing is claimed of which patterns are accepted.
#[verifier::external_body]
pub(crate) fn compile(pattern: &str, case_insensitive: bool) -> (r: Result<Regex, regex::Error>) {
    regex::RegexBuilder::new(pattern).case_insensitive(case_insensitive).build()
}

/// `Regex::is_match`: whether the expression matches somewhere in the text.
#[verifier::external_body]
pub(crate) fn is_match(pattern: &Regex, text: &str) -> (r: bool)
    ensures
        r == regex_match(*pattern, text@),
{
    pattern.is_match(text)
}

} // verus!
