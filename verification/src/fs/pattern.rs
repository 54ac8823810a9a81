//! Regular expressions, as the `regex` crate compiles and runs them.

use vstd::prelude::*;

verus! {

/// A compiled regular expression of the `regex` crate. Nothing inside it is
/// visible here.
#[verifier::external_type_specification]
#[verifier::external_body]
pub struct ExRegex(regex::Regex);

/// The error with which the `regex` crate refuses a pattern.
#[verifier::external_type_specification]
#[verifier::external_body]
pub struct ExRegexError(regex::Error);

/// Whether `Regex::new` compiles a pattern: whether the pattern is a valid
/// regular expression whose compiled form stays within the size limit of
/// the `regex` crate.
pub uninterp spec fn regex_compiles(pattern: Seq<char>) -> bool;

/// The pattern that a compiled expression was compiled from: what
/// `Regex::as_str` returns.
pub uninterp spec fn regex_pattern(compiled: &regex::Regex) -> Seq<char>;

/// Whether a compiled expression matches somewhere in `haystack`: what
/// `Regex::is_match` returns.
pub uninterp spec fn regex_is_match(compiled: &regex::Regex, haystack: Seq<char>) -> bool;

/// `Regex::new` compiles a pattern or refuses it. Whether it compiles
/// depends on the pattern alone, and what it compiles keeps the pattern
/// that it was given.
pub assume_specification[ regex::Regex::new ](re: &str) -> (res: Result<regex::Regex, regex::Error>)
    ensures
        res is Ok == regex_compiles(re@),
        res matches Ok(compiled) ==> regex_pattern(&compiled) == re@,
;

/// `Regex::is_match` says whether the expression matches somewhere in the
/// haystack; the same expression on the same haystack gives the same answer.
pub assume_specification[ regex::Regex::is_match ](compiled: &regex::Regex, haystack: &str) -> (res: bool)
    ensures
        res == regex_is_match(compiled, haystack@),
;

} // verus!
