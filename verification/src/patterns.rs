//! Regular expressions and file name patterns.
use vstd::prelude::*;
use crate::text;

verus! {

/// `regex::Regex`, a compiled regular expression.
#[verifier::external_type_specification]
#[verifier::external_body]
pub struct ExRegex(regex::Regex);

/// The message of the error of `regex::Regex::new`, where it has one.
pub uninterp spec fn regex_error(pattern: Seq<char>) -> Option<Seq<char>>;

/// Whether `regex::Regex::is_match` finds a regular expression in a text.
pub uninterp spec fn regex_found(pattern: Seq<char>, subject: Seq<char>) -> bool;

/// The text that a regular expression was compiled from, as `regex::Regex::as_str` gives it.
pub uninterp spec fn regex_source(regex: regex::Regex) -> Seq<char>;

/// `regex::Regex::new`.  Which texts it refuses, and with which message, is named; what it compiles
/// keeps its source.
#[verifier::external_body]
pub(crate) fn compile_regex(pattern: &str) -> (r: Result<regex::Regex, String>)
    ensures
        match r {
            Ok(regex) => regex_error(pattern@) is None && regex_source(regex) == pattern@,
            Err(message) => regex_error(pattern@) == Some(message@),
        },
{
    regex::Regex::new(pattern).map_err(|e| e.to_string())
}

/// `regex::Regex::is_match`.  Whether it finds the expression depends on the expression's source
/// and on the text alone, and is named.
#[verifier::external_body]
pub(crate) fn regex_matches(regex: &regex::Regex, subject: &str) -> (r: bool)
    ensures
        r == regex_found(regex_source(*regex), subject@),
{
    regex.is_match(subject)
}

/// `glob::Pattern`, a compiled file name pattern.
#[verifier::external_type_specification]
#[verifier::external_body]
pub struct ExPattern(glob::Pattern);

/// The message of the error of `glob::Pattern::new`, where it has one.
pub uninterp spec fn glob_error(pattern: Seq<char>) -> Option<Seq<char>>;

/// Whether `glob::Pattern::matches_path` accepts a path.
pub uninterp spec fn glob_accepts(pattern: Seq<char>, path: Seq<char>) -> bool;

/// The text that a pattern was compiled from, as `glob::Pattern::as_str` gives it.
pub uninterp spec fn glob_source(pattern: glob::Pattern) -> Seq<char>;

/// `glob::Pattern::new`.  Which texts it refuses, and with which message, is named; what it compiles
/// keeps its source.
#[verifier::external_body]
pub(crate) fn compile_glob(pattern: &str) -> (r: Result<glob::Pattern, String>)
    ensures
        match r {
            Ok(compiled) => glob_error(pattern@) is None && glob_source(compiled) == pattern@,
            Err(message) => glob_error(pattern@) == Some(message@),
        },
{
    glob::Pattern::new(pattern).map_err(|e| e.to_string())
}

/// `glob::Pattern::matches_path`.  Whether it accepts the path depends on the pattern's source and
/// on the path alone, and is named.
#[verifier::external_body]
pub(crate) fn glob_matches(pattern: &glob::Pattern, path: &str) -> (r: bool)
    ensures
        r == glob_accepts(glob_source(*pattern), path@),
{
    pattern.matches_path(std::path::Path::new(path))
}

} // verus!
