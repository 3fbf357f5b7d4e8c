//! Glob patterns and regular expressions, by the `glob` and `regex` crates.
//! Each function here names what the crate computes from its arguments.
use vstd::prelude::*;

verus! {

/// The error that `glob::Pattern::new` reports for a pattern, if any.
pub uninterp spec fn glob_error_of(pattern: Seq<char>) -> Option<Seq<char>>;

/// Whether `glob::Pattern::new(pattern)` accepts `text` with
/// `Pattern::matches` (the crate's default match options).
pub uninterp spec fn glob_match_of(pattern: Seq<char>, text: Seq<char>) -> bool;

/// Whether `glob::Pattern::new(pattern)` accepts `text` with
/// `Pattern::matches_with` and the match options given by the three flags
/// (`case_sensitive`, `require_literal_separator`,
/// `require_literal_leading_dot`).
pub uninterp spec fn glob_match_with_of(pattern: Seq<char>, text: Seq<char>, case_sensitive: bool, literal_separator: bool, literal_leading_dot: bool) -> bool;

/// The error that `regex::RegexBuilder` reports for a pattern with the
/// given case sensitivity, if any.
pub uninterp spec fn regex_error_of(pattern: Seq<char>, case_insensitive: bool) -> Option<Seq<char>>;

/// Whether the regular expression, built with the given case sensitivity,
/// finds a match in `text` (`Regex::is_match`).
pub uninterp spec fn regex_match_of(pattern: Seq<char>, case_insensitive: bool, text: Seq<char>) -> bool;

/// `glob::Pattern::new`: `None` when the pattern compiles, otherwise the
/// text of the error.
#[verifier::external_body]
pub(crate) fn glob_check(pattern: &str) -> (r: Option<String>)
    ensures
        match r {
            Some(e) => glob_error_of(pattern@) == Some(e@),
            None => glob_error_of(pattern@) is None,
        },
{
    match glob::Pattern::new(pattern) {
        Ok(_) => None,
        Err(e) => Some(e.to_string()),
    }
}

/// `glob::Pattern::matches` of the compiled `pattern` on `text`; a
/// pattern that does not compile matches nothing.
#[verifier::external_body]
pub(crate) fn glob_matches(pattern: &str, text: &str) -> (r: bool)
    ensures
        r == glob_match_of(pattern@, text@),
{
    match glob::Pattern::new(pattern) {
        Ok(p) => p.matches(text),
        Err(_) => false,
    }
}

/// `glob::Pattern::matches_with` of the compiled `pattern` on `text`, with
/// the match options that the flags give; a pattern that does not compile
/// matches nothing.
#[verifier::external_body]
pub(crate) fn glob_matches_with(pattern: &str, text: &str, case_sensitive: bool, literal_separator: bool, literal_leading_dot: bool) -> (r: bool)
    ensures
        r == glob_match_with_of(pattern@, text@, case_sensitive, literal_separator, literal_leading_dot),
{
    let options = glob::MatchOptions {
        case_sensitive,
        require_literal_separator: literal_separator,
        require_literal_leading_dot: literal_leading_dot,
    };
    match glob::Pattern::new(pattern) {
        Ok(p) => p.matches_with(text, options),
        Err(_) => false,
    }
}

/// `regex::RegexBuilder::build` with the case flag: `None` when the
/// expression compiles, otherwise the text of the error.
#[verifier::external_body]
pub(crate) fn regex_check(pattern: &str, case_insensitive: bool) -> (r: Option<String>)
    ensures
        match r {
            Some(e) => regex_error_of(pattern@, case_insensitive) == Some(e@),
            None => regex_error_of(pattern@, case_insensitive) is None,
        },
{
    match regex::RegexBuilder::new(pattern).case_insensitive(case_insensitive).build() {
        Ok(_) => None,
        Err(e) => Some(e.to_string()),
    }
}

/// `regex::Regex::is_match` of the expression built with the case flag;
/// an expression that does not compile matches nothing.
#[verifier::external_body]
pub(crate) fn regex_matches(pattern: &str, case_insensitive: bool, text: &str) -> (r: bool)
    ensures
        r == regex_match_of(pattern@, case_insensitive, text@),
{
    match regex::RegexBuilder::new(pattern).case_insensitive(case_insensitive).build() {
        Ok(re) => re.is_match(text),
        Err(_) => false,
    }
}

} // verus!
