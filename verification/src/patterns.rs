use crate::text::views;
use regex::Regex;
use vstd::prelude::*;

verus! {

/// The text in which every match of a regular expression in `haystack` is
/// replaced, or `None` if `pattern` is not a regular expression that the
/// engine accepts.
pub uninterp spec fn regex_replace_all(
    pattern: Seq<char>,
    haystack: Seq<char>,
    replacement: Seq<char>,
) -> Option<Seq<char>>;

/// The pieces of `haystack` between the matches of a regular expression, or
/// `None` if `pattern` is not a regular expression that the engine accepts.
pub uninterp spec fn regex_split(pattern: Seq<char>, haystack: Seq<char>) -> Option<
    Seq<Seq<char>>,
>;

/// The parts of `haystack` that a regular expression matches, from left to
/// right, or `None` if `pattern` is not a regular expression that the engine
/// accepts.
pub uninterp spec fn regex_matches(pattern: Seq<char>, haystack: Seq<char>) -> Option<
    Seq<Seq<char>>,
>;

/// Compiles `pattern` with `regex::Regex::new` and calls
/// `regex::Regex::replace_all` on the result. Trusted: the text that comes
/// back depends on the three arguments alone, and there is none exactly if
/// the pattern does not compile.
#[verifier::external_body]
pub(crate) fn replace_all(pattern: &str, haystack: &str, replacement: &str) -> (replaced: Option<
    String,
>)
    ensures
        match replaced {
            Some(text) => regex_replace_all(pattern@, haystack@, replacement@) == Some(text@),
            None => regex_replace_all(pattern@, haystack@, replacement@) is None,
        },
{
    match Regex::new(pattern) {
        Ok(re) => Some(re.replace_all(haystack, replacement).into_owned()),
        Err(_) => None,
    }
}

/// Compiles `pattern` with `regex::Regex::new` and calls
/// `regex::Regex::split` on the result. Trusted: the pieces that come back
/// depend on the two arguments alone, and there are none exactly if the
/// pattern does not compile.
#[verifier::external_body]
pub(crate) fn split(pattern: &str, haystack: &str) -> (pieces: Option<Vec<String>>)
    ensures
        match pieces {
            Some(list) => regex_split(pattern@, haystack@) == Some(views(list@)),
            None => regex_split(pattern@, haystack@) is None,
        },
{
    match Regex::new(pattern) {
        Ok(re) => Some(re.split(haystack).map(|piece| piece.to_string()).collect()),
        Err(_) => None,
    }
}

/// Compiles `pattern` with `regex::Regex::new` and calls
/// `regex::Regex::find_iter` on the result. Trusted: the matched parts that
/// come back depend on the two arguments alone, and there are none exactly
/// if the pattern does not compile.
#[verifier::external_body]
pub(crate) fn find_all(pattern: &str, haystack: &str) -> (found: Option<Vec<String>>)
    ensures
        match found {
            Some(list) => regex_matches(pattern@, haystack@) == Some(views(list@)),
            None => regex_matches(pattern@, haystack@) is None,
        },
{
    match Regex::new(pattern) {
        Ok(re) => Some(re.find_iter(haystack).map(|found| found.as_str().to_string()).collect()),
        Err(_) => None,
    }
}

} // verus!
