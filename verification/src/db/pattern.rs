//! Regular expressions on filenames, which the `regex` crate compiles and runs.

use vstd::prelude::*;

verus! {

/// `regex::Regex`, carried as an opaque value.
#[verifier::external_type_specification]
#[verifier::external_body]
pub struct ExRegex(regex::Regex);

/// Whether `regex::Regex::new` accepts `pattern`.
pub uninterp spec fn regex_compiles(pattern: Seq<char>) -> bool;

/// What `regex::Regex::find` reports when the regex that `regex::Regex::new` makes of
/// `pattern` searches `haystack`: the text of the leftmost match, or `None` where
/// nothing matches.
pub uninterp spec fn regex_find(pattern: Seq<char>, haystack: Seq<char>) -> Option<Seq<char>>;

/// A compiled regular expression, kept beside the pattern that it was compiled from.
/// Values are made by `compile` alone.
pub struct FilenamePattern {
    source: String,
    regex: regex::Regex,
}

impl FilenamePattern {
    /// The pattern that the regular expression was compiled from.
    pub closed spec fn source(&self) -> Seq<char> {
        self.source@
    }
}

/// Calls `regex::Regex::new` on `pattern` and keeps the pattern beside the result. The
/// contract says that the call succeeds exactly where `regex_compiles` says so, and
/// that the value remembers the pattern.
#[verifier::external_body]
pub(crate) fn compile(pattern: &str) -> (r: Result<FilenamePattern, regex::Error>)
    ensures
        r is Ok == regex_compiles(pattern@),
        r matches Ok(p) ==> p.source() == pattern@,
{
    match regex::Regex::new(pattern) {
        Ok(regex) => Ok(FilenamePattern { source: pattern.to_string(), regex }),
        Err(error) => Err(error),
    }
}

/// Calls `regex::Regex::find` on `haystack` and copies the text of the match. The
/// contract says that the outcome is the one that `regex_find` names for the pattern
/// that `pattern` was compiled from.
#[verifier::external_body]
pub(crate) fn find_in(pattern: &FilenamePattern, haystack: &str) -> (r: Option<String>)
    ensures
        match r {
            Some(text) => regex_find(pattern.source(), haystack@) == Some(text@),
            None => regex_find(pattern.source(), haystack@) is None,
        },
{
    pattern.regex.find(haystack).map(|found| found.as_str().to_string())
}

} // verus!
