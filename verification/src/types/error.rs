//! The engine's errors, and what a client is told of each.

use vstd::prelude::*;
use vstd::std_specs::convert::FromSpecImpl;
use crate::text::prefixed;
use vstd::string::StringExecFns;

verus! {

/// `std::io::Error`, carried as an opaque value.
#[verifier::external_type_specification]
#[verifier::external_body]
pub struct ExIoError(std::io::Error);

/// `regex::Error`, carried as an opaque value.
#[verifier::external_type_specification]
#[verifier::external_body]
pub struct ExRegexError(regex::Error);

/// `csv::Error`, carried as an opaque value.
#[verifier::external_type_specification]
#[verifier::external_body]
pub struct ExCsvError(csv::Error);

/// Everything that a request can fail with.
pub enum ZenithError {
    /// Storage could not be read or written.
    FileSystemError(std::io::Error),
    /// A regular expression was refused.
    RegexError(regex::Error),
    /// CSV data could not be read or written.
    CSVError(csv::Error),
    /// A predicate string does not follow the grammar, or its pattern does not compile.
    PredicateError(String),
    /// The request is well formed but asks for something that the engine refuses.
    QueryError(String),
}

/// Status of a reply to a request that the server could not serve.
pub const INTERNAL_SERVER_ERROR: u16 = 500;

/// Status of a reply to a request that the client got wrong.
pub const UNPROCESSABLE_ENTITY: u16 = 422;

/// Calls `ToString::to_string` on a `std::io::Error`. The text depends on the
/// platform, so nothing is claimed of it.
#[verifier::external_body]
fn io_error_text(error: &std::io::Error) -> String {
    error.to_string()
}

/// Calls `ToString::to_string` on a `regex::Error`. Nothing is claimed of the text.
#[verifier::external_body]
fn regex_error_text(error: &regex::Error) -> String {
    error.to_string()
}

/// Calls `ToString::to_string` on a `csv::Error`. Such an error may wrap an I/O
/// error, so nothing is claimed of the text.
#[verifier::external_body]
fn csv_error_text(error: &csv::Error) -> String {
    error.to_string()
}

/// `s` begins with `prefix`.
pub open spec fn starts_with(s: Seq<char>, prefix: Seq<char>) -> bool {
    prefix.len() <= s.len() && s.subrange(0, prefix.len() as int) == prefix
}

impl ZenithError {
    /// The status and the message that a client receives. Failures on the server's
    /// side all read alike, so that no internal detail leaves the server; a malformed
    /// request is told what was wrong with it.
    pub open spec fn reply(self) -> (u16, Seq<char>) {
        match self {
            ZenithError::FileSystemError(_) => (INTERNAL_SERVER_ERROR, "Something went wrong"@),
            ZenithError::RegexError(_) => (INTERNAL_SERVER_ERROR, "Something went wrong"@),
            ZenithError::CSVError(_) => (INTERNAL_SERVER_ERROR, "Something went wrong"@),
            ZenithError::PredicateError(detail) => (
                UNPROCESSABLE_ENTITY,
                "Incorrect predicate syntax: "@ + detail@,
            ),
            ZenithError::QueryError(detail) => (
                UNPROCESSABLE_ENTITY,
                "Incorrect header, rows, or query body: "@ + detail@,
            ),
        }
    }

    /// The heading under which an error is logged.
    pub open spec fn heading(self) -> Seq<char> {
        match self {
            ZenithError::FileSystemError(_) => "File system IO error: "@,
            ZenithError::RegexError(_) => "Regex error: "@,
            ZenithError::CSVError(_) => "CSV read or write error: "@,
            ZenithError::PredicateError(_) => "Predicate error: "@,
            ZenithError::QueryError(_) => "Query error: "@,
        }
    }

    /// Computes `reply`.
    pub fn response_parts(&self) -> (parts: (u16, String))
        ensures
            parts.0 == self.reply().0,
            parts.1@ == self.reply().1,
    {
        match self {
            ZenithError::PredicateError(detail) => (
                UNPROCESSABLE_ENTITY,
                prefixed("Incorrect predicate syntax: ", detail.as_str()),
            ),
            ZenithError::QueryError(detail) => (
                UNPROCESSABLE_ENTITY,
                prefixed("Incorrect header, rows, or query body: ", detail.as_str()),
            ),
            _ => (INTERNAL_SERVER_ERROR, String::from_str("Something went wrong")),
        }
    }

    /// The line under which the error is logged: its heading, and after it the detail.
    /// For the two kinds that carry their own text the detail is that text.
    pub fn message(&self) -> (text: String)
        ensures
            starts_with(text@, self.heading()),
            match *self {
                ZenithError::PredicateError(detail) => text@ == self.heading() + detail@,
                ZenithError::QueryError(detail) => text@ == self.heading() + detail@,
                _ => true,
            },
    {
        let text = match self {
            ZenithError::FileSystemError(error) => prefixed(
                "File system IO error: ",
                io_error_text(error).as_str(),
            ),
            ZenithError::RegexError(error) => prefixed(
                "Regex error: ",
                regex_error_text(error).as_str(),
            ),
            ZenithError::CSVError(error) => prefixed(
                "CSV read or write error: ",
                csv_error_text(error).as_str(),
            ),
            ZenithError::PredicateError(detail) => prefixed("Predicate error: ", detail.as_str()),
            ZenithError::QueryError(detail) => prefixed("Query error: ", detail.as_str()),
        };
        assert(text@.subrange(0, self.heading().len() as int) == self.heading());
        text
    }
}

impl From<std::io::Error> for ZenithError {
    fn from(error: std::io::Error) -> (e: Self) {
        ZenithError::FileSystemError(error)
    }
}

impl FromSpecImpl<std::io::Error> for ZenithError {
    open spec fn obeys_from_spec() -> bool {
        true
    }

    open spec fn from_spec(error: std::io::Error) -> Self {
        ZenithError::FileSystemError(error)
    }
}

impl From<regex::Error> for ZenithError {
    fn from(error: regex::Error) -> (e: Self) {
        ZenithError::RegexError(error)
    }
}

impl FromSpecImpl<regex::Error> for ZenithError {
    open spec fn obeys_from_spec() -> bool {
        true
    }

    open spec fn from_spec(error: regex::Error) -> Self {
        ZenithError::RegexError(error)
    }
}

impl From<csv::Error> for ZenithError {
    fn from(error: csv::Error) -> (e: Self) {
        ZenithError::CSVError(error)
    }
}

impl FromSpecImpl<csv::Error> for ZenithError {
    open spec fn obeys_from_spec() -> bool {
        true
    }

    open spec fn from_spec(error: csv::Error) -> Self {
        ZenithError::CSVError(error)
    }
}

} // verus!
