use zenithds::types::error::{ZenithError, INTERNAL_SERVER_ERROR, UNPROCESSABLE_ENTITY};

fn io_error() -> std::io::Error {
    std::io::Error::new(std::io::ErrorKind::NotFound, "missing.csv is not there")
}

fn regex_error() -> regex::Error {
    regex::Regex::new("(").err().unwrap()
}

fn csv_error() -> csv::Error {
    let mut reader = csv::ReaderBuilder::new().has_headers(false).from_reader(&b"a,\xff\n"[..]);
    reader.records().find_map(|r| r.err()).unwrap()
}

#[test]
fn outside_errors_convert_to_their_own_kind() {
    assert!(matches!(ZenithError::from(io_error()), ZenithError::FileSystemError(_)));
    assert!(matches!(ZenithError::from(regex_error()), ZenithError::RegexError(_)));
    assert!(matches!(ZenithError::from(csv_error()), ZenithError::CSVError(_)));
}

#[test]
fn deleting_a_file_that_is_missing_is_a_failure_of_storage() {
    let error = ZenithError::from(io_error());
    assert!(matches!(error, ZenithError::FileSystemError(_)));
    assert_eq!(error.response_parts(), (500, String::from("Something went wrong")));
}

#[test]
fn failures_on_the_server_tell_the_client_nothing() {
    for error in [
        ZenithError::FileSystemError(io_error()),
        ZenithError::RegexError(regex_error()),
        ZenithError::CSVError(csv_error()),
    ] {
        assert_eq!(error.response_parts(), (INTERNAL_SERVER_ERROR, String::from("Something went wrong")));
    }
    assert_eq!(INTERNAL_SERVER_ERROR, 500);
}

#[test]
fn malformed_requests_are_told_what_was_wrong() {
    assert_eq!(UNPROCESSABLE_ENTITY, 422);
    assert_eq!(
        ZenithError::PredicateError(String::from("regex: '('")).response_parts(),
        (422, String::from("Incorrect predicate syntax: regex: '('"))
    );
    assert_eq!(
        ZenithError::QueryError(String::from("no header")).response_parts(),
        (422, String::from("Incorrect header, rows, or query body: no header"))
    );
}

#[test]
fn message_is_heading_and_detail() {
    assert_eq!(
        ZenithError::PredicateError(String::from("bad")).message(),
        "Predicate error: bad"
    );
    assert_eq!(ZenithError::QueryError(String::from("")).message(), "Query error: ");
    assert_eq!(
        ZenithError::FileSystemError(io_error()).message(),
        "File system IO error: missing.csv is not there"
    );
    assert_eq!(
        ZenithError::RegexError(regex_error()).message(),
        format!("Regex error: {}", regex_error())
    );
    assert_eq!(
        ZenithError::CSVError(csv_error()).message(),
        format!("CSV read or write error: {}", csv_error())
    );
    assert!(ZenithError::CSVError(csv_error()).message().len() > "CSV read or write error: ".len());
}
