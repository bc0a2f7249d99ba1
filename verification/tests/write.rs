use zenithds::db::{check_payload, delete, gather, insert, read_csv, satisfies_collection_header};
use zenithds::types::api::CreatePayload;
use zenithds::types::error::ZenithError;
use zenithds::types::query::DataQuery;

fn strings(items: &[&str]) -> Vec<String> {
    items.iter().map(|s| String::from(*s)).collect()
}

fn payload(filename: &str, header: &[&str], rows: &[&[&str]]) -> CreatePayload {
    CreatePayload {
        filename: String::from(filename),
        header: strings(header),
        rows: rows.iter().map(|r| strings(r)).collect(),
    }
}

fn samples(files: &[&[u8]]) -> Vec<Vec<u8>> {
    files.iter().map(|f| f.to_vec()).collect()
}

fn query_error(r: Result<Vec<u8>, ZenithError>) -> String {
    match r {
        Err(ZenithError::QueryError(text)) => text,
        Err(e) => panic!("expected a query error, got: {}", e.message()),
        Ok(_) => panic!("expected a query error, got bytes"),
    }
}

const A_CSV: &[u8] = b"id,val\n1,x\n2,y\n";

#[test]
fn insert_returns_the_header_and_the_rows_as_csv() {
    let p = payload("b.csv", &["id", "val"], &[&["3", "z"], &["4", "a, \"b\""]]);
    let bytes = insert("main", p, &samples(&[A_CSV])).ok().unwrap();
    assert_eq!(bytes, b"id,val\n3,z\n4,\"a, \"\"b\"\"\"\n");
    let bytes = insert("main", payload("c.csv", &["only"], &[]), &vec![]).ok().unwrap();
    assert_eq!(bytes, b"only\n");
}

#[test]
fn insert_with_a_header_that_disagrees_with_the_collection_fails() {
    let p = payload("b.csv", &["id", "other"], &[&["3", "z"]]);
    assert_eq!(
        query_error(insert("main", p, &samples(&[A_CSV]))),
        "Header [\"id\", \"other\"] does not match header in collection 'main'"
    );
}

#[test]
fn header_is_compared_in_order_and_in_full() {
    let cases: [&[&str]; 4] = [&["val", "id"], &["id"], &["id", "val", "more"], &["id", "Val"]];
    for header in cases {
        assert!(matches!(
            satisfies_collection_header("main", &strings(header), &samples(&[A_CSV])),
            Err(ZenithError::QueryError(_))
        ));
    }
    assert!(satisfies_collection_header("main", &strings(&["id", "val"]), &samples(&[A_CSV])).is_ok());
}

#[test]
fn sampled_header_is_detected_as_in_a_scan() {
    let sample: &[u8] = b",\nid,val\na,b\n";
    assert!(satisfies_collection_header("c", &strings(&["id", "val"]), &samples(&[sample])).is_ok());
    assert!(satisfies_collection_header("c", &strings(&["a", "b"]), &samples(&[sample])).is_err());
}

#[test]
fn only_the_first_three_files_are_sampled() {
    let other: &[u8] = b"x,y\n";
    let header = strings(&["id", "val"]);
    assert!(satisfies_collection_header("c", &header, &samples(&[A_CSV, A_CSV, A_CSV, other])).is_ok());
    assert!(satisfies_collection_header("c", &header, &samples(&[A_CSV, A_CSV, other, A_CSV])).is_err());
    assert!(satisfies_collection_header("c", &header, &samples(&[other])).is_err());
    assert!(satisfies_collection_header("c", &header, &vec![]).is_ok());
}

#[test]
fn file_without_a_header_disagrees_with_every_header() {
    let header = strings(&["id", "val"]);
    for sample in [&b""[..], &b",\n"[..], &b"a,\n,b\n"[..]] {
        assert!(matches!(
            satisfies_collection_header("c", &header, &samples(&[sample])),
            Err(ZenithError::QueryError(_))
        ));
    }
}

#[test]
fn file_that_cannot_be_read_above_its_header_is_a_csv_error() {
    let header = strings(&["id", "val"]);
    let broken: &[u8] = b",\n\xff,2\nid,val\n";
    assert!(matches!(
        satisfies_collection_header("c", &header, &samples(&[broken])),
        Err(ZenithError::CSVError(_))
    ));
    let broken_below: &[u8] = b"id,val\n\xff,2\n";
    assert!(satisfies_collection_header("c", &header, &samples(&[broken_below])).is_ok());
    let first_decides = samples(&[b"x,y\n", broken]);
    assert!(matches!(
        satisfies_collection_header("c", &header, &first_decides),
        Err(ZenithError::QueryError(_))
    ));
}

#[test]
fn ragged_file_shows_its_first_complete_row_as_header() {
    let header = strings(&["id", "val"]);
    let ragged_above: &[u8] = b",\n1,2,3\nid,val\n";
    assert!(matches!(
        satisfies_collection_header("c", &header, &samples(&[ragged_above])),
        Err(ZenithError::QueryError(_))
    ));
    assert!(satisfies_collection_header(
        "c",
        &strings(&["1", "2", "3"]),
        &samples(&[ragged_above])
    )
    .is_ok());
    let ragged_below: &[u8] = b",\nid,val\n1,2,3\n4\n";
    assert!(satisfies_collection_header("c", &header, &samples(&[ragged_below])).is_ok());
}

#[test]
fn insert_refuses_what_is_empty() {
    let text = "Payload collection, filename, or header is empty";
    assert_eq!(query_error(insert("", payload("f", &["a"], &[]), &vec![])), text);
    assert_eq!(query_error(insert("c", payload("", &["a"], &[]), &vec![])), text);
    assert_eq!(query_error(insert("c", payload("f", &[], &[]), &vec![])), text);
    assert_eq!(query_error(insert("c", payload("f", &[], &[&["1"]]), &samples(&[b"x\n"]))), text);
}

#[test]
fn insert_refuses_rows_of_another_length_than_the_header() {
    let p = payload("f", &["a", "b"], &[&["1", "2"], &["3"]]);
    assert_eq!(
        query_error(insert("c", p, &vec![])),
        "The length of a row does not match header of length 2"
    );
    let header: Vec<&str> = vec!["h"; 12];
    let p = payload("f", &header, &[&[]]);
    assert_eq!(
        query_error(insert("c", p, &samples(&[b"x\n"]))),
        "The length of a row does not match header of length 12"
    );
}

#[test]
fn check_payload_agrees_with_insert() {
    assert!(check_payload("c", &payload("f", &["a", "b"], &[&["1", "2"]])).is_ok());
    assert!(check_payload("c", &payload("f", &["a"], &[])).is_ok());
    assert!(matches!(
        check_payload("c", &payload("f", &["a"], &[&["1"], &["1", "2"]])),
        Err(ZenithError::QueryError(_))
    ));
    assert!(matches!(
        check_payload("", &payload("f", &["a"], &[])),
        Err(ZenithError::QueryError(_))
    ));
}

#[test]
fn rows_that_were_inserted_are_selected() {
    let rows: &[&[&str]] = &[&["3", "z"], &["4", ""], &["5", "a,b"]];
    let bytes = insert("main", payload("b.csv", &["id", "val"], rows), &samples(&[A_CSV])).ok().unwrap();
    let q = DataQuery::new(vec![], vec![]).ok().unwrap();
    let arrived = vec![read_csv(A_CSV, &q).ok().unwrap(), read_csv(&bytes, &q).ok().unwrap()];
    let (header, selected) = gather(arrived);
    assert_eq!(header, strings(&["id", "val"]));
    for r in rows {
        assert!(selected.contains(&strings(r)));
    }
    assert_eq!(selected.len(), 5);
}

#[test]
fn delete_needs_both_names() {
    assert!(delete("main", "a.csv").is_ok());
    for (collection, filename) in [("", "a.csv"), ("main", ""), ("", "")] {
        match delete(collection, filename) {
            Err(ZenithError::QueryError(text)) => {
                assert_eq!(text, "The filename or collection is empty")
            }
            _ => panic!("expected a query error"),
        }
    }
}
