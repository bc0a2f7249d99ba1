use std::path::PathBuf;
use zenithds::db::{insert, select, StoredFile};
use zenithds::types::api::{CreatePayload, QueryPredicates};
use zenithds::types::error::ZenithError;
use zenithds::types::query::FileMetadata;

fn strings(items: &[&str]) -> Vec<String> {
    items.iter().map(|s| String::from(*s)).collect()
}

fn table(rows: &[&[&str]]) -> Vec<Vec<String>> {
    rows.iter().map(|r| strings(r)).collect()
}

fn stored(name: &str, contents: &[u8]) -> StoredFile {
    StoredFile {
        metadata: FileMetadata {
            filename: String::from(name),
            collection: String::from("main"),
            filepath: PathBuf::from("data/main").join(name),
            size: contents.len() as u64,
        },
        contents: contents.to_vec(),
    }
}

fn request(fields: &[&str], predicates: &[&str]) -> QueryPredicates {
    QueryPredicates { fields: strings(fields), predicates: strings(predicates) }
}

fn main_collection() -> Vec<StoredFile> {
    vec![stored("a.csv", b"id,val\n1,x\n2,y\n")]
}

fn answer(
    files: &Vec<StoredFile>,
    fields: &[&str],
    predicates: &[&str],
) -> (Vec<String>, Vec<Vec<String>>) {
    select(files, request(fields, predicates)).ok().unwrap()
}

#[test]
fn select_returns_header_and_both_rows() {
    let (header, rows) = answer(&main_collection(), &[], &[]);
    assert_eq!(header, strings(&["id", "val"]));
    assert!(rows.contains(&strings(&["1", "x"])));
    assert!(rows.contains(&strings(&["2", "y"])));
    assert_eq!(rows.len(), 2);
}

#[test]
fn select_with_a_predicate_restricts_the_result() {
    let (header, rows) = answer(&main_collection(), &[], &["val == x"]);
    assert_eq!(header, strings(&["id", "val"]));
    assert_eq!(rows, table(&[&["1", "x"]]));
}

#[test]
fn select_with_a_projection_returns_one_column() {
    let (header, rows) = answer(&main_collection(), &["val"], &[]);
    assert_eq!(header, strings(&["val"]));
    assert_eq!(rows, table(&[&["x"], &["y"]]));
}

#[test]
fn insert_with_another_header_than_the_collection_fails() {
    let payload = CreatePayload {
        filename: String::from("b.csv"),
        header: strings(&["id", "other"]),
        rows: table(&[&["3", "z"]]),
    };
    let samples: Vec<Vec<u8>> = main_collection().into_iter().map(|f| f.contents).collect();
    assert!(matches!(insert("main", payload, &samples), Err(ZenithError::QueryError(_))));
}

#[test]
fn select_drops_a_row_of_wrong_length_and_keeps_the_rest_of_its_file() {
    let mut files = main_collection();
    files.insert(0, stored("ragged.csv", b"id,val\n7,q\n8\n9,r\n"));
    files.push(stored("c.csv", b"id,val\n3,z\n"));
    let (header, rows) = answer(&files, &[], &[]);
    assert_eq!(header, strings(&["id", "val"]));
    assert_eq!(rows, table(&[&["7", "q"], &["9", "r"], &["1", "x"], &["2", "y"], &["3", "z"]]));
}

#[test]
fn select_of_two_files_drops_the_ragged_row_of_the_second() {
    let files = vec![stored("a.csv", b"id,val\n1,x\n"), stored("b.csv", b"id,val\n2,y\n3\n")];
    let (header, rows) = answer(&files, &[], &[]);
    assert_eq!(header, strings(&["id", "val"]));
    assert!(rows.contains(&strings(&["1", "x"])));
    assert!(rows.contains(&strings(&["2", "y"])));
    assert!(!rows.contains(&strings(&["3"])));
    assert!(rows.iter().all(|r| r.len() == 2));
    assert_eq!(rows.len(), 2);
}

#[test]
fn select_leaves_out_a_file_that_cannot_be_read() {
    let mut files = main_collection();
    files.insert(0, stored("bad.csv", b"id,val\n7,\xff\n9,r\n"));
    files.push(stored("c.csv", b"id,val\n3,z\n"));
    let (header, rows) = answer(&files, &[], &[]);
    assert_eq!(header, strings(&["id", "val"]));
    assert_eq!(rows, table(&[&["1", "x"], &["2", "y"], &["3", "z"]]));
}

#[test]
fn select_reads_only_the_files_that_the_filename_predicates_keep() {
    let files = vec![
        stored("sales_2021.csv", b"id,val\n1,a\n"),
        stored("sales_2022.csv", b"id,val\n2,b\n"),
        stored("stock_2022.csv", b"id,val\n3,c\n"),
        stored("empty_2022.csv", b""),
        stored("", b"id,val\n4,d\n"),
    ];
    let (_, rows) = answer(&files, &["id"], &["HAS \\d+ == 2022"]);
    assert_eq!(rows, table(&[&["2"], &["3"]]));
    let (_, rows) = answer(&files, &["id"], &["HAS \\d+ == 2022", "HAS ^s[a-z]+ != stock"]);
    assert_eq!(rows, table(&[&["2"]]));
    let (_, rows) = answer(&files, &["id"], &["HAS \\d+ == 2022", "val > b"]);
    assert_eq!(rows, table(&[&["3"]]));
    let (header, rows) = answer(&files, &[], &["HAS nothing == "]);
    assert!(header.is_empty());
    assert!(rows.is_empty());
}

#[test]
fn select_takes_the_header_of_the_first_file_that_has_one() {
    let files = vec![
        stored("a.csv", b",\n"),
        stored("b.csv", b"x,y\n1,2\n"),
        stored("c.csv", b"id,val\n3,4\n"),
    ];
    let (header, rows) = answer(&files, &[], &[]);
    assert_eq!(header, strings(&["x", "y"]));
    assert_eq!(rows, table(&[&["1", "2"], &["3", "4"]]));
}

#[test]
fn select_of_an_empty_collection_is_empty() {
    let (header, rows) = answer(&vec![], &["a"], &["a == 1"]);
    assert!(header.is_empty());
    assert!(rows.is_empty());
}

#[test]
fn select_fails_on_a_malformed_predicate_before_anything_else() {
    let files = main_collection();
    match select(&files, request(&[], &["HAS ( == 1", "val = x"])) {
        Err(ZenithError::PredicateError(text)) => {
            assert_eq!(text, "Incorrect format on predicate 'val = x'")
        }
        _ => panic!("expected a predicate error"),
    }
}

#[test]
fn select_fails_on_a_pattern_that_does_not_compile() {
    match select(&vec![], request(&[], &["val == x", "HAS ( == 1"])) {
        Err(ZenithError::PredicateError(text)) => assert_eq!(text, "regex: '('"),
        _ => panic!("expected a predicate error"),
    }
}

#[test]
fn rows_of_a_selection_do_not_depend_on_the_order_of_the_files() {
    let contents: [&[u8]; 4] =
        [b"id,val\n1,x\n2,y\n", b"id,val\n1,x\n", b"broken\n\xff\n", b"id,val\n3,z\n4,w\n"];
    let listing = |order: [usize; 4]| -> Vec<StoredFile> {
        order.iter().map(|i| stored(&format!("f{i}.csv"), contents[*i])).collect()
    };
    let (_, mut expected) = answer(&listing([0, 1, 2, 3]), &[], &["val != w"]);
    assert_eq!(expected.len(), 4);
    let unsorted = expected.clone();
    expected.sort();
    let mut reordered = false;
    for order in [[3, 2, 1, 0], [1, 3, 0, 2], [2, 0, 3, 1]] {
        let (_, mut rows) = answer(&listing(order), &[], &["val != w"]);
        reordered |= rows != unsorted;
        rows.sort();
        assert_eq!(rows, expected);
    }
    assert!(reordered);
}

#[test]
fn insert_followed_by_select_returns_every_inserted_row() {
    let mut files = main_collection();
    let inserted = table(&[&["3", "z"], &["4", ""], &["1", "x"]]);
    let payload = CreatePayload {
        filename: String::from("b.csv"),
        header: strings(&["id", "val"]),
        rows: inserted.clone(),
    };
    let samples: Vec<Vec<u8>> = files.iter().map(|f| f.contents.clone()).collect();
    let bytes = insert("main", payload, &samples).ok().unwrap();
    files.push(stored("b.csv", &bytes));
    let (header, rows) = answer(&files, &[], &[]);
    assert_eq!(header, strings(&["id", "val"]));
    for r in &inserted {
        assert!(rows.contains(r));
    }
    assert_eq!(rows.iter().filter(|r| **r == strings(&["1", "x"])).count(), 2);
    assert_eq!(rows.len(), 5);
}

#[test]
fn rows_inserted_twice_are_selected_twice() {
    let inserted = table(&[&["3", "z"], &["3", "z"], &["2", "y"], &["3", "z"]]);
    let payload = CreatePayload {
        filename: String::from("b.csv"),
        header: strings(&["id", "val"]),
        rows: inserted.clone(),
    };
    let mut files = main_collection();
    let samples: Vec<Vec<u8>> = files.iter().map(|f| f.contents.clone()).collect();
    let bytes = insert("main", payload, &samples).ok().unwrap();
    files.insert(0, stored("b.csv", &bytes));
    let (_, rows) = answer(&files, &[], &[]);
    for r in &inserted {
        let written = inserted.iter().filter(|w| *w == r).count();
        let returned = rows.iter().filter(|w| *w == r).count();
        assert!(returned >= written);
    }
    assert_eq!(rows.iter().filter(|r| **r == strings(&["3", "z"])).count(), 3);
    assert_eq!(rows.iter().filter(|r| **r == strings(&["2", "y"])).count(), 2);
}

#[test]
fn select_without_predicates_does_not_fail_whatever_the_files_hold() {
    let files = vec![
        stored("a.csv", b"\xff\xfe"),
        stored("b.csv", b"\"unterminated,quote\n1,2\n"),
        stored("c.csv", b"id,val\n1\n2,3,4\n"),
        stored("d.csv", b""),
    ];
    let (header, rows) = answer(&files, &[], &[]);
    assert!(rows.iter().all(|r| r.len() == header.len()));
    assert!(select(&files, request(&["id"], &[])).is_ok());
}

#[test]
fn inserted_header_with_an_empty_cell_is_not_read_back_as_the_header() {
    let payload = CreatePayload {
        filename: String::from("b.csv"),
        header: strings(&["id", ""]),
        rows: table(&[&["3", "z"], &["4", "w"]]),
    };
    let bytes = insert("other", payload, &vec![]).ok().unwrap();
    let (header, rows) = answer(&vec![stored("b.csv", &bytes)], &[], &[]);
    assert_eq!(header, strings(&["3", "z"]));
    assert_eq!(rows, table(&[&["4", "w"]]));
}
