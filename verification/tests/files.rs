use std::path::PathBuf;
use zenithds::db::{group_collection_files, list_collection_files};
use zenithds::types::error::ZenithError;
use zenithds::types::query::{DataQuery, FileMetadata, Predicate};

fn file(name: &str, size: u64) -> FileMetadata {
    FileMetadata {
        filename: String::from(name),
        collection: String::from("main"),
        filepath: PathBuf::from("data/main").join(name),
        size,
    }
}

fn names(files: &[FileMetadata]) -> Vec<&str> {
    files.iter().map(|f| f.filename.as_str()).collect()
}

fn filename_predicates(strings: &[&str]) -> Vec<Predicate> {
    let strings = strings.iter().map(|s| format!("HAS {s}")).collect();
    DataQuery::new(vec![], strings).ok().unwrap().filename_regex_predicates
}

fn listing() -> Vec<FileMetadata> {
    vec![
        file("sales_2021.csv", 10),
        file("sales_2022.csv", 20),
        file("", 30),
        file("stock_2022.csv", 0),
        file("stock_2023.csv", 40),
        file("notes.txt", 50),
    ]
}

#[test]
fn files_without_a_name_or_without_content_are_never_listed() {
    let files = list_collection_files(listing(), &vec![]).ok().unwrap();
    assert_eq!(names(&files), ["sales_2021.csv", "sales_2022.csv", "stock_2023.csv", "notes.txt"]);
    assert_eq!(files[0].size, 10);
    assert_eq!(files[0].filepath, PathBuf::from("data/main/sales_2021.csv"));
    assert_eq!(files[0].collection, "main");
}

#[test]
fn matched_text_of_the_name_is_held_against_the_predicate() {
    let preds = filename_predicates(&["\\d+ >= 2022"]);
    let files = list_collection_files(listing(), &preds).ok().unwrap();
    assert_eq!(names(&files), ["sales_2022.csv", "stock_2023.csv"]);
    let preds = filename_predicates(&["^[a-z]+ == sales", "\\d+ != 2021"]);
    let files = list_collection_files(listing(), &preds).ok().unwrap();
    assert_eq!(names(&files), ["sales_2022.csv"]);
    let preds = filename_predicates(&["\\.[a-z]+$ CONTAINS sv"]);
    let files = list_collection_files(listing(), &preds).ok().unwrap();
    assert_eq!(names(&files), ["sales_2021.csv", "sales_2022.csv", "stock_2023.csv"]);
}

#[test]
fn name_in_which_the_pattern_finds_nothing_fails_the_predicate() {
    let preds = filename_predicates(&["\\d+ != 1999"]);
    let files = list_collection_files(listing(), &preds).ok().unwrap();
    assert_eq!(names(&files), ["sales_2021.csv", "sales_2022.csv", "stock_2023.csv"]);
    let preds = filename_predicates(&["zzz CONTAINS "]);
    assert!(list_collection_files(listing(), &preds).ok().unwrap().is_empty());
}

#[test]
fn pattern_that_does_not_compile_fails_the_listing_and_is_named() {
    let preds = filename_predicates(&["\\d+ == 1", "( == 1", "[ == 2"]);
    match list_collection_files(listing(), &preds) {
        Err(ZenithError::PredicateError(text)) => assert_eq!(text, "regex: '('"),
        _ => panic!("expected a predicate error"),
    }
    match list_collection_files(vec![], &filename_predicates(&["a{2,1} == x"])) {
        Err(ZenithError::PredicateError(text)) => assert_eq!(text, "regex: 'a{2,1}'"),
        _ => panic!("expected a predicate error"),
    }
}

fn sizes(groups: &[Vec<FileMetadata>]) -> Vec<Vec<u64>> {
    groups.iter().map(|g| g.iter().map(|f| f.size).collect()).collect()
}

#[test]
fn files_are_dealt_from_the_largest_down() {
    let files = vec![file("a", 5), file("b", 1), file("c", 3), file("d", 4), file("e", 2)];
    let groups = group_collection_files(files, 2);
    assert_eq!(sizes(&groups), vec![vec![5, 3, 1], vec![4, 2]]);
    assert_eq!(names(&groups[0]), ["a", "c", "b"]);
    assert_eq!(names(&groups[1]), ["d", "e"]);
}

#[test]
fn there_are_always_as_many_groups_as_workers() {
    let groups = group_collection_files(vec![file("a", 7), file("b", 9)], 4);
    assert_eq!(sizes(&groups), vec![vec![9], vec![7], vec![], vec![]]);
    let groups = group_collection_files(vec![], 3);
    assert_eq!(sizes(&groups), vec![vec![], vec![], vec![]]);
    let groups = group_collection_files(vec![], 0);
    assert!(groups.is_empty());
    let groups = group_collection_files(vec![file("a", 1), file("b", 2), file("c", 3)], 1);
    assert_eq!(sizes(&groups), vec![vec![3, 2, 1]]);
}

#[test]
fn group_lengths_differ_by_one_at_most() {
    for n in 0..20u64 {
        for k in 1..6usize {
            let files = (0..n).map(|i| file(&format!("f{i}"), (i * 7) % 11 + 1)).collect();
            let groups = group_collection_files(files, k);
            assert_eq!(groups.len(), k);
            for (j, g) in groups.iter().enumerate() {
                let expected = n as usize / k + usize::from(j < n as usize % k);
                assert_eq!(g.len(), expected);
            }
        }
    }
}

#[test]
fn of_files_of_one_size_the_one_listed_later_is_dealt_first() {
    let files = vec![file("a", 5), file("b", 5), file("c", 9), file("d", 5)];
    let groups = group_collection_files(files, 2);
    assert_eq!(names(&groups[0]), ["c", "b"]);
    assert_eq!(names(&groups[1]), ["d", "a"]);
}

#[test]
fn partition_is_the_same_on_every_call_and_for_every_listing_order() {
    let listing = || vec![file("a", 50), file("b", 10), file("c", 30), file("d", 40), file("e", 20)];
    let first = group_collection_files(listing(), 3);
    let second = group_collection_files(listing(), 3);
    assert_eq!(names(&first[0]), names(&second[0]));
    assert_eq!(names(&first[1]), names(&second[1]));
    assert_eq!(names(&first[2]), names(&second[2]));
    let mut shuffled = listing();
    shuffled.reverse();
    shuffled.swap(1, 3);
    let third = group_collection_files(shuffled, 3);
    assert_eq!(names(&first[0]), ["a", "e"]);
    assert_eq!(names(&first[1]), ["d", "b"]);
    assert_eq!(names(&first[2]), ["c"]);
    assert_eq!(names(&third[0]), ["a", "e"]);
    assert_eq!(names(&third[1]), ["d", "b"]);
    assert_eq!(names(&third[2]), ["c"]);
}
