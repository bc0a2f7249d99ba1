use zenithds::db::{absorb, gather};
use zenithds::types::query::CSVData;

fn strings(items: &[&str]) -> Vec<String> {
    items.iter().map(|s| String::from(*s)).collect()
}

fn part(header: &[&str], rows: &[&[&str]]) -> CSVData {
    CSVData { header: strings(header), records: rows.iter().map(|r| strings(r)).collect() }
}

fn parts() -> Vec<CSVData> {
    vec![
        part(&[], &[]),
        part(&["id", "val"], &[&["1", "x"], &["2", "y"]]),
        part(&["id", "other"], &[&["3", "z"]]),
        part(&["id", "val"], &[&["1", "x"]]),
    ]
}

#[test]
fn gather_of_nothing_is_empty() {
    let (header, rows) = gather(vec![]);
    assert!(header.is_empty());
    assert!(rows.is_empty());
}

#[test]
fn header_is_the_first_that_is_not_empty_and_rows_keep_their_arrival() {
    let (header, rows) = gather(parts());
    assert_eq!(header, strings(&["id", "val"]));
    assert_eq!(
        rows,
        vec![strings(&["1", "x"]), strings(&["2", "y"]), strings(&["3", "z"]), strings(&["1", "x"])]
    );
}

#[test]
fn absorb_folds_one_result_into_the_aggregate() {
    let mut acc = part(&[], &[]);
    absorb(&mut acc, part(&[], &[]));
    assert!(acc.header.is_empty() && acc.records.is_empty());
    absorb(&mut acc, part(&["a"], &[&["1"]]));
    absorb(&mut acc, part(&["b"], &[&["2"], &["3"]]));
    assert_eq!(acc.header, strings(&["a"]));
    assert_eq!(acc.records, vec![strings(&["1"]), strings(&["2"]), strings(&["3"])]);
}

#[test]
fn order_of_arrival_changes_the_order_of_rows_but_not_the_rows() {
    let (_, mut expected) = gather(parts());
    expected.sort();
    let orders: [[usize; 4]; 5] =
        [[3, 2, 1, 0], [1, 0, 3, 2], [2, 3, 0, 1], [0, 2, 1, 3], [1, 2, 3, 0]];
    let mut saw_another_order = false;
    for order in orders {
        let mut arrival = Vec::new();
        for i in order {
            arrival.push(parts().swap_remove(i));
        }
        let (_, mut rows) = gather(arrival);
        saw_another_order |= rows != gather(parts()).1;
        rows.sort();
        assert_eq!(rows, expected);
    }
    assert!(saw_another_order);
}
