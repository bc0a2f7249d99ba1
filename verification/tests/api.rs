use zenithds::types::api::{paginate, QueryParameters, QueryPredicates, QueryResponse};

fn rows(n: usize) -> Vec<Vec<String>> {
    (0..n).map(|i| vec![i.to_string()]).collect()
}

fn page(n: usize, page: Option<usize>, per_page: Option<usize>) -> Vec<String> {
    let parameters = QueryParameters { page, per_page };
    paginate(rows(n), &parameters, 0, 10).into_iter().map(|mut r| r.remove(0)).collect()
}

#[test]
fn page_is_a_window_of_the_rows() {
    assert_eq!(page(7, Some(0), Some(3)), ["0", "1", "2"]);
    assert_eq!(page(7, Some(1), Some(3)), ["3", "4", "5"]);
    assert_eq!(page(7, Some(2), Some(3)), ["6"]);
    assert_eq!(page(6, Some(1), Some(3)), ["3", "4", "5"]);
    assert_eq!(page(3, Some(0), Some(usize::MAX)), ["0", "1", "2"]);
}

#[test]
fn page_behind_the_rows_is_empty() {
    assert!(page(7, Some(3), Some(3)).is_empty());
    assert!(page(6, Some(2), Some(3)).is_empty());
    assert!(page(0, Some(0), Some(3)).is_empty());
    assert!(page(7, Some(usize::MAX), Some(3)).is_empty());
    assert!(page(7, Some(usize::MAX), Some(usize::MAX)).is_empty());
    assert!(page(7, Some(1), Some(usize::MAX)).is_empty());
}

#[test]
fn page_holds_one_row_at_least() {
    assert_eq!(page(3, Some(0), Some(0)), ["0"]);
    assert_eq!(page(3, Some(2), Some(0)), ["2"]);
    assert!(page(3, Some(3), Some(0)).is_empty());
}

#[test]
fn parameters_that_are_left_out_fall_back_to_the_defaults() {
    assert_eq!(page(25, None, None).len(), 10);
    assert_eq!(page(25, Some(2), None), ["20", "21", "22", "23", "24"]);
    assert_eq!(page(25, None, Some(2)), ["0", "1"]);
    let parameters = QueryParameters { page: None, per_page: None };
    let paged = paginate(rows(25), &parameters, 3, 4);
    assert_eq!(paged, vec![vec!["12"], vec!["13"], vec!["14"], vec!["15"]]);
    let parameters = QueryParameters { page: Some(1), per_page: Some(5) };
    assert_eq!(paginate(rows(25), &parameters, 3, 4).len(), 5);
}

#[test]
fn bodies_hold_their_fields() {
    let predicates =
        QueryPredicates { fields: vec![String::from("a")], predicates: vec![String::from("a == 1")] };
    assert_eq!(predicates.fields, ["a"]);
    assert_eq!(predicates.predicates, ["a == 1"]);
    let response = QueryResponse { header: vec![String::from("a")], rows: rows(1) };
    assert_eq!(response.header, ["a"]);
    assert_eq!(response.rows, vec![vec!["0"]]);
}
