//! The bodies and parameters of requests, the body of an answer, and the paging of
//! rows.

use crate::types::query::Row;
use vstd::prelude::*;

verus! {

/// A request to create a file, as a mathematical value.
pub struct CreatePayloadView {
    pub filename: Seq<char>,
    pub header: Row,
    pub rows: Seq<Row>,
}

/// A request to create a file named `filename` with a header and rows.
pub struct CreatePayload {
    pub filename: String,
    pub header: Vec<String>,
    pub rows: Vec<Vec<String>>,
}

impl View for CreatePayload {
    type V = CreatePayloadView;

    open spec fn view(&self) -> CreatePayloadView {
        CreatePayloadView {
            filename: self.filename@,
            header: self.header.deep_view(),
            rows: self.rows.deep_view(),
        }
    }
}

/// Which page of the rows a query asks for, and how long a page is. What is left out
/// falls back to the configured default.
pub struct QueryParameters {
    pub page: Option<usize>,
    pub per_page: Option<usize>,
}

/// The fields and the predicates of a query, the predicates as text.
pub struct QueryPredicates {
    pub fields: Vec<String>,
    pub predicates: Vec<String>,
}

/// The answer to a query.
pub struct QueryResponse {
    pub header: Vec<String>,
    pub rows: Vec<Vec<String>>,
}

/// Page number `page` of `rows`, where a page holds `per_page` rows and at least one:
/// the rows from `page * size` up to the next page or to the end, none if the rows end
/// before the page begins.
pub open spec fn page_of(rows: Seq<Row>, page: int, per_page: int) -> Seq<Row> {
    let size = if per_page < 1 {
        1
    } else {
        per_page
    };
    if page * size >= rows.len() {
        Seq::empty()
    } else if page * size + size >= rows.len() {
        rows.subrange(page * size, rows.len() as int)
    } else {
        rows.subrange(page * size, page * size + size)
    }
}

impl QueryParameters {
    /// The page that the parameters ask for.
    pub open spec fn page_or(self, default_page: usize) -> int {
        match self.page {
            Some(page) => page as int,
            None => default_page as int,
        }
    }

    /// The length of a page that the parameters ask for.
    pub open spec fn per_page_or(self, default_page_size: usize) -> int {
        match self.per_page {
            Some(per_page) => per_page as int,
            None => default_page_size as int,
        }
    }
}

/// The page of `rows` that `parameters` ask for, with the defaults for what they leave
/// out.
pub fn paginate(
    rows: Vec<Vec<String>>,
    parameters: &QueryParameters,
    default_page: usize,
    default_page_size: usize,
) -> (paged: Vec<Vec<String>>)
    ensures
        paged.deep_view() == page_of(
            rows.deep_view(),
            parameters.page_or(default_page),
            parameters.per_page_or(default_page_size),
        ),
{
    let page: usize = match parameters.page {
        Some(page) => page,
        None => default_page,
    };
    let per_page: usize = match parameters.per_page {
        Some(per_page) => per_page,
        None => default_page_size,
    };
    let size: usize = if per_page < 1 {
        1
    } else {
        per_page
    };
    let ghost all = rows.deep_view();
    let total: usize = rows.len();
    let mut rows = rows;
    let start: usize = match page.checked_mul(size) {
        Some(start) => start,
        None => {
            return Vec::new();
        },
    };
    if start >= total {
        return Vec::new();
    }
    let end: usize = if size >= total - start {
        total
    } else {
        start + size
    };
    rows.truncate(end);
    let paged = rows.split_off(start);
    assert(paged.deep_view() =~= all.subrange(start as int, end as int));
    paged
}

} // verus!
