//! The scan of one file: header detection, row filtering and projection.

use crate::db::codec::{csv_records, read_records};
use crate::seqs::{first_where, lemma_first_where, lemma_first_where_bounds};
use crate::types::error::ZenithError;
use crate::types::query::{
    CSVData, CSVDataView, DataQuery, DataQueryView, Predicate, PredicateView, Row,
};
use vstd::prelude::*;

verus! {

/// A row that can serve as a header: it has cells, and none of them is empty.
pub open spec fn is_complete(row: Row) -> bool {
    row.len() > 0 && forall|i: int| 0 <= i < row.len() ==> (#[trigger] row[i]).len() > 0
}

/// `is_complete`, as a test on one row.
pub open spec fn completeness() -> spec_fn(Row) -> bool {
    |row: Row| is_complete(row)
}

/// Index of the first complete row, or the number of rows if none is complete.
pub open spec fn header_index(rows: Seq<Row>) -> int {
    first_where(rows, completeness())
}

/// The column that a lookup of `field` reads: the last one of that name, or -1 if the
/// header has no such name.
pub open spec fn column_of(header: Row, field: Seq<char>) -> int
    decreases header.len(),
{
    if header.len() == 0 {
        -1
    } else if header.last() == field {
        header.len() - 1
    } else {
        column_of(header.drop_last(), field)
    }
}

/// `row` satisfies every predicate whose field the header names. A predicate on a
/// field that the header lacks holds of every row.
pub open spec fn passes(header: Row, row: Row, predicates: Seq<PredicateView>) -> bool {
    forall|k: int|
        0 <= k < predicates.len() && column_of(header, (#[trigger] predicates[k]).field) >= 0
            ==> predicates[k].satisfied_by(row[column_of(header, predicates[k].field)])
}

/// The requested fields that the header names, in the order of the request.
pub open spec fn present_fields(header: Row, fields: Seq<Seq<char>>) -> Seq<Seq<char>> {
    fields.filter(named_in(header))
}

/// The cells of `row` under the requested fields, in the order of the request. With
/// no field requested the row stays as it is.
pub open spec fn shaped(header: Row, row: Row, fields: Seq<Seq<char>>) -> Row {
    if fields.len() == 0 {
        row
    } else {
        present_fields(header, fields).map_values(cell_under(header, row))
    }
}

/// What one row below the header contributes: its shaped form if it is as long as the
/// header, passes the predicates and keeps at least one cell; nothing otherwise.
pub open spec fn emitted(header: Row, row: Row, query: DataQueryView) -> Option<Row> {
    if row.len() == header.len() && passes(header, row, query.predicates) && shaped(
        header,
        row,
        query.fields,
    ).len() > 0 {
        Some(shaped(header, row, query.fields))
    } else {
        None
    }
}

/// The header that a scan returns: the detected one, or of the requested fields
/// those that it names.
pub open spec fn shaped_header(header: Row, fields: Seq<Seq<char>>) -> Row {
    if fields.len() == 0 {
        header
    } else {
        present_fields(header, fields)
    }
}

/// The result of scanning `rows` under `query`. The first complete row is the header.
/// Rows above it are skipped; each row below it contributes what `emitted` says.
pub open spec fn scan(rows: Seq<Row>, query: DataQueryView) -> CSVDataView {
    let h = header_index(rows);
    if h >= rows.len() {
        CSVDataView { header: Seq::empty(), records: Seq::empty() }
    } else {
        CSVDataView {
            header: shaped_header(rows[h], query.fields),
            records: rows.skip(h + 1).filter_map(emitter(rows[h], query)),
        }
    }
}

/// `emitted` under a fixed header and query, as a function of the row.
pub open spec fn emitter(header: Row, query: DataQueryView) -> spec_fn(Row) -> Option<Row> {
    |r: Row| emitted(header, r, query)
}

/// The requested fields that the header names, as a test on one field.
pub open spec fn named_in(header: Row) -> spec_fn(Seq<char>) -> bool {
    |f: Seq<char>| column_of(header, f) >= 0
}

/// The cell of `row` under a field, as a function of the field.
pub open spec fn cell_under(header: Row, row: Row) -> spec_fn(Seq<char>) -> Seq<char> {
    |f: Seq<char>| row[column_of(header, f)]
}

/// `column_of` returns -1 or a column of that name, and -1 only if no column has it.
pub proof fn lemma_column_of(header: Row, field: Seq<char>)
    ensures
        -1 <= column_of(header, field) < header.len(),
        column_of(header, field) >= 0 ==> header[column_of(header, field)] == field,
        column_of(header, field) >= 0 <==> header.contains(field),
    decreases header.len(),
{
    if header.len() > 0 {
        lemma_column_of(header.drop_last(), field);
        if header.last() == field {
            assert(header[header.len() - 1] == field);
        } else if header.drop_last().contains(field) {
            let i = choose|i: int| 0 <= i < header.drop_last().len() && header.drop_last()[i] == field;
            assert(header[i] == field);
        } else if header.contains(field) {
            let i = choose|i: int| 0 <= i < header.len() && header[i] == field;
            assert(header.drop_last()[i] == field);
        }
    }
}

/// `header_index` is the one index that has a complete row at it and none before it.
pub proof fn lemma_header_index(rows: Seq<Row>, h: int)
    requires
        0 <= h <= rows.len(),
        forall|j: int| 0 <= j < h ==> !is_complete(#[trigger] rows[j]),
        h < rows.len() ==> is_complete(rows[h]),
    ensures
        header_index(rows) == h,
{
    lemma_first_where(rows, completeness(), h);
}

/// `header_index` lies within the rows or right after them; no row before it is
/// complete, and the row at it is.
pub proof fn lemma_header_index_bounds(rows: Seq<Row>)
    ensures
        0 <= header_index(rows) <= rows.len(),
        forall|j: int| 0 <= j < header_index(rows) ==> !is_complete(#[trigger] rows[j]),
        header_index(rows) < rows.len() ==> is_complete(rows[header_index(rows)]),
{
    lemma_first_where_bounds(rows, completeness());
}

/// The header of a scan is the first row that is complete, shaped as the query asks,
/// and the rows above it leave no trace: without them the scan gives the same result.
/// Where no row is complete the result is empty.
pub proof fn lemma_scan_starts_at_header(rows: Seq<Row>, query: DataQueryView)
    ensures
        0 <= header_index(rows) <= rows.len(),
        forall|j: int| 0 <= j < header_index(rows) ==> !is_complete(#[trigger] rows[j]),
        header_index(rows) < rows.len() ==> is_complete(rows[header_index(rows)]) && scan(
            rows,
            query,
        ).header == shaped_header(rows[header_index(rows)], query.fields),
        header_index(rows) == rows.len() ==> scan(rows, query).header.len() == 0 && scan(
            rows,
            query,
        ).records.len() == 0,
        scan(rows, query) == scan(rows.skip(header_index(rows)), query),
{
    let h = header_index(rows);
    lemma_header_index_bounds(rows);
    let rest = rows.skip(h);
    if h < rows.len() {
        assert(rest[0] == rows[h]);
        lemma_header_index(rest, 0);
        assert(rest.skip(1) == rows.skip(h + 1));
    } else {
        lemma_header_index(rest, 0);
    }
}

/// Every record of a scan has as many cells as the header that the scan returns.
pub proof fn lemma_scan_wf(rows: Seq<Row>, query: DataQueryView)
    ensures
        scan(rows, query).wf(),
{
    let h = header_index(rows);
    lemma_header_index_bounds(rows);
    if h < rows.len() {
        let body = rows.skip(h + 1);
        let out = scan(rows, query);
        assert forall|i: int| 0 <= i < out.records.len() implies (#[trigger] out.records[i]).len()
            == out.header.len() by {
            assert(out.records.contains(out.records[i]));
            body.lemma_filter_map_contains(emitter(rows[h], query), out.records[i]);
            let r = choose|r: Row| #[trigger]
                body.contains(r) && emitter(rows[h], query)(r) == Some(out.records[i]);
            assert(emitted(rows[h], r, query) == Some(out.records[i]));
        }
    }
}

/// Where `f` hands nothing on, nothing comes out of `filter_map`.
proof fn lemma_filter_map_none<A, B>(s: Seq<A>, f: spec_fn(A) -> Option<B>)
    requires
        forall|i: int| 0 <= i < s.len() ==> f(#[trigger] s[i]) is None,
    ensures
        s.filter_map(f).len() == 0,
    decreases s.len(),
{
    if s.len() > 0 {
        assert(f(s[s.len() - 1]) is None);
        lemma_filter_map_none(s.drop_last(), f);
    }
}

/// A scan that returns no header returns no records.
pub proof fn lemma_scan_headed(rows: Seq<Row>, query: DataQueryView)
    ensures
        scan(rows, query).headed(),
{
    let h = header_index(rows);
    lemma_header_index_bounds(rows);
    if h < rows.len() && scan(rows, query).header.len() == 0 {
        let body = rows.skip(h + 1);
        assert forall|i: int| 0 <= i < body.len() implies emitter(rows[h], query)(
            #[trigger] body[i],
        ) is None by {
            assert(shaped(rows[h], body[i], query.fields).len() == 0);
        }
        lemma_filter_map_none(body, emitter(rows[h], query));
    }
}

/// Whether `row` can serve as a header.
pub(crate) fn row_is_complete(row: &Vec<String>) -> (r: bool)
    ensures
        r == is_complete(row.deep_view()),
{
    if row.len() == 0 {
        return false;
    }
    let mut i: usize = 0;
    while i < row.len()
        invariant
            i <= row.len(),
            forall|j: int| 0 <= j < i ==> (#[trigger] row.deep_view()[j]).len() > 0,
        decreases row.len() - i,
    {
        if row[i].as_str().is_empty() {
            assert(row.deep_view()[i as int].len() == 0);
            return false;
        }
        i += 1;
    }
    true
}

/// The column that a lookup of `field` reads, if the header names the field.
fn find_column(header: &Vec<String>, field: &String) -> (c: Option<usize>)
    ensures
        match c {
            Some(i) => i as int == column_of(header.deep_view(), field@),
            None => column_of(header.deep_view(), field@) == -1,
        },
{
    let ghost names = header.deep_view();
    let mut i: usize = header.len();
    assert(names.take(i as int) == names);
    while i > 0
        invariant
            i <= header.len(),
            names == header.deep_view(),
            column_of(names, field@) == column_of(names.take(i as int), field@),
        decreases i,
    {
        assert(names.take(i as int).last() == header[i - 1]@);
        if header[i - 1] == *field {
            return Some(i - 1);
        }
        assert(names.take(i as int).drop_last() == names.take(i - 1));
        i -= 1;
    }
    None
}

/// Whether `row` satisfies every predicate whose field the header names.
fn row_passes(header: &Vec<String>, row: &Vec<String>, predicates: &Vec<Predicate>) -> (r: bool)
    requires
        header.len() == row.len(),
    ensures
        r == passes(header.deep_view(), row.deep_view(), predicates.deep_view()),
{
    let ghost conds = predicates.deep_view();
    let mut k: usize = 0;
    while k < predicates.len()
        invariant
            k <= predicates.len(),
            header.len() == row.len(),
            conds == predicates.deep_view(),
            passes(header.deep_view(), row.deep_view(), conds.take(k as int)),
        decreases predicates.len() - k,
    {
        assert(conds[k as int] == predicates[k as int]@);
        proof {
            lemma_column_of(header.deep_view(), conds[k as int].field);
        }
        let held = match find_column(header, predicates[k].field()) {
            Some(c) => predicates[k].satisfied_by(&row[c]),
            None => true,
        };
        if !held {
            return false;
        }
        assert forall|j: int|
            0 <= j < conds.take(k + 1).len() && column_of(
                header.deep_view(),
                (#[trigger] conds.take(k + 1)[j]).field,
            ) >= 0 implies conds.take(k + 1)[j].satisfied_by(
            row.deep_view()[column_of(header.deep_view(), conds.take(k + 1)[j].field)],
        ) by {
            if j < k {
                assert(conds.take(k as int)[j] == conds.take(k + 1)[j]);
            }
        }
        k += 1;
    }
    assert(conds.take(k as int) == conds);
    true
}

/// The cells of `row` under those of `fields` that the header names.
fn project_row(header: &Vec<String>, row: &Vec<String>, fields: &Vec<String>) -> (out: Vec<
    String,
>)
    requires
        header.len() == row.len(),
    ensures
        out.deep_view() == present_fields(header.deep_view(), fields.deep_view()).map_values(
            cell_under(header.deep_view(), row.deep_view()),
        ),
{
    let ghost names = header.deep_view();
    let ghost cells = row.deep_view();
    let ghost wanted = fields.deep_view();
    let mut out: Vec<String> = Vec::new();
    let mut i: usize = 0;
    proof {
        reveal(Seq::filter);
        assert(wanted.take(0).len() == 0);
    }
    while i < fields.len()
        invariant
            i <= fields.len(),
            header.len() == row.len(),
            names == header.deep_view(),
            cells == row.deep_view(),
            wanted == fields.deep_view(),
            out.deep_view() == wanted.take(i as int).filter(named_in(names)).map_values(
                cell_under(names, cells),
            ),
        decreases fields.len() - i,
    {
        proof {
            reveal(Seq::filter);
            lemma_column_of(names, wanted[i as int]);
            assert(wanted.take(i + 1).drop_last() == wanted.take(i as int));
            assert(wanted.take(i + 1).last() == fields[i as int]@);
        }
        let ghost before = out.deep_view();
        match find_column(header, &fields[i]) {
            Some(c) => {
                out.push(row[c].clone());
                assert(out.deep_view() == before.push(cells[c as int]));
            },
            None => {},
        }
        i += 1;
    }
    assert(wanted.take(i as int) == wanted);
    out
}

/// The fields of `header` named by the request are what a projection of the header
/// onto itself keeps.
proof fn lemma_project_header(header: Row, fields: Seq<Seq<char>>)
    ensures
        present_fields(header, fields).map_values(cell_under(header, header)) == present_fields(
            header,
            fields,
        ),
{
    let kept = present_fields(header, fields);
    assert forall|i: int| 0 <= i < kept.len() implies kept.map_values(cell_under(header, header))[i]
        == kept[i] by {
        fields.lemma_filter_pred(named_in(header), i);
        lemma_column_of(header, kept[i]);
    }
    assert(kept.map_values(cell_under(header, header)) =~= kept);
}

/// Scans rows that were read from one file: finds the header, keeps the rows below it
/// that the query keeps, and shapes them and the header as the query asks.
pub fn scan_rows(rows: Vec<Vec<String>>, query: &DataQuery) -> (data: CSVData)
    ensures
        data@ == scan(rows.deep_view(), query@),
        data@.wf(),
        data@.headed(),
{
    let ghost all = rows.deep_view();
    proof {
        lemma_scan_wf(all, query@);
        lemma_scan_headed(all, query@);
    }
    let ghost n = rows.len() as int;
    let mut header: Vec<String> = Vec::new();
    let mut records: Vec<Vec<String>> = Vec::new();
    let ghost mut h: int = 0;
    for row in it: rows
        invariant
            it.seq() == rows@,
            all == rows.deep_view(),
            n == rows.len(),
            header.len() == 0 ==> records.len() == 0 && forall|j: int|
                0 <= j < it.index() ==> !is_complete(#[trigger] all[j]),
            header.len() > 0 ==> 0 <= h < it.index() && is_complete(all[h]) && header.deep_view()
                == all[h] && (forall|j: int| 0 <= j < h ==> !is_complete(#[trigger] all[j]))
                && records.deep_view() == all.subrange(h + 1, it.index() as int).filter_map(
                emitter(all[h], query@),
            ),
    {
        let ghost i = it.index() as int;
        assert(row.deep_view() == all[i]);
        if header.len() > 0 {
            let ghost before = records.deep_view();
            proof {
                assert(all.subrange(h + 1, i + 1).drop_last() == all.subrange(h + 1, i));
                assert(all.subrange(h + 1, i + 1).last() == all[i]);
            }
            if header.len() == row.len() && row_passes(&header, &row, &query.predicates) {
                if query.fields.len() == 0 {
                    records.push(row);
                    assert(records.deep_view() == before + seq![all[i]]);
                } else {
                    let kept = project_row(&header, &row, &query.fields);
                    if kept.len() > 0 {
                        records.push(kept);
                        assert(records.deep_view() == before + seq![
                            shaped(all[h], all[i], query@.fields),
                        ]);
                    }
                }
            }
        } else if row_is_complete(&row) {
            header = row;
            proof {
                h = i;
                assert(all.subrange(h + 1, i + 1).len() == 0);
            }
        }
    }
    proof {
        if header.len() > 0 {
            lemma_header_index(all, h);
            assert(all.subrange(h + 1, n) == all.skip(h + 1));
            lemma_project_header(all[h], query@.fields);
        } else {
            lemma_header_index(all, n);
            assert(records.deep_view() =~= Seq::<Row>::empty());
            assert(header.deep_view() =~= Seq::<Seq<char>>::empty());
        }
    }
    if query.fields.len() > 0 && header.len() > 0 {
        header = project_row(&header, &header, &query.fields);
    }
    CSVData { header, records }
}

/// Reads the CSV data in `bytes` and returns its header and rows as `query` asks:
/// the header is the first row without an empty cell, rows of another length than the
/// header are left out without an error, and so are rows that fail a predicate. Only
/// data that the reader cannot decode is an error.
pub fn read_csv(bytes: &[u8], query: &DataQuery) -> (r: Result<CSVData, ZenithError>)
    ensures
        match r {
            Ok(data) => !csv_records(bytes@).1 && data@ == scan(csv_records(bytes@).0, query@)
                && data@.wf() && data@.headed(),
            Err(e) => csv_records(bytes@).1 && e is CSVError,
        },
{
    let (rows, failure) = read_records(bytes);
    match failure {
        Some(error) => Err(ZenithError::CSVError(error)),
        None => Ok(scan_rows(rows, query)),
    }
}

/// The query that keeps every row and every field.
pub open spec fn whole() -> DataQueryView {
    DataQueryView {
        fields: Seq::empty(),
        predicates: Seq::empty(),
        filename_regex_predicates: Seq::empty(),
    }
}

/// Renders `bytes` as CSV data, returning the header and the rows: the scan that
/// `read_csv` makes under a query without fields and predicates.
pub fn render(bytes: &[u8]) -> (r: Result<(Vec<String>, Vec<Vec<String>>), ZenithError>)
    ensures
        match r {
            Ok(parts) => {
                &&& !csv_records(bytes@).1
                &&& parts.0.deep_view() == scan(csv_records(bytes@).0, whole()).header
                &&& parts.1.deep_view() == scan(csv_records(bytes@).0, whole()).records
                &&& scan(csv_records(bytes@).0, whole()).wf()
            },
            Err(e) => csv_records(bytes@).1 && e is CSVError,
        },
{
    let query = DataQuery {
        fields: Vec::new(),
        predicates: Vec::new(),
        filename_regex_predicates: Vec::new(),
    };
    assert(query@ == whole()) by {
        assert(query@.fields =~= whole().fields);
        assert(query@.predicates =~= whole().predicates);
        assert(query@.filename_regex_predicates =~= whole().filename_regex_predicates);
    }
    match read_csv(bytes, &query) {
        Ok(data) => Ok((data.header, data.records)),
        Err(error) => Err(error),
    }
}

} // verus!
