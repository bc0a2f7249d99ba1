//! The write path: what a new file must satisfy, and the bytes that are stored for it.

use crate::db::codec::{csv_bytes, csv_records, read_records, write_records};
use crate::db::gather::{
    gathered, lemma_gathered_counts_rows, lemma_gathered_keeps_rows, row_bag,
};
use crate::db::scan::{
    emitter, header_index, is_complete, lemma_header_index, row_is_complete, scan, whole,
};
use crate::seqs::{first_where, lemma_first_where};
use crate::text::{debug_list, decimal, decimal_string, list_debug, prefixed};
use crate::types::api::{CreatePayload, CreatePayloadView};
use crate::types::error::ZenithError;
use crate::types::query::{CSVDataView, DataQueryView, Row};
use vstd::prelude::*;
use vstd::string::StringExecFns;

verus! {

/// How many files of a collection a new header is held against.
pub const HEADER_SAMPLES: usize = 3;

/// The header that a file of the collection shows: its first complete row. A file
/// of which the reader refuses a record before any complete row shows none; a file
/// without a complete row shows the empty header.
pub open spec fn sample_header(bytes: Seq<u8>) -> Option<Row> {
    let rows = csv_records(bytes).0;
    if header_index(rows) < rows.len() {
        Some(rows[header_index(rows)])
    } else if csv_records(bytes).1 {
        None
    } else {
        Some(Seq::empty())
    }
}

/// Whether a sampled file shows another header than `header`, as a test on the file.
pub open spec fn disagrees(header: Row) -> spec_fn(Seq<u8>) -> bool {
    |bytes: Seq<u8>| sample_header(bytes) != Some(header)
}

/// The samples that are looked at: the first `HEADER_SAMPLES` of them.
pub open spec fn sampled(samples: Seq<Seq<u8>>) -> Seq<Seq<u8>> {
    if samples.len() <= HEADER_SAMPLES {
        samples
    } else {
        samples.take(HEADER_SAMPLES as int)
    }
}

/// The message for a header that a sampled file contradicts.
pub open spec fn mismatch_text(collection: Seq<char>, header: Row) -> Seq<char> {
    "Header "@ + list_debug(header) + " does not match header in collection '"@ + collection
        + "'"@
}

/// The bytes of the samples.
pub open spec fn contents(samples: Seq<Vec<u8>>) -> Seq<Seq<u8>> {
    samples.map_values(|sample: Vec<u8>| sample@)
}

/// Whether two rows hold the same cells.
fn same_row(a: &Vec<String>, b: &Vec<String>) -> (r: bool)
    ensures
        r == (a.deep_view() == b.deep_view()),
{
    if a.len() != b.len() {
        assert(a.deep_view().len() != b.deep_view().len());
        return false;
    }
    let mut i: usize = 0;
    while i < a.len()
        invariant
            i <= a.len(),
            a.len() == b.len(),
            forall|j: int| 0 <= j < i ==> a.deep_view()[j] == b.deep_view()[j],
        decreases a.len() - i,
    {
        if !(a[i] == b[i]) {
            assert(a.deep_view()[i as int] != b.deep_view()[i as int]);
            return false;
        }
        i += 1;
    }
    assert(a.deep_view() =~= b.deep_view());
    true
}

/// Whether the file in `bytes` shows `header`; the reader's error where it refuses a
/// record before the file shows any header.
fn shows_header(bytes: &[u8], header: &Vec<String>) -> (r: Result<bool, csv::Error>)
    ensures
        match r {
            Ok(same) => sample_header(bytes@) is Some && same == (sample_header(bytes@) == Some(
                header.deep_view(),
            )),
            Err(_) => sample_header(bytes@) is None,
        },
{
    let (rows, failure) = read_records(bytes);
    let ghost all = rows.deep_view();
    let mut i: usize = 0;
    while i < rows.len()
        invariant
            i <= rows.len(),
            all == rows.deep_view(),
            all == csv_records(bytes@).0,
            forall|j: int| 0 <= j < i ==> !is_complete(#[trigger] all[j]),
        decreases rows.len() - i,
    {
        assert(all[i as int] == rows[i as int].deep_view());
        if row_is_complete(&rows[i]) {
            proof {
                lemma_header_index(all, i as int);
            }
            return Ok(same_row(&rows[i], header));
        }
        i += 1;
    }
    proof {
        lemma_header_index(all, i as int);
    }
    match failure {
        Some(error) => Err(error),
        None => {
            let none: Vec<String> = Vec::new();
            assert(none.deep_view() =~= Seq::<Seq<char>>::empty());
            Ok(same_row(&none, header))
        },
    }
}

/// Holds `header` against files that are already in the collection, the first
/// `HEADER_SAMPLES` of `samples` in their order. The first file that shows another
/// header, compared cell by cell and in order, decides: the header is refused with a
/// `QueryError`, or with a `CSVError` where the reader refuses a record of that file
/// before it shows a header.
pub fn satisfies_collection_header(
    collection: &str,
    header: &Vec<String>,
    samples: &Vec<Vec<u8>>,
) -> (r: Result<(), ZenithError>)
    ensures
        match r {
            Ok(_) => first_where(sampled(contents(samples@)), disagrees(header.deep_view()))
                == sampled(contents(samples@)).len(),
            Err(e) => {
                let i = first_where(sampled(contents(samples@)), disagrees(header.deep_view()));
                &&& i < sampled(contents(samples@)).len()
                &&& match sample_header(sampled(contents(samples@))[i]) {
                    Some(_) => e matches ZenithError::QueryError(text) && text@ == mismatch_text(
                        collection@,
                        header.deep_view(),
                    ),
                    None => e is CSVError,
                }
            },
        },
{
    let ghost looked = sampled(contents(samples@));
    let limit: usize = if samples.len() <= HEADER_SAMPLES {
        samples.len()
    } else {
        HEADER_SAMPLES
    };
    let mut i: usize = 0;
    while i < limit
        invariant
            i <= limit,
            limit == looked.len(),
            limit <= samples.len(),
            looked == sampled(contents(samples@)),
            forall|j: int| 0 <= j < i ==> !disagrees(header.deep_view())(#[trigger] looked[j]),
        decreases limit - i,
    {
        assert(looked[i as int] == samples@[i as int]@);
        match shows_header(samples[i].as_slice(), header) {
            Ok(true) => {},
            Ok(false) => {
                proof {
                    lemma_first_where(looked, disagrees(header.deep_view()), i as int);
                }
                let mut text = prefixed("Header ", debug_list(header).as_str());
                text.append(" does not match header in collection '");
                text.append(collection);
                text.append("'");
                return Err(ZenithError::QueryError(text));
            },
            Err(error) => {
                proof {
                    lemma_first_where(looked, disagrees(header.deep_view()), i as int);
                }
                return Err(ZenithError::CSVError(error));
            },
        }
        i += 1;
    }
    proof {
        lemma_first_where(looked, disagrees(header.deep_view()), i as int);
    }
    Ok(())
}

/// Whether some row of the payload has another length than its header.
pub open spec fn is_ragged(payload: CreatePayloadView) -> bool {
    exists|i: int|
        0 <= i < payload.rows.len() && (#[trigger] payload.rows[i]).len() != payload.header.len()
}

/// What is wrong with a request to create a file, if anything, before storage is
/// looked at: the collection, the filename or the header is empty, or a row has
/// another length than the header.
pub open spec fn payload_fault(collection: Seq<char>, payload: CreatePayloadView) -> Option<
    Seq<char>,
> {
    if collection.len() == 0 || payload.filename.len() == 0 || payload.header.len() == 0 {
        Some("Payload collection, filename, or header is empty"@)
    } else if is_ragged(payload) {
        Some(
            "The length of a row does not match header of length "@ + decimal(
                payload.header.len(),
            ),
        )
    } else {
        None
    }
}

/// Checks a request to create a file as far as it can be checked without storage.
pub fn check_payload(collection: &str, payload: &CreatePayload) -> (r: Result<(), ZenithError>)
    ensures
        match payload_fault(collection@, payload@) {
            Some(fault) => r matches Err(ZenithError::QueryError(text)) && text@ == fault,
            None => r is Ok,
        },
{
    if collection.is_empty() || payload.filename.as_str().is_empty() || payload.header.len() == 0 {
        return Err(
            ZenithError::QueryError(
                String::from_str("Payload collection, filename, or header is empty"),
            ),
        );
    }
    let ghost rows = payload@.rows;
    let mut i: usize = 0;
    while i < payload.rows.len()
        invariant
            i <= payload.rows.len(),
            rows == payload@.rows,
            collection@.len() > 0,
            payload@.filename.len() > 0,
            payload.header.len() > 0,
            forall|j: int| 0 <= j < i ==> (#[trigger] rows[j]).len() == payload.header.len(),
        decreases payload.rows.len() - i,
    {
        assert(rows[i as int] == payload.rows[i as int].deep_view());
        if payload.rows[i].len() != payload.header.len() {
            assert(payload@.rows[i as int].len() != payload@.header.len());
            return Err(
                ZenithError::QueryError(
                    prefixed(
                        "The length of a row does not match header of length ",
                        decimal_string(payload.header.len()).as_str(),
                    ),
                ),
            );
        }
        i += 1;
    }
    Ok(())
}

/// Inserts a file into `collection`: checks the request, holds its header against
/// `samples`, the contents of files that the collection already has, and returns the
/// bytes to store under the payload's filename, the header first and the rows after
/// it. The request is refused with a `QueryError` where it is malformed or where a
/// sampled file shows another header.
pub fn insert(collection: &str, payload: CreatePayload, samples: &Vec<Vec<u8>>) -> (r: Result<
    Vec<u8>,
    ZenithError,
>)
    ensures
        match payload_fault(collection@, payload@) {
            Some(fault) => r matches Err(ZenithError::QueryError(text)) && text@ == fault,
            None => {
                let looked = sampled(contents(samples@));
                let i = first_where(looked, disagrees(payload@.header));
                if i < looked.len() {
                    match sample_header(looked[i]) {
                        Some(_) => r matches Err(ZenithError::QueryError(text)) && text@
                            == mismatch_text(collection@, payload@.header),
                        None => r matches Err(e) && e is CSVError,
                    }
                } else {
                    match csv_bytes(seq![payload@.header] + payload@.rows) {
                        Some(bytes) => r matches Ok(stored) && stored@ == bytes,
                        None => r matches Err(e) && e is CSVError,
                    }
                }
            },
        },
{
    match check_payload(collection, &payload) {
        Err(error) => {
            return Err(error);
        },
        Ok(_) => {},
    }
    match satisfies_collection_header(collection, &payload.header, samples) {
        Err(error) => {
            return Err(error);
        },
        Ok(_) => {},
    }
    let ghost header = payload@.header;
    let ghost rows = payload@.rows;
    let mut payload = payload;
    let mut records: Vec<Vec<String>> = Vec::new();
    records.push(payload.header);
    records.append(&mut payload.rows);
    assert(records.deep_view() =~= seq![header] + rows);
    match write_records(&records) {
        Ok(bytes) => Ok(bytes),
        Err(error) => Err(ZenithError::CSVError(error)),
    }
}

/// Checks a request to delete `filename` from `collection`: both must be named. Where
/// this returns `Ok`, the file is to be removed from storage.
pub fn delete(collection: &str, filename: &str) -> (r: Result<(), ZenithError>)
    ensures
        match r {
            Ok(_) => collection@.len() > 0 && filename@.len() > 0,
            Err(e) => {
                &&& collection@.len() == 0 || filename@.len() == 0
                &&& e matches ZenithError::QueryError(text)
                &&& text@ == "The filename or collection is empty"@
            },
        },
{
    if filename.is_empty() || collection.is_empty() {
        return Err(
            ZenithError::QueryError(String::from_str("The filename or collection is empty")),
        );
    }
    Ok(())
}

/// Rows that `f` hands on unchanged all come out of `filter_map`.
proof fn lemma_filter_map_keeps<A>(s: Seq<A>, f: spec_fn(A) -> Option<A>)
    requires
        forall|i: int| 0 <= i < s.len() ==> f(#[trigger] s[i]) == Some(s[i]),
    ensures
        s.filter_map(f) == s,
    decreases s.len(),
{
    if s.len() > 0 {
        assert(f(s[s.len() - 1]) == Some(s.last()));
        lemma_filter_map_keeps(s.drop_last(), f);
        assert(s.drop_last() + seq![s.last()] =~= s);
    }
}

/// A file that holds a header without an empty cell, and below it rows of the
/// header's length, gives back that header and those rows when it is scanned under
/// a query without fields and without predicates on rows.
pub proof fn lemma_scan_reads_back(header: Row, rows: Seq<Row>, query: DataQueryView)
    requires
        is_complete(header),
        forall|i: int| 0 <= i < rows.len() ==> (#[trigger] rows[i]).len() == header.len(),
        query.fields.len() == 0,
        query.predicates.len() == 0,
    ensures
        scan(seq![header] + rows, query).header == header,
        scan(seq![header] + rows, query).records == rows,
{
    let all = seq![header] + rows;
    assert(all[0] == header);
    lemma_header_index(all, 0);
    assert(all.skip(1) =~= rows);
    lemma_filter_map_keeps(rows, emitter(header, query));
}

/// A query without predicates returns every row of a file that was just inserted, and
/// each as often as it was inserted, at the least: where one of the results that are
/// gathered is the scan of a file with a header without an empty cell and rows of the
/// header's length, the gathered rows hold each of those rows as often as the file
/// does. The scan is that of the rows as they are read; that the bytes stored for the
/// file are read as the rows that were written is the CSV format's part.
pub proof fn lemma_select_after_insert(
    header: Row,
    rows: Seq<Row>,
    parts: Seq<CSVDataView>,
    k: int,
)
    requires
        is_complete(header),
        forall|i: int| 0 <= i < rows.len() ==> (#[trigger] rows[i]).len() == header.len(),
        0 <= k < parts.len(),
        parts[k] == scan(seq![header] + rows, whole()),
    ensures
        forall|r: Row| rows.to_multiset().count(r) <= #[trigger] row_bag(parts).count(r),
        forall|j: int| 0 <= j < rows.len() ==> gathered(parts).records.contains(#[trigger] rows[j]),
{
    lemma_scan_reads_back(header, rows, whole());
    lemma_gathered_counts_rows(parts, k);
    assert forall|j: int| 0 <= j < rows.len() implies gathered(parts).records.contains(
        #[trigger] rows[j],
    ) by {
        lemma_gathered_keeps_rows(parts, k, j);
    }
}

} // verus!
