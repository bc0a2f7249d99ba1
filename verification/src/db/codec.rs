//! The CSV format itself, which the `csv` crate reads and writes.

use vstd::prelude::*;

verus! {

/// What the `csv` crate's reader makes of `bytes` when no row is set apart as a
/// header and records may differ in their number of fields: the records that it reads
/// before the first one that it refuses, each as the text of its fields, and whether
/// it refused one. A record of another length than those before it is read like any
/// other; a record that is no valid UTF-8 is refused.
pub uninterp spec fn csv_records(bytes: Seq<u8>) -> (Seq<Seq<Seq<char>>>, bool);

/// Runs `csv::Reader::records` over `bytes`, with a reader that
/// `csv::ReaderBuilder::has_headers(false)` and `csv::ReaderBuilder::flexible(true)`
/// configured, up to the first error. The records read so far come back with that
/// error, if there was one. The contract says only that the outcome is the one that
/// `csv_records` names.
#[verifier::external_body]
pub(crate) fn read_records(bytes: &[u8]) -> (r: (Vec<Vec<String>>, Option<csv::Error>))
    ensures
        r.0.deep_view() == csv_records(bytes@).0,
        r.1 is Some == csv_records(bytes@).1,
{
    let mut reader =
        csv::ReaderBuilder::new().has_headers(false).flexible(true).from_reader(bytes);
    let mut rows: Vec<Vec<String>> = Vec::new();
    for result in reader.records() {
        match result {
            Ok(record) => rows.push(record.iter().map(String::from).collect()),
            Err(error) => return (rows, Some(error)),
        }
    }
    (rows, None)
}

/// What the `csv` crate's writer makes of `records`, written one after the other with
/// its default settings, or `None` where the writer refuses one of them.
pub uninterp spec fn csv_bytes(records: Seq<Seq<Seq<char>>>) -> Option<Seq<u8>>;

/// Hands each of `records` to `csv::Writer::write_record`, on a writer that
/// `csv::WriterBuilder::new` configured and that fills a buffer in memory, and takes
/// the buffer back with `csv::Writer::into_inner`. The contract says only that the
/// outcome is the one that `csv_bytes` names.
#[verifier::external_body]
pub(crate) fn write_records(records: &Vec<Vec<String>>) -> (r: Result<Vec<u8>, csv::Error>)
    ensures
        match r {
            Ok(bytes) => csv_bytes(records.deep_view()) == Some(bytes@),
            Err(_) => csv_bytes(records.deep_view()) is None,
        },
{
    let mut writer = csv::WriterBuilder::new().from_writer(Vec::new());
    for record in records {
        writer.write_record(record)?;
    }
    writer.into_inner().map_err(|error| csv::Error::from(error.into_error()))
}

} // verus!
