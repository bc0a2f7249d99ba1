//! A selection as a whole: from the request and the files of a collection to the
//! answer.

use crate::db::codec::csv_records;
use crate::db::files::{
    compile_all, compiled_for, file_is_listed, is_listed, refusal_text, refused,
};
use crate::db::gather::{
    absorb, agree, gathered, lemma_gathered_counts_rows, lemma_gathered_wf, lemma_rows_stable,
    row_bag,
};
use crate::db::scan::{is_complete, lemma_scan_headed, lemma_scan_wf, read_csv, scan};
use crate::db::write::lemma_scan_reads_back;
use crate::seqs::first_where;
use crate::types::api::QueryPredicates;
use crate::types::error::ZenithError;
use crate::types::query::{
    malformed, malformed_text, query_of, CSVData, CSVDataView, DataQuery, DataQueryView,
    FileMetadata, Row,
};
use vstd::prelude::*;
use vstd::seq_lib::{to_multiset_contains, to_multiset_len, to_multiset_remove};

verus! {

/// A file of a collection together with what it holds.
pub struct StoredFile {
    pub metadata: FileMetadata,
    pub contents: Vec<u8>,
}

/// The result of scanning a file with these bytes, or `None` where the reader
/// refuses a record of it. Rows of another length than the header are no such case:
/// the scan drops them.
pub open spec fn scanned(bytes: Seq<u8>, query: DataQueryView) -> Option<CSVDataView> {
    if csv_records(bytes).1 {
        None
    } else {
        Some(scan(csv_records(bytes).0, query))
    }
}

/// What one file contributes to a selection: its scan, if the query reads the file
/// and the reader refuses none of its records; nothing otherwise.
pub open spec fn contribution(query: DataQueryView) -> spec_fn(StoredFile) -> Option<
    CSVDataView,
> {
    |file: StoredFile|
        if is_listed(file.metadata, query.filename_regex_predicates) {
            scanned(file.contents@, query)
        } else {
            None
        }
}

/// The answer to `query` over `files`, where the results arrive in the order of the
/// files.
pub open spec fn selected(files: Seq<StoredFile>, query: DataQueryView) -> CSVDataView {
    gathered(files.filter_map(contribution(query)))
}

/// Makes a selection on the files of a collection: builds the query, leaves out the
/// files that the filename predicates leave out, scans the others one after the
/// other and merges what the scans return. A file that cannot be scanned is left out
/// of the answer; it does not fail the selection. The selection fails only with a
/// `PredicateError`: on the first predicate string that does not follow the grammar,
/// or else on the first filename pattern that does not compile.
pub fn select(files: &Vec<StoredFile>, predicates: QueryPredicates) -> (r: Result<
    (Vec<String>, Vec<Vec<String>>),
    ZenithError,
>)
    ensures
        ({
            let texts = predicates.predicates.deep_view();
            let query = query_of(predicates.fields.deep_view(), texts);
            let patterns = query.filename_regex_predicates;
            match r {
                Ok(parts) => {
                    &&& first_where(texts, malformed()) == texts.len()
                    &&& first_where(patterns, refused()) == patterns.len()
                    &&& parts.0.deep_view() == selected(files@, query).header
                    &&& parts.1.deep_view() == selected(files@, query).records
                },
                Err(e) => {
                    &&& e matches ZenithError::PredicateError(text)
                    &&& if first_where(texts, malformed()) < texts.len() {
                        text@ == malformed_text(texts[first_where(texts, malformed())])
                    } else {
                        &&& first_where(patterns, refused()) < patterns.len()
                        &&& text@ == refusal_text(patterns[first_where(patterns, refused())].field)
                    }
                },
            }
        }),
{
    let query = match DataQuery::new(predicates.fields, predicates.predicates) {
        Ok(query) => query,
        Err(error) => {
            return Err(error);
        },
    };
    let patterns = match compile_all(&query.filename_regex_predicates) {
        Ok(patterns) => patterns,
        Err(error) => {
            return Err(error);
        },
    };
    let mut selection = CSVData { header: Vec::new(), records: Vec::new() };
    assert(selection@.header =~= Seq::empty() && selection@.records =~= Seq::empty());
    assert(files@.take(0).len() == 0);
    let mut i: usize = 0;
    while i < files.len()
        invariant
            i <= files.len(),
            compiled_for(patterns@, query@.filename_regex_predicates),
            selection@ == selected(files@.take(i as int), query@),
        decreases files.len() - i,
    {
        let ghost before = files@.take(i as int).filter_map(contribution(query@));
        proof {
            assert(files@.take(i + 1).drop_last() == files@.take(i as int));
            assert(files@.take(i + 1).last() == files@[i as int]);
        }
        if file_is_listed(&files[i].metadata, &patterns, &query.filename_regex_predicates) {
            match read_csv(files[i].contents.as_slice(), &query) {
                Ok(data) => {
                    assert((before + seq![data@]).drop_last() == before);
                    absorb(&mut selection, data);
                },
                Err(_) => {},
            }
        }
        i += 1;
    }
    assert(files@.take(i as int) == files@);
    Ok((selection.header, selection.records))
}

/// Taking one element out of a sequence takes what it contributes out of the
/// multiset of contributions.
proof fn lemma_filter_map_remove<A, B>(s: Seq<A>, f: spec_fn(A) -> Option<B>, k: int)
    requires
        0 <= k < s.len(),
    ensures
        s.filter_map(f).to_multiset() == match f(s[k]) {
            Some(b) => s.remove(k).filter_map(f).to_multiset().insert(b),
            None => s.remove(k).filter_map(f).to_multiset(),
        },
    decreases s.len(),
{
    broadcast use vstd::seq_lib::to_multiset_build;

    let front = s.drop_last();
    if k == s.len() - 1 {
        assert(s.remove(k) == front);
        assert(front.filter_map(f) + seq![f(s[k])->0] =~= front.filter_map(f).push(f(s[k])->0));
    } else {
        lemma_filter_map_remove(front, f, k);
        let rest = s.remove(k);
        assert(rest.drop_last() == front.remove(k));
        assert(rest.last() == s.last());
        assert(front[k] == s[k]);
        let kept = front.remove(k).filter_map(f);
        match f(s.last()) {
            Some(c) => {
                assert(front.filter_map(f) + seq![c] =~= front.filter_map(f).push(c));
                assert(kept + seq![c] =~= kept.push(c));
                match f(s[k]) {
                    Some(b) => {
                        assert(kept.to_multiset().insert(b).insert(c) =~= kept.to_multiset().insert(
                            c,
                        ).insert(b));
                    },
                    None => {},
                }
            },
            None => {},
        }
    }
}

/// The multiset of contributions does not depend on the order of the elements.
proof fn lemma_filter_map_permutes<A, B>(s: Seq<A>, t: Seq<A>, f: spec_fn(A) -> Option<B>)
    requires
        s.to_multiset() == t.to_multiset(),
    ensures
        s.filter_map(f).to_multiset() == t.filter_map(f).to_multiset(),
    decreases s.len(),
{
    to_multiset_len(s);
    to_multiset_len(t);
    if s.len() == 0 {
        assert(t.len() == 0);
    } else {
        let last = s.len() - 1;
        let x = s[last];
        assert(s.contains(x));
        to_multiset_contains(s, x);
        to_multiset_contains(t, x);
        let k = choose|k: int| 0 <= k < t.len() && t[k] == x;
        to_multiset_remove(s, last);
        to_multiset_remove(t, k);
        lemma_filter_map_permutes(s.remove(last), t.remove(k), f);
        lemma_filter_map_remove(s, f, last);
        lemma_filter_map_remove(t, f, k);
    }
}

/// The rows of a selection do not depend on the order in which the files are
/// scanned: two listings of the same files give the same rows, each as often, though
/// maybe in another order.
pub proof fn lemma_selected_rows_stable(
    first: Seq<StoredFile>,
    second: Seq<StoredFile>,
    query: DataQueryView,
)
    requires
        first.to_multiset() == second.to_multiset(),
    ensures
        selected(first, query).records.to_multiset() == selected(
            second,
            query,
        ).records.to_multiset(),
{
    lemma_filter_map_permutes(first, second, contribution(query));
    lemma_rows_stable(
        first.filter_map(contribution(query)),
        second.filter_map(contribution(query)),
    );
}

/// Select after insert. Where the collection holds a file that the query reads, and
/// that file is read as a header without an empty cell and, below it, rows of the
/// header's length, a selection without fields and without predicates on rows
/// returns each of those rows as often as the file holds it, at the least. Such a file
/// is what an insert stores, as far as reading CSV gives back what was written.
pub proof fn lemma_selected_after_insert(
    files: Seq<StoredFile>,
    k: int,
    header: Row,
    rows: Seq<Row>,
    query: DataQueryView,
)
    requires
        0 <= k < files.len(),
        is_listed(files[k].metadata, query.filename_regex_predicates),
        csv_records(files[k].contents@) == (seq![header] + rows, false),
        is_complete(header),
        forall|i: int| 0 <= i < rows.len() ==> (#[trigger] rows[i]).len() == header.len(),
        query.fields.len() == 0,
        query.predicates.len() == 0,
    ensures
        forall|r: Row|
            rows.to_multiset().count(r) <= #[trigger] selected(
                files,
                query,
            ).records.to_multiset().count(r),
{
    broadcast use vstd::multiset::group_multiset_axioms;

    let f = contribution(query);
    let parts = files.filter_map(f);
    let part = scan(seq![header] + rows, query);
    assert(f(files[k]) == Some(part));
    lemma_scan_reads_back(header, rows, query);
    lemma_filter_map_remove(files, f, k);
    assert(parts.to_multiset().count(part) > 0);
    to_multiset_contains(parts, part);
    let m = choose|m: int| 0 <= m < parts.len() && parts[m] == part;
    lemma_gathered_counts_rows(parts, m);
    assert forall|r: Row|
        rows.to_multiset().count(r) <= #[trigger] selected(files, query).records.to_multiset().count(
            r,
        ) by {
        assert(rows.to_multiset().count(r) <= row_bag(parts).count(r));
    }
}

/// The files that contribute a header to a selection agree on its length.
pub open spec fn headers_agree(files: Seq<StoredFile>, query: DataQueryView) -> bool {
    forall|i: int, j: int|
        0 <= i < files.len() && 0 <= j < files.len() ==> match (
            contribution(query)(#[trigger] files[i]),
            contribution(query)(#[trigger] files[j]),
        ) {
            (Some(a), Some(b)) => a.header.len() > 0 && b.header.len() > 0 ==> a.header.len()
                == b.header.len(),
            _ => true,
        }
}

/// Where the files that contribute a header agree on its length, every row of a
/// selection has as many cells as the header of the selection. A row of another length
/// than the header of its own file is in no selection.
pub proof fn lemma_selected_wf(files: Seq<StoredFile>, query: DataQueryView)
    requires
        headers_agree(files, query),
    ensures
        selected(files, query).wf(),
        selected(files, query).headed(),
{
    let f = contribution(query);
    let parts = files.filter_map(f);
    assert forall|i: int| 0 <= i < parts.len() implies (#[trigger] parts[i]).wf()
        && parts[i].headed() by {
        lemma_part_of_file(files, query, i);
        let x = choose|x: int| 0 <= x < files.len() && f(files[x]) == Some(parts[i]);
        lemma_scan_wf(csv_records(files[x].contents@).0, query);
        lemma_scan_headed(csv_records(files[x].contents@).0, query);
    }
    assert(agree(parts)) by {
        assert forall|i: int, j: int|
            0 <= i < parts.len() && 0 <= j < parts.len() && (#[trigger] parts[i]).header.len() > 0
                && (#[trigger] parts[j]).header.len() > 0 implies parts[i].header.len()
            == parts[j].header.len() by {
            lemma_part_of_file(files, query, i);
            lemma_part_of_file(files, query, j);
            let x = choose|x: int| 0 <= x < files.len() && f(files[x]) == Some(parts[i]);
            let y = choose|y: int| 0 <= y < files.len() && f(files[y]) == Some(parts[j]);
            assert(f(files[x]) == Some(parts[i]) && f(files[y]) == Some(parts[j]));
        }
    }
    lemma_gathered_wf(parts);
}

/// Every result of a selection is what one of the files contributes.
proof fn lemma_part_of_file(files: Seq<StoredFile>, query: DataQueryView, i: int)
    requires
        0 <= i < files.filter_map(contribution(query)).len(),
    ensures
        exists|x: int|
            0 <= x < files.len() && contribution(query)(#[trigger] files[x]) == Some(
                files.filter_map(contribution(query))[i],
            ),
{
    let f = contribution(query);
    let parts = files.filter_map(f);
    assert(parts.contains(parts[i]));
    files.lemma_filter_map_contains(f, parts[i]);
    let t = choose|t: StoredFile| #[trigger] files.contains(t) && f(t) == Some(parts[i]);
    let x = choose|x: int| 0 <= x < files.len() && files[x] == t;
    assert(f(files[x]) == Some(parts[i]));
}

/// A selection without predicates cannot fail: no string is malformed and no pattern
/// is refused where there is none, and the query reads every file that has a name and
/// is not empty.
pub proof fn lemma_select_without_predicates(fields: Seq<Seq<char>>, file: FileMetadata)
    ensures
        first_where(Seq::<Seq<char>>::empty(), malformed()) == 0,
        query_of(fields, Seq::empty()).predicates.len() == 0,
        query_of(fields, Seq::empty()).filename_regex_predicates.len() == 0,
        first_where(query_of(fields, Seq::empty()).filename_regex_predicates, refused()) == 0,
        is_listed(file, query_of(fields, Seq::empty()).filename_regex_predicates) <==> (
        file.filename@.len() > 0 && file.size > 0),
{
}

} // verus!
