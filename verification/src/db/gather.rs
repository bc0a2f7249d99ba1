//! The merge of the results that the workers send back.

use crate::types::query::{CSVData, CSVDataView, Row};
use vstd::multiset::Multiset;
use vstd::prelude::*;
use vstd::seq_lib::{
    lemma_multiset_commutative, to_multiset_contains, to_multiset_len, to_multiset_remove,
};

verus! {

/// The aggregate after one more result has arrived: the header stays once it is
/// set, and the new records go behind those already there.
pub open spec fn absorbed(acc: CSVDataView, part: CSVDataView) -> CSVDataView {
    CSVDataView {
        header: if acc.header.len() == 0 {
            part.header
        } else {
            acc.header
        },
        records: acc.records + part.records,
    }
}

/// The aggregate of `parts`, taken in the order of their arrival.
pub open spec fn gathered(parts: Seq<CSVDataView>) -> CSVDataView
    decreases parts.len(),
{
    if parts.len() == 0 {
        CSVDataView { header: Seq::empty(), records: Seq::empty() }
    } else {
        absorbed(gathered(parts.drop_last()), parts.last())
    }
}

/// Folds one result into the aggregate.
pub fn absorb(acc: &mut CSVData, received: CSVData)
    ensures
        final(acc)@ == absorbed(old(acc)@, received@),
{
    let mut received = received;
    let ghost before = acc.records.deep_view();
    let ghost added = received.records.deep_view();
    if acc.header.len() == 0 {
        acc.header = received.header;
    }
    acc.records.append(&mut received.records);
    assert(acc.records.deep_view() =~= before + added);
}

/// Merges the results of the scans in the order in which they arrived: the header is
/// the first one that is not empty, the rows are all rows.
pub fn gather(parts: Vec<CSVData>) -> (r: (Vec<String>, Vec<Vec<String>>))
    ensures
        r.0.deep_view() == gathered(parts.deep_view()).header,
        r.1.deep_view() == gathered(parts.deep_view()).records,
{
    let ghost all = parts.deep_view();
    let mut acc = CSVData { header: Vec::new(), records: Vec::new() };
    assert(acc@.header =~= Seq::empty() && acc@.records =~= Seq::empty());
    for part in it: parts
        invariant
            it.seq() == parts@,
            all == parts.deep_view(),
            acc@ == gathered(all.take(it.index() as int)),
    {
        let ghost i = it.index() as int;
        assert(all.take(i + 1).drop_last() == all.take(i));
        assert(all.take(i + 1).last() == part@);
        absorb(&mut acc, part);
    }
    assert(all.take(parts.len() as int) == all);
    (acc.header, acc.records)
}

/// The header of the aggregate is the header of the first result that has one.
pub proof fn lemma_gathered_header(parts: Seq<CSVDataView>, i: int)
    requires
        0 <= i < parts.len(),
        parts[i].header.len() > 0,
        forall|j: int| 0 <= j < i ==> (#[trigger] parts[j]).header.len() == 0,
    ensures
        gathered(parts).header == parts[i].header,
    decreases parts.len(),
{
    if i < parts.len() - 1 {
        lemma_gathered_header(parts.drop_last(), i);
    } else {
        lemma_gathered_no_header(parts.drop_last());
    }
}

/// Results without a header leave the aggregate without one.
pub proof fn lemma_gathered_no_header(parts: Seq<CSVDataView>)
    requires
        forall|j: int| 0 <= j < parts.len() ==> (#[trigger] parts[j]).header.len() == 0,
    ensures
        gathered(parts).header.len() == 0,
    decreases parts.len(),
{
    if parts.len() > 0 {
        lemma_gathered_no_header(parts.drop_last());
    }
}

/// The aggregate holds every row of every result.
pub proof fn lemma_gathered_keeps_rows(parts: Seq<CSVDataView>, k: int, j: int)
    requires
        0 <= k < parts.len(),
        0 <= j < parts[k].records.len(),
    ensures
        gathered(parts).records.contains(parts[k].records[j]),
    decreases parts.len(),
{
    let front = gathered(parts.drop_last()).records;
    let out = gathered(parts).records;
    if k == parts.len() - 1 {
        assert(out[front.len() + j] == parts[k].records[j]);
    } else {
        lemma_gathered_keeps_rows(parts.drop_last(), k, j);
        let at = choose|at: int| 0 <= at < front.len() && front[at] == parts[k].records[j];
        assert(out[at] == parts[k].records[j]);
    }
}

/// The rows of the aggregate, as a multiset.
pub open spec fn row_bag(parts: Seq<CSVDataView>) -> Multiset<Row> {
    gathered(parts).records.to_multiset()
}

/// Taking one result out of the sequence takes its rows out of the multiset.
proof fn lemma_row_bag_remove(parts: Seq<CSVDataView>, i: int)
    requires
        0 <= i < parts.len(),
    ensures
        row_bag(parts) == row_bag(parts.remove(i)).add(parts[i].records.to_multiset()),
    decreases parts.len(),
{
    let front = parts.drop_last();
    lemma_multiset_commutative(gathered(front).records, parts.last().records);
    if i == parts.len() - 1 {
        assert(parts.remove(i) == front);
    } else {
        lemma_row_bag_remove(front, i);
        let rest = parts.remove(i);
        assert(rest.drop_last() == front.remove(i));
        assert(rest.last() == parts.last());
        lemma_multiset_commutative(gathered(rest.drop_last()).records, rest.last().records);
        assert(row_bag(parts) =~= row_bag(rest).add(parts[i].records.to_multiset()));
    }
}

/// The aggregate holds every row of every result as often as that result holds it, at
/// the least.
pub proof fn lemma_gathered_counts_rows(parts: Seq<CSVDataView>, k: int)
    requires
        0 <= k < parts.len(),
    ensures
        forall|r: Row| parts[k].records.to_multiset().count(r) <= #[trigger] row_bag(parts).count(r),
{
    broadcast use vstd::multiset::group_multiset_axioms;

    lemma_row_bag_remove(parts, k);
}

/// The order in which results arrive does not change the multiset of rows: two
/// arrivals of the same results give the same rows, each as often.
pub proof fn lemma_rows_stable(first: Seq<CSVDataView>, second: Seq<CSVDataView>)
    requires
        first.to_multiset() == second.to_multiset(),
    ensures
        row_bag(first) == row_bag(second),
    decreases first.len(),
{
    to_multiset_len(first);
    to_multiset_len(second);
    if first.len() == 0 {
        assert(second.len() == 0);
        assert(gathered(first).records =~= gathered(second).records);
    } else {
        let x = first.last();
        let i = first.len() - 1;
        assert(first.contains(x)) by {
            assert(first[i] == x);
        }
        to_multiset_contains(first, x);
        to_multiset_contains(second, x);
        assert(second.contains(x));
        let k = choose|k: int| 0 <= k < second.len() && second[k] == x;
        to_multiset_remove(first, i);
        to_multiset_remove(second, k);
        lemma_rows_stable(first.remove(i), second.remove(k));
        lemma_row_bag_remove(first, i);
        lemma_row_bag_remove(second, k);
    }
}

/// The results that have a header agree on its length.
pub open spec fn agree(parts: Seq<CSVDataView>) -> bool {
    forall|i: int, j: int|
        0 <= i < parts.len() && 0 <= j < parts.len() && (#[trigger] parts[i]).header.len() > 0 && (
        #[trigger] parts[j]).header.len() > 0 ==> parts[i].header.len() == parts[j].header.len()
}

/// Where every result is well formed and has records only under a header, and those
/// with a header agree on its length, every row of the aggregate has as many cells as
/// the aggregate's header, which is as long as the header of each result that has
/// one.
pub proof fn lemma_gathered_wf(parts: Seq<CSVDataView>)
    requires
        forall|i: int| 0 <= i < parts.len() ==> (#[trigger] parts[i]).wf() && parts[i].headed(),
        agree(parts),
    ensures
        gathered(parts).wf(),
        gathered(parts).headed(),
        forall|j: int|
            0 <= j < parts.len() && (#[trigger] parts[j]).header.len() > 0 ==> gathered(
                parts,
            ).header.len() == parts[j].header.len(),
    decreases parts.len(),
{
    if parts.len() > 0 {
        let front = parts.drop_last();
        let last = parts.last();
        let before = gathered(front);
        let out = gathered(parts);
        assert forall|i: int| 0 <= i < front.len() implies (#[trigger] front[i]).wf()
            && front[i].headed() by {
            assert(front[i] == parts[i]);
        }
        assert(agree(front)) by {
            assert forall|i: int, j: int|
                0 <= i < front.len() && 0 <= j < front.len() && (#[trigger] front[i]).header.len()
                    > 0 && (#[trigger] front[j]).header.len() > 0 implies front[i].header.len()
                == front[j].header.len() by {
                assert(front[i] == parts[i] && front[j] == parts[j]);
            }
        }
        lemma_gathered_wf(front);
        assert(last == parts[parts.len() - 1]);
        if before.header.len() > 0 && last.header.len() > 0 {
            if forall|i: int| 0 <= i < front.len() ==> (#[trigger] front[i]).header.len() == 0 {
                lemma_gathered_no_header(front);
            }
            let i = choose|i: int| 0 <= i < front.len() && (#[trigger] front[i]).header.len() != 0;
            assert(front[i] == parts[i]);
        }
        assert forall|j: int|
            0 <= j < parts.len() && (#[trigger] parts[j]).header.len() > 0 implies out.header.len()
            == parts[j].header.len() by {
            if j < front.len() {
                assert(front[j] == parts[j]);
            }
        }
        assert forall|i: int| 0 <= i < out.records.len() implies (#[trigger] out.records[i]).len()
            == out.header.len() by {
            if i < before.records.len() {
                assert(out.records[i] == before.records[i]);
            } else {
                assert(out.records[i] == last.records[i - before.records.len()]);
            }
        }
    }
}

} // verus!
