//! The files of a collection: which of them a query reads, and which worker reads
//! each.

use crate::db::pattern::{compile, find_in, regex_compiles, regex_find, FilenamePattern};
use crate::seqs::{first_where, lemma_first_where};
use crate::text::enclosed;
use crate::types::error::ZenithError;
use crate::types::query::{FileMetadata, Predicate, PredicateView};
use vstd::arithmetic::div_mod::{
    lemma_div_is_ordered, lemma_div_pos_is_pos, lemma_fundamental_div_mod,
    lemma_fundamental_div_mod_converse, lemma_mod_bound,
};
use vstd::prelude::*;
use vstd::seq_lib::{
    to_multiset_build, to_multiset_contains, to_multiset_insert, to_multiset_len,
    to_multiset_remove,
};

verus! {

/// Whether the pattern of a filename predicate is refused, as a test on one
/// predicate.
pub open spec fn refused() -> spec_fn(PredicateView) -> bool {
    |p: PredicateView| !regex_compiles(p.field)
}

/// A filename passes a predicate if the predicate's pattern matches in it, and the
/// matched text satisfies the predicate. A name in which the pattern finds nothing
/// fails.
pub open spec fn name_passes_one(name: Seq<char>, predicate: PredicateView) -> bool {
    match regex_find(predicate.field, name) {
        Some(text) => predicate.satisfied_by(text),
        None => false,
    }
}

/// A filename passes if it passes every predicate.
pub open spec fn name_passes(name: Seq<char>, predicates: Seq<PredicateView>) -> bool {
    forall|k: int| 0 <= k < predicates.len() ==> name_passes_one(name, #[trigger] predicates[k])
}

/// A file is read if it has a name, is not empty and its name passes the predicates.
pub open spec fn is_listed(file: FileMetadata, predicates: Seq<PredicateView>) -> bool {
    file.filename@.len() > 0 && file.size > 0 && name_passes(file.filename@, predicates)
}

/// `is_listed` under fixed predicates, as a test on one file.
pub open spec fn listing(predicates: Seq<PredicateView>) -> spec_fn(FileMetadata) -> bool {
    |file: FileMetadata| is_listed(file, predicates)
}

/// The patterns are those of the predicates, one for each and in their order.
pub open spec fn compiled_for(
    patterns: Seq<FilenamePattern>,
    predicates: Seq<PredicateView>,
) -> bool {
    &&& patterns.len() == predicates.len()
    &&& forall|k: int|
        0 <= k < patterns.len() ==> (#[trigger] patterns[k]).source() == predicates[k].field
}

/// The message for a pattern that does not compile.
pub open spec fn refusal_text(pattern: Seq<char>) -> Seq<char> {
    "regex: '"@ + pattern + "'"@
}

/// Compiles the pattern of every predicate, in their order. The first pattern that
/// does not compile fails with a `PredicateError` that names it.
pub(crate) fn compile_all(predicates: &Vec<Predicate>) -> (r: Result<
    Vec<FilenamePattern>,
    ZenithError,
>)
    ensures
        match r {
            Ok(patterns) => {
                &&& first_where(predicates.deep_view(), refused()) == predicates.len()
                &&& compiled_for(patterns@, predicates.deep_view())
            },
            Err(e) => {
                let i = first_where(predicates.deep_view(), refused());
                &&& i < predicates.len()
                &&& e matches ZenithError::PredicateError(text)
                &&& text@ == refusal_text(predicates.deep_view()[i].field)
            },
        },
{
    let ghost conds = predicates.deep_view();
    let mut patterns: Vec<FilenamePattern> = Vec::new();
    let mut k: usize = 0;
    while k < predicates.len()
        invariant
            k <= predicates.len(),
            conds == predicates.deep_view(),
            patterns.len() == k,
            forall|j: int| 0 <= j < k ==> !refused()(#[trigger] conds[j]),
            forall|j: int| 0 <= j < k ==> (#[trigger] patterns[j]).source() == conds[j].field,
        decreases predicates.len() - k,
    {
        assert(conds[k as int] == predicates[k as int]@);
        let source = predicates[k].field();
        match compile(source.as_str()) {
            Ok(pattern) => {
                patterns.push(pattern);
            },
            Err(_) => {
                proof {
                    lemma_first_where(conds, refused(), k as int);
                }
                return Err(
                    ZenithError::PredicateError(enclosed("regex: '", source.as_str(), "'")),
                );
            },
        }
        k += 1;
    }
    proof {
        lemma_first_where(conds, refused(), k as int);
    }
    Ok(patterns)
}

/// Whether `name` passes every predicate, given their compiled patterns.
fn passes_all(name: &String, patterns: &Vec<FilenamePattern>, predicates: &Vec<Predicate>) -> (r:
    bool)
    requires
        compiled_for(patterns@, predicates.deep_view()),
    ensures
        r == name_passes(name@, predicates.deep_view()),
{
    let ghost conds = predicates.deep_view();
    let mut k: usize = 0;
    while k < predicates.len()
        invariant
            k <= predicates.len(),
            conds == predicates.deep_view(),
            compiled_for(patterns@, conds),
            forall|j: int| 0 <= j < k ==> name_passes_one(name@, #[trigger] conds[j]),
        decreases predicates.len() - k,
    {
        assert(conds[k as int] == predicates[k as int]@);
        assert(patterns[k as int].source() == conds[k as int].field);
        let held = match find_in(&patterns[k], name.as_str()) {
            Some(text) => predicates[k].satisfied_by(&text),
            None => false,
        };
        if !held {
            assert(!name_passes_one(name@, conds[k as int]));
            return false;
        }
        k += 1;
    }
    true
}

/// Decides `is_listed`, given the compiled patterns of the predicates.
pub(crate) fn file_is_listed(
    file: &FileMetadata,
    patterns: &Vec<FilenamePattern>,
    predicates: &Vec<Predicate>,
) -> (r: bool)
    requires
        compiled_for(patterns@, predicates.deep_view()),
    ensures
        r == is_listed(*file, predicates.deep_view()),
{
    !file.filename.as_str().is_empty() && file.size > 0 && passes_all(
        &file.filename,
        patterns,
        predicates,
    )
}

/// Of the entries of a collection's directory, those that a query reads, in the order
/// of the listing. Every predicate's pattern is compiled before any entry is looked
/// at: the first one that does not compile fails the listing with a `PredicateError`
/// that names it. An entry without a name or of size zero is never read, whatever the
/// predicates; of the others, those whose name passes every predicate are.
pub fn list_collection_files(
    entries: Vec<FileMetadata>,
    filename_regex_predicates: &Vec<Predicate>,
) -> (r: Result<Vec<FileMetadata>, ZenithError>)
    ensures
        match r {
            Ok(files) => {
                &&& first_where(filename_regex_predicates.deep_view(), refused())
                    == filename_regex_predicates.len()
                &&& files@ == entries@.filter(listing(filename_regex_predicates.deep_view()))
            },
            Err(e) => {
                let i = first_where(filename_regex_predicates.deep_view(), refused());
                &&& i < filename_regex_predicates.len()
                &&& e matches ZenithError::PredicateError(text)
                &&& text@ == refusal_text(filename_regex_predicates.deep_view()[i].field)
            },
        },
{
    let ghost conds = filename_regex_predicates.deep_view();
    let patterns = match compile_all(filename_regex_predicates) {
        Ok(patterns) => patterns,
        Err(error) => {
            return Err(error);
        },
    };
    let mut files: Vec<FileMetadata> = Vec::new();
    proof {
        reveal(Seq::filter);
        assert(entries@.take(0).len() == 0);
    }
    for entry in it: entries
        invariant
            it.seq() == entries@,
            conds == filename_regex_predicates.deep_view(),
            compiled_for(patterns@, conds),
            files@ == entries@.take(it.index() as int).filter(listing(conds)),
    {
        let ghost i = it.index() as int;
        proof {
            reveal(Seq::filter);
            assert(entries@.take(i + 1).drop_last() == entries@.take(i));
            assert(entries@.take(i + 1).last() == entry);
        }
        if file_is_listed(&entry, &patterns, filename_regex_predicates) {
            files.push(entry);
        }
    }
    assert(entries@.take(entries.len() as int) == entries@);
    Ok(files)
}

/// `sorted` with `x` put behind every file that is not larger than `x`.
pub open spec fn placed(sorted: Seq<FileMetadata>, x: FileMetadata) -> Seq<FileMetadata>
    decreases sorted.len(),
{
    if sorted.len() == 0 || sorted.last().size <= x.size {
        sorted.push(x)
    } else {
        placed(sorted.drop_last(), x).push(sorted.last())
    }
}

/// The files in ascending order of size; files of one size keep the order in which
/// they were listed.
pub open spec fn by_size(files: Seq<FileMetadata>) -> Seq<FileMetadata>
    decreases files.len(),
{
    if files.len() == 0 {
        files
    } else {
        placed(by_size(files.drop_last()), files.last())
    }
}

/// The files from the largest to the smallest, the order in which they are dealt.
pub open spec fn largest_first(files: Seq<FileMetadata>) -> Seq<FileMetadata> {
    by_size(files).reverse()
}

/// How many of `n` files group `j` of `k` receives when they are dealt one by one.
pub open spec fn share(n: int, j: int, k: int) -> int {
    n / k + if j < n % k {
        1int
    } else {
        0int
    }
}

/// The groups that `k` workers receive: the files are dealt from the largest to the
/// smallest, the file at position `p` of that order to group `p % k`, where it is the
/// `p / k`-th file.
pub open spec fn partition(files: Seq<FileMetadata>, k: int) -> Seq<Seq<FileMetadata>> {
    Seq::new(
        k as nat,
        |j: int|
            Seq::new(
                share(files.len() as int, j, k) as nat,
                |t: int| largest_first(files)[t * k + j],
            ),
    )
}

/// The groups as sequences.
pub open spec fn views(groups: Seq<Vec<FileMetadata>>) -> Seq<Seq<FileMetadata>> {
    groups.map_values(|g: Vec<FileMetadata>| g@)
}

/// `placed` inserts at the position behind which every file is larger.
proof fn lemma_placed(sorted: Seq<FileMetadata>, x: FileMetadata, p: int)
    requires
        0 <= p <= sorted.len(),
        forall|j: int| p <= j < sorted.len() ==> (#[trigger] sorted[j]).size > x.size,
        p > 0 ==> sorted[p - 1].size <= x.size,
    ensures
        placed(sorted, x) == sorted.insert(p, x),
    decreases sorted.len(),
{
    if sorted.len() == 0 || p == sorted.len() {
        assert(sorted.push(x) =~= sorted.insert(p, x));
    } else {
        assert(sorted.last().size > x.size);
        lemma_placed(sorted.drop_last(), x, p);
        assert(sorted.drop_last().insert(p, x).push(sorted.last()) =~= sorted.insert(p, x));
    }
}

/// Sorts the files by size, keeping the listed order among files of one size.
fn sort_by_size(files: Vec<FileMetadata>) -> (sorted: Vec<FileMetadata>)
    ensures
        sorted@ == by_size(files@),
{
    let mut sorted: Vec<FileMetadata> = Vec::new();
    assert(files@.take(0) == sorted@);
    for file in it: files
        invariant
            it.seq() == files@,
            sorted@ == by_size(files@.take(it.index() as int)),
    {
        let ghost i = it.index() as int;
        let mut p: usize = sorted.len();
        while p > 0 && sorted[p - 1].size > file.size
            invariant
                p <= sorted.len(),
                forall|j: int| p <= j < sorted.len() ==> (#[trigger] sorted@[j]).size > file.size,
            decreases p,
        {
            p -= 1;
        }
        proof {
            lemma_placed(sorted@, file, p as int);
            assert(files@.take(i + 1).drop_last() == files@.take(i));
            assert(files@.take(i + 1).last() == file);
        }
        sorted.insert(p, file);
    }
    assert(files@.take(files.len() as int) == files@);
    sorted
}

/// Based on the size of each of the files, divides them into `k` groups: the files are
/// sorted by size and dealt from the largest down, one to each group in turn. There
/// are always `k` groups, some of them empty where the files are fewer. Nothing can
/// be dealt to no group: with files to deal, `k` is at least 1.
pub fn group_collection_files(files: Vec<FileMetadata>, k: usize) -> (groups: Vec<
    Vec<FileMetadata>,
>)
    requires
        k > 0 || files.len() == 0,
    ensures
        groups.len() == k,
        views(groups@) == partition(files@, k as int),
{
    let ghost n = files.len() as int;
    let ghost order = largest_first(files@);
    let mut sorted = sort_by_size(files);
    proof {
        lemma_by_size_len(files@);
    }
    let mut groups: Vec<Vec<FileMetadata>> = Vec::new();
    let mut j: usize = 0;
    while j < k
        invariant
            j <= k,
            groups.len() == j,
            forall|g: int| 0 <= g < j ==> (#[trigger] groups@[g])@.len() == 0,
        decreases k - j,
    {
        groups.push(Vec::new());
        j += 1;
    }
    let mut q: usize = 0;
    let mut r: usize = 0;
    let ghost mut dealt: int = 0;
    while sorted.len() > 0
        invariant
            k > 0 || n == 0,
            groups.len() == k,
            n == files.len(),
            order == largest_first(files@),
            order.len() == n,
            0 <= dealt <= n,
            dealt == q * k + r,
            k > 0 ==> r < k,
            sorted@ == by_size(files@).take(n - dealt),
            forall|g: int|
                0 <= g < k ==> (#[trigger] groups@[g])@.len() == q + if g < r {
                    1int
                } else {
                    0int
                },
            forall|g: int, t: int|
                0 <= g < k && 0 <= t < groups@[g]@.len() ==> (#[trigger] groups@[g]@[t]) == order[t
                    * k + g],
        decreases sorted.len(),
    {
        let ghost before = groups@;
        let file = sorted.pop().unwrap();
        assert(file == order[dealt]);
        assert(sorted@ == by_size(files@).take(n - (dealt + 1)));
        groups[r].push(file);
        assert forall|g: int, t: int| 0 <= g < k && 0 <= t < groups@[g]@.len() implies (
        #[trigger] groups@[g]@[t]) == order[t * k + g] by {
            if g == r {
                if t < q {
                    assert(groups@[g]@[t] == before[g]@[t]);
                }
            } else {
                assert(groups@[g] == before[g]);
            }
        }
        assert((q + 1) * k == q * k + k) by (nonlinear_arith);
        assert(q * k >= q) by (nonlinear_arith)
            requires
                k >= 1,
                q >= 0,
        ;
        r += 1;
        if r == k {
            r = 0;
            q += 1;
        }
        proof {
            dealt = dealt + 1;
        }
    }
    proof {
        if k > 0 {
            lemma_fundamental_div_mod_converse(n, k as int, q as int, r as int);
        }
        let want = partition(files@, k as int);
        assert forall|g: int| 0 <= g < k implies #[trigger] views(groups@)[g] == want[g] by {
            assert(views(groups@)[g] == groups@[g]@);
            assert(groups@[g]@ =~= want[g]);
        }
        assert(views(groups@) =~= want);
    }
    groups
}

/// Every file is dealt to one place: the file at position `p` of the dealing order is
/// in group `p % k`, where it is the `p / k`-th file.
pub proof fn lemma_partition_places(files: Seq<FileMetadata>, k: int, p: int)
    requires
        k > 0,
        0 <= p < files.len(),
    ensures
        0 <= p % k < k,
        0 <= p / k < partition(files, k)[p % k].len(),
        partition(files, k)[p % k][p / k] == largest_first(files)[p],
{
    let n = files.len() as int;
    lemma_fundamental_div_mod(p, k);
    lemma_fundamental_div_mod(n, k);
    lemma_div_is_ordered(p, n, k);
    lemma_div_pos_is_pos(p, k);
    lemma_mod_bound(p, k);
    lemma_mod_bound(n, k);
    assert(k * (p / k) == (p / k) * k) by (nonlinear_arith);
    if p / k == n / k {
        assert(p % k < n % k);
    }
}

/// Every place holds a file of the dealing order, and no two places hold the same
/// position: the `t`-th file of group `j` is the file at position `t * k + j`.
pub proof fn lemma_partition_slots(files: Seq<FileMetadata>, k: int, j: int, t: int)
    requires
        k > 0,
        0 <= j < k,
        0 <= t < partition(files, k)[j].len(),
    ensures
        0 <= t * k + j < files.len(),
        (t * k + j) % k == j,
        (t * k + j) / k == t,
        partition(files, k)[j][t] == largest_first(files)[t * k + j],
{
    let n = files.len() as int;
    lemma_fundamental_div_mod(n, k);
    lemma_mod_bound(n, k);
    lemma_fundamental_div_mod_converse(t * k + j, k, t, j);
    assert(t * k + j < n) by (nonlinear_arith)
        requires
            n == k * (n / k) + n % k,
            0 <= j < k,
            0 <= t,
            t < n / k || (t == n / k && j < n % k),
    ;
    assert(0 <= t * k + j) by (nonlinear_arith)
        requires
            0 <= t,
            0 <= j,
            k > 0,
    ;
}

/// Sorting keeps the number of files.
pub proof fn lemma_by_size_len(files: Seq<FileMetadata>)
    ensures
        by_size(files).len() == files.len(),
    decreases files.len(),
{
    if files.len() > 0 {
        lemma_by_size_len(files.drop_last());
        lemma_placed_len(by_size(files.drop_last()), files.last());
    }
}

/// Placing a file makes the sequence longer by one.
proof fn lemma_placed_len(sorted: Seq<FileMetadata>, x: FileMetadata)
    ensures
        placed(sorted, x).len() == sorted.len() + 1,
    decreases sorted.len(),
{
    if !(sorted.len() == 0 || sorted.last().size <= x.size) {
        lemma_placed_len(sorted.drop_last(), x);
    }
}

/// The files stand in ascending order of size.
pub open spec fn ascending(files: Seq<FileMetadata>) -> bool {
    forall|i: int, j: int|
        0 <= i < j < files.len() ==> (#[trigger] files[i]).size <= (#[trigger] files[j]).size
}

/// The files stand in ascending order of size, and no two are of one size.
pub open spec fn strictly_ascending(files: Seq<FileMetadata>) -> bool {
    forall|i: int, j: int|
        0 <= i < j < files.len() ==> (#[trigger] files[i]).size < (#[trigger] files[j]).size
}

/// No two of the files are of one size.
pub open spec fn distinct_sizes(files: Seq<FileMetadata>) -> bool {
    forall|i: int, j: int|
        0 <= i < j < files.len() ==> (#[trigger] files[i]).size != (#[trigger] files[j]).size
}

/// The position at which `placed` puts `x`.
pub open spec fn place_index(sorted: Seq<FileMetadata>, x: FileMetadata) -> int
    decreases sorted.len(),
{
    if sorted.len() == 0 || sorted.last().size <= x.size {
        sorted.len() as int
    } else {
        place_index(sorted.drop_last(), x)
    }
}

/// `placed` inserts at `place_index`: every file behind that position is larger than
/// `x`, and the file before it is not.
proof fn lemma_place_index(sorted: Seq<FileMetadata>, x: FileMetadata)
    ensures
        0 <= place_index(sorted, x) <= sorted.len(),
        placed(sorted, x) == sorted.insert(place_index(sorted, x), x),
        forall|j: int|
            place_index(sorted, x) <= j < sorted.len() ==> (#[trigger] sorted[j]).size > x.size,
        place_index(sorted, x) > 0 ==> sorted[place_index(sorted, x) - 1].size <= x.size,
    decreases sorted.len(),
{
    if !(sorted.len() == 0 || sorted.last().size <= x.size) {
        let front = sorted.drop_last();
        lemma_place_index(front, x);
        assert forall|j: int| place_index(sorted, x) <= j < sorted.len() implies (
        #[trigger] sorted[j]).size > x.size by {
            if j < front.len() {
                assert(front[j] == sorted[j]);
            }
        }
        assert(place_index(sorted, x) > 0 ==> front[place_index(sorted, x) - 1] == sorted[
            place_index(sorted, x) - 1
        ]);
    }
    lemma_placed(sorted, x, place_index(sorted, x));
}

/// Sorting puts the files in ascending order of size.
pub proof fn lemma_by_size_ascending(files: Seq<FileMetadata>)
    ensures
        ascending(by_size(files)),
    decreases files.len(),
{
    if files.len() > 0 {
        let front = by_size(files.drop_last());
        let x = files.last();
        lemma_by_size_ascending(files.drop_last());
        lemma_place_index(front, x);
        let p = place_index(front, x);
        let out = front.insert(p, x);
        assert forall|i: int, j: int| 0 <= i < j < out.len() implies (#[trigger] out[i]).size <= (
        #[trigger] out[j]).size by {
            if j < p {
                assert(out[i] == front[i] && out[j] == front[j]);
            } else if j == p {
                assert(out[i] == front[i]);
                if i < p - 1 {
                    assert(front[i].size <= front[p - 1].size);
                }
            } else if i < p {
                assert(out[i] == front[i] && out[j] == front[j - 1]);
                if i < p - 1 {
                    assert(front[i].size <= front[p - 1].size);
                }
            } else if i == p {
                assert(out[j] == front[j - 1]);
            } else {
                assert(out[i] == front[i - 1] && out[j] == front[j - 1]);
            }
        }
    }
}

/// Sorting keeps the files: each is there as often as before.
pub proof fn lemma_by_size_permutes(files: Seq<FileMetadata>)
    ensures
        by_size(files).to_multiset() == files.to_multiset(),
    decreases files.len(),
{
    if files.len() > 0 {
        let front = files.drop_last();
        let x = files.last();
        lemma_by_size_permutes(front);
        lemma_place_index(by_size(front), x);
        to_multiset_insert(by_size(front), place_index(by_size(front), x), x);
        to_multiset_build(front, x);
        assert(front.push(x) == files);
    } else {
        assert(by_size(files) == files);
    }
}

/// Where no two files are of one size, sorting leaves no two neighbours of one size.
proof fn lemma_by_size_strict(files: Seq<FileMetadata>)
    requires
        distinct_sizes(files),
    ensures
        strictly_ascending(by_size(files)),
    decreases files.len(),
{
    if files.len() > 0 {
        let rest = files.drop_last();
        let front = by_size(rest);
        let x = files.last();
        assert(distinct_sizes(rest)) by {
            assert forall|i: int, j: int| 0 <= i < j < rest.len() implies (#[trigger] rest[i]).size
                != (#[trigger] rest[j]).size by {
                assert(rest[i] == files[i] && rest[j] == files[j]);
            }
        }
        lemma_by_size_strict(rest);
        lemma_by_size_permutes(rest);
        lemma_place_index(front, x);
        let p = place_index(front, x);
        let out = front.insert(p, x);
        assert forall|i: int| 0 <= i < front.len() implies (#[trigger] front[i]).size
            != x.size by {
            assert(front.contains(front[i]));
            to_multiset_contains(front, front[i]);
            to_multiset_contains(rest, front[i]);
            let m = choose|m: int| 0 <= m < rest.len() && rest[m] == front[i];
            assert(files[m] == front[i]);
            assert(files[files.len() - 1] == x);
        }
        assert forall|i: int, j: int| 0 <= i < j < out.len() implies (#[trigger] out[i]).size < (
        #[trigger] out[j]).size by {
            if j < p {
                assert(out[i] == front[i] && out[j] == front[j]);
            } else if j == p {
                assert(out[i] == front[i]);
                if i < p - 1 {
                    assert(front[i].size < front[p - 1].size);
                }
                assert(front[p - 1].size != x.size);
            } else if i < p {
                assert(out[i] == front[i] && out[j] == front[j - 1]);
            } else if i == p {
                assert(out[j] == front[j - 1]);
            } else {
                assert(out[i] == front[i - 1] && out[j] == front[j - 1]);
            }
        }
    }
}

/// Two sequences of the same files, each in strictly ascending order, are one
/// sequence.
proof fn lemma_strict_order_is_unique(u: Seq<FileMetadata>, v: Seq<FileMetadata>)
    requires
        strictly_ascending(u),
        strictly_ascending(v),
        u.to_multiset() == v.to_multiset(),
    ensures
        u == v,
    decreases u.len(),
{
    to_multiset_len(u);
    to_multiset_len(v);
    if u.len() == 0 {
        assert(u =~= v);
    } else {
        let last = u.len() - 1;
        let x = u[last];
        let y = v[last];
        assert(u.contains(x) && v.contains(y));
        to_multiset_contains(u, x);
        to_multiset_contains(v, x);
        to_multiset_contains(u, y);
        to_multiset_contains(v, y);
        let i = choose|i: int| 0 <= i < u.len() && u[i] == y;
        let j = choose|j: int| 0 <= j < v.len() && v[j] == x;
        if i < last {
            assert(u[i].size < u[last].size);
            if j < last {
                assert(v[j].size < v[last].size);
            }
        }
        assert(x == y);
        to_multiset_remove(u, last);
        to_multiset_remove(v, last);
        assert(u.remove(last) == u.drop_last());
        assert(v.remove(last) == v.drop_last());
        assert(strictly_ascending(u.drop_last())) by {
            assert forall|a: int, b: int| 0 <= a < b < u.drop_last().len() implies (
            #[trigger] u.drop_last()[a]).size < (#[trigger] u.drop_last()[b]).size by {
                assert(u.drop_last()[a] == u[a] && u.drop_last()[b] == u[b]);
            }
        }
        assert(strictly_ascending(v.drop_last())) by {
            assert forall|a: int, b: int| 0 <= a < b < v.drop_last().len() implies (
            #[trigger] v.drop_last()[a]).size < (#[trigger] v.drop_last()[b]).size by {
                assert(v.drop_last()[a] == v[a] && v.drop_last()[b] == v[b]);
            }
        }
        lemma_strict_order_is_unique(u.drop_last(), v.drop_last());
        assert(u =~= u.drop_last().push(x));
        assert(v =~= v.drop_last().push(y));
    }
}

/// A listing of the same files as one without two files of one size has no two files
/// of one size either.
proof fn lemma_distinct_sizes_carry(a: Seq<FileMetadata>, b: Seq<FileMetadata>)
    requires
        a.to_multiset() == b.to_multiset(),
        distinct_sizes(a),
    ensures
        distinct_sizes(b),
{
    broadcast use vstd::multiset::group_multiset_axioms;

    assert forall|i: int, j: int| 0 <= i < j < b.len() implies (#[trigger] b[i]).size != (
    #[trigger] b[j]).size by {
        if b[i].size == b[j].size {
            assert(b.contains(b[i]) && b.contains(b[j]));
            to_multiset_contains(b, b[i]);
            to_multiset_contains(b, b[j]);
            to_multiset_contains(a, b[i]);
            to_multiset_contains(a, b[j]);
            let p = choose|p: int| 0 <= p < a.len() && a[p] == b[i];
            let q = choose|q: int| 0 <= q < a.len() && a[q] == b[j];
            if p == q {
                let e = b[i];
                to_multiset_remove(b, i);
                assert(b.remove(i)[j - 1] == e);
                assert(b.remove(i).contains(e));
                to_multiset_contains(b.remove(i), e);
                to_multiset_remove(a, p);
                to_multiset_contains(a.remove(p), e);
                assert(a.remove(p).contains(e));
                let r = choose|r: int| 0 <= r < a.remove(p).len() && a.remove(p)[r] == e;
                if r < p {
                    assert(a[r] == e);
                } else {
                    assert(a[r + 1] == e);
                }
            }
        }
    }
}

/// Partitioning is deterministic. The groups are a function of the listing; and where
/// no two files are of one size, they are a function of the set of files alone: two
/// listings of the same files, in whatever order, give the same groups for the same
/// number of workers.
pub proof fn lemma_partition_deterministic(a: Seq<FileMetadata>, b: Seq<FileMetadata>, k: int)
    requires
        a.to_multiset() == b.to_multiset(),
        distinct_sizes(a),
    ensures
        partition(a, k) == partition(b, k),
{
    lemma_distinct_sizes_carry(a, b);
    lemma_by_size_strict(a);
    lemma_by_size_strict(b);
    lemma_by_size_permutes(a);
    lemma_by_size_permutes(b);
    lemma_strict_order_is_unique(by_size(a), by_size(b));
    to_multiset_len(a);
    to_multiset_len(b);
    assert(partition(a, k) =~~= partition(b, k));
}

} // verus!
