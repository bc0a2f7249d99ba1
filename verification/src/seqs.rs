//! Searching a sequence for the first element of some kind.

use vstd::prelude::*;

verus! {

/// Index of the first element of `s` that `p` holds of, or the length of `s` if `p`
/// holds of none.
pub open spec fn first_where<A>(s: Seq<A>, p: spec_fn(A) -> bool) -> int
    decreases s.len(),
{
    if s.len() == 0 {
        0
    } else if p(s.first()) {
        0
    } else {
        1 + first_where(s.drop_first(), p)
    }
}

/// `first_where` lies within the sequence or right after it; `p` holds of no element
/// before it, and of the element at it.
pub proof fn lemma_first_where_bounds<A>(s: Seq<A>, p: spec_fn(A) -> bool)
    ensures
        0 <= first_where(s, p) <= s.len(),
        forall|j: int| 0 <= j < first_where(s, p) ==> !p(#[trigger] s[j]),
        first_where(s, p) < s.len() ==> p(s[first_where(s, p)]),
    decreases s.len(),
{
    if s.len() > 0 && !p(s.first()) {
        let tail = s.drop_first();
        lemma_first_where_bounds(tail, p);
        assert forall|j: int| 0 <= j < first_where(s, p) implies !p(#[trigger] s[j]) by {
            if j > 0 {
                assert(s[j] == tail[j - 1]);
            }
        }
        assert(first_where(tail, p) < tail.len() ==> tail[first_where(tail, p)] == s[first_where(
            s,
            p,
        )]);
    }
}

/// `first_where` is the one index with an element of the kind at it and none before.
pub proof fn lemma_first_where<A>(s: Seq<A>, p: spec_fn(A) -> bool, i: int)
    requires
        0 <= i <= s.len(),
        forall|j: int| 0 <= j < i ==> !p(#[trigger] s[j]),
        i < s.len() ==> p(s[i]),
    ensures
        first_where(s, p) == i,
    decreases s.len(),
{
    if s.len() > 0 && i > 0 {
        assert(!p(s[0]));
        let tail = s.drop_first();
        assert forall|j: int| 0 <= j < i - 1 implies !p(#[trigger] tail[j]) by {
            assert(tail[j] == s[j + 1]);
        }
        assert(i < s.len() ==> tail[i - 1] == s[i]);
        lemma_first_where(tail, p, i - 1);
    }
}

} // verus!
