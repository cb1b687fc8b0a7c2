//! Shared sequence lemmas: how `filter` interacts with `push`, and that
//! filtering preserves a strictly increasing key.

use vstd::prelude::*;

verus! {

/// Filtering a sequence extended by one element appends that element to the
/// filtered sequence exactly when it satisfies the predicate.
pub proof fn lemma_filter_push<A>(s: Seq<A>, x: A, pred: spec_fn(A) -> bool)
    ensures
        s.push(x).filter(pred) == if pred(x) {
            s.filter(pred).push(x)
        } else {
            s.filter(pred)
        },
{
    reveal(Seq::filter);
    assert(s.push(x).drop_last() =~= s);
}

/// Every element of a filtered sequence occurs in the original.
pub proof fn lemma_filter_membership<A>(s: Seq<A>, pred: spec_fn(A) -> bool)
    ensures
        forall|i: int|
            0 <= i < s.filter(pred).len() ==> exists|j: int|
                0 <= j < s.len() && s[j] == #[trigger] s.filter(pred)[i],
    decreases s.len(),
{
    reveal(Seq::filter);
    if s.len() > 0 {
        lemma_filter_membership(s.drop_last(), pred);
        assert forall|i: int| 0 <= i < s.filter(pred).len() implies exists|j: int|
            0 <= j < s.len() && s[j] == #[trigger] s.filter(pred)[i] by {
            let out = s.filter(pred);
            let sub = s.drop_last().filter(pred);
            if i < sub.len() {
                let j = choose|j: int|
                    0 <= j < s.drop_last().len() && s.drop_last()[j] == sub[i];
                assert(s[j] == out[i]);
            } else {
                assert(s[s.len() - 1] == out[i]);
            }
        }
    }
}

/// Filtering preserves a strictly increasing integer key.
pub proof fn lemma_filter_increasing<A>(
    s: Seq<A>,
    pred: spec_fn(A) -> bool,
    key: spec_fn(A) -> int,
)
    requires
        forall|i: int, j: int| 0 <= i < j < s.len() ==> key(s[i]) < key(s[j]),
    ensures
        forall|i: int, j: int|
            0 <= i < j < s.filter(pred).len() ==> key(s.filter(pred)[i]) < key(
                s.filter(pred)[j],
            ),
    decreases s.len(),
{
    reveal(Seq::filter);
    if s.len() > 0 {
        let d = s.drop_last();
        lemma_filter_increasing(d, pred, key);
        lemma_filter_membership(d, pred);
        let out = s.filter(pred);
        let sub = d.filter(pred);
        assert forall|i: int, j: int| 0 <= i < j < out.len() implies key(out[i]) < key(
            out[j],
        ) by {
            if j < sub.len() {
            } else {
                // out ends with s.last(); out[i] is an element of d
                let w = choose|w: int| 0 <= w < d.len() && d[w] == sub[i];
                assert(key(d[w]) < key(s[s.len() - 1]));
            }
        }
    }
}

/// On a strictly increasing key, position `i` lifts the key by at least `i`.
pub proof fn lemma_increasing_key_lower<A>(s: Seq<A>, key: spec_fn(A) -> int, i: int)
    requires
        forall|p: int, q: int| 0 <= p < q < s.len() ==> key(s[p]) < key(s[q]),
        0 <= i < s.len(),
    ensures
        key(s[i]) >= key(s[0]) + i,
    decreases i,
{
    if i > 0 {
        lemma_increasing_key_lower(s, key, i - 1);
        assert(key(s[i - 1]) < key(s[i]));
    }
}

} // verus!
