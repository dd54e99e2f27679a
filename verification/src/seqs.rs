//! Small general lemmas about filtered sequences, shared by the store and
//! the manager.

use vstd::prelude::*;

verus! {

/// Filtering a sequence extended by one element keeps the filtered prefix
/// and appends the element exactly when it satisfies the predicate.
pub proof fn lemma_filter_push<A>(s: Seq<A>, x: A, pred: spec_fn(A) -> bool)
    ensures
        s.push(x).filter(pred) == if pred(x) {
            s.filter(pred).push(x)
        } else {
            s.filter(pred)
        },
{
    reveal(Seq::filter);
    assert(s.push(x).drop_last() =~= s);
    assert(s.push(x).last() == x);
    assert(s.push(x).len() == s.len() + 1);
}

/// Filtering keeps a sequence whose members all satisfy the predicate.
pub proof fn lemma_filter_all_kept<A>(s: Seq<A>, pred: spec_fn(A) -> bool)
    requires
        forall|i: int| 0 <= i < s.len() ==> pred(#[trigger] s[i]),
    ensures
        s.filter(pred) == s,
    decreases s.len(),
{
    reveal(Seq::filter);
    if s.len() > 0 {
        assert(forall|i: int| 0 <= i < s.drop_last().len() ==> pred(#[trigger] s.drop_last()[i]));
        lemma_filter_all_kept(s.drop_last(), pred);
        assert(s.drop_last().push(s.last()) =~= s);
    }
}

/// Every element of a filtered sequence stands in the original, and two
/// distinct positions come from two distinct positions in order.
pub proof fn lemma_filter_subset<A>(s: Seq<A>, pred: spec_fn(A) -> bool)
    ensures
        forall|i: int|
            0 <= i < s.filter(pred).len() ==> exists|k: int|
                0 <= k < s.len() && s[k] == #[trigger] s.filter(pred)[i],
        forall|i: int, j: int|
            0 <= i < j < s.filter(pred).len() ==> exists|k: int, l: int|
                {
                    &&& 0 <= k < l < s.len()
                    &&& s[k] == #[trigger] s.filter(pred)[i]
                    &&& s[l] == #[trigger] s.filter(pred)[j]
                },
    decreases s.len(),
{
    reveal(Seq::filter);
    if s.len() > 0 {
        let pre = s.drop_last();
        lemma_filter_subset(pre, pred);
        let f = s.filter(pred);
        let fp = pre.filter(pred);
        if pred(s.last()) {
            assert(f == fp.push(s.last()));
        } else {
            assert(f == fp);
        }
        assert forall|i: int|
            0 <= i < f.len() implies exists|k: int| 0 <= k < s.len() && s[k] == #[trigger] f[i] by {
            if pred(s.last()) && i == f.len() - 1 {
                assert(s[s.len() - 1] == f[i]);
            } else {
                let k = choose|k: int| 0 <= k < pre.len() && pre[k] == fp[i];
                assert(s[k] == f[i]);
            }
        }
        assert forall|i: int, j: int|
            0 <= i < j < f.len() implies exists|k: int, l: int|
            {
                &&& 0 <= k < l < s.len()
                &&& s[k] == #[trigger] f[i]
                &&& s[l] == #[trigger] f[j]
            } by {
            if pred(s.last()) && j == f.len() - 1 {
                let k = choose|k: int| 0 <= k < pre.len() && pre[k] == fp[i];
                assert(s[k] == f[i] && s[s.len() - 1] == f[j]);
            } else {
                let (k, l) = choose|k: int, l: int|
                    0 <= k < l < pre.len() && pre[k] == fp[i] && pre[l] == fp[j];
                assert(s[k] == f[i] && s[l] == f[j]);
            }
        }
    }
}

} // verus!
