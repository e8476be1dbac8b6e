use vstd::prelude::*;
use vstd::set_lib::*;

verus! {

/// A duplicate-free sequence drawn from a finite set is no longer than the set.
pub proof fn lemma_distinct_within<A>(q: Seq<A>, s: Set<A>)
    requires
        q.no_duplicates(),
        s.finite(),
        forall|i: int| 0 <= i < q.len() ==> s.contains(#[trigger] q[i]),
    ensures
        q.len() <= s.len(),
{
    q.unique_seq_to_set();
    assert(q.to_set().subset_of(s));
    lemma_len_subset(q.to_set(), s);
}

pub open spec fn below(n: usize) -> Set<usize> {
    Set::new(|i: usize| i < n)
}

pub proof fn lemma_below(n: usize)
    ensures
        below(n).finite(),
        below(n).len() == n,
{
    <usize as FiniteRange>::range_properties(0, n);
    assert(<usize as FiniteRange>::range_set(0, n) =~= below(n));
}

/// `n` distinct indices below `n` name every index below `n`.
pub proof fn lemma_distinct_covers(q: Seq<usize>, n: usize)
    requires
        q.no_duplicates(),
        q.len() == n,
        forall|i: int| 0 <= i < q.len() ==> #[trigger] q[i] < n,
    ensures
        forall|v: usize| v < n ==> q.contains(v),
{
    lemma_below(n);
    q.unique_seq_to_set();
    assert(q.to_set().subset_of(below(n)));
    lemma_len_subset(q.to_set(), below(n));
    lemma_subset_equality(q.to_set(), below(n));
    assert forall|v: usize| v < n implies q.contains(v) by {
        assert(below(n).contains(v));
        assert(q.to_set().contains(v));
    }
}

/// Fewer than `n` indices leave an index below `n` out.
pub proof fn lemma_distinct_misses(q: Seq<usize>, n: usize) -> (v: usize)
    requires
        q.len() < n,
    ensures
        v < n,
        !q.contains(v),
{
    broadcast use vstd::seq_lib::seq_to_set_is_finite;

    lemma_below(n);
    q.lemma_cardinality_of_set();
    if forall|w: usize| w < n ==> q.contains(w) {
        assert(below(n).subset_of(q.to_set()));
        lemma_len_subset(below(n), q.to_set());
        assert(false);
    }
    choose|w: usize| w < n && !q.contains(w)
}

} // verus!
