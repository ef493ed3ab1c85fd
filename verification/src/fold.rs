//! Folds of a combiner over sequences of leaf values, and the lemmas about
//! them that the tree's proofs rest on.

use crate::monoid::Monoid;
use vstd::prelude::*;

verus! {

/// The left-to-right fold of the combining operation over `s`, starting from
/// the identity. This is the mathematical value a range query returns.
pub open spec fn seq_fold<T: Monoid>(s: Seq<T>) -> T
    decreases s.len(),
{
    if s.len() == 0 {
        T::spec_id()
    } else {
        T::spec_op(seq_fold(s.drop_last()), s.last())
    }
}

/// The elements of `s` whose indices lie in the half-open interval
/// `[lo, hi)`, in order. Bounds are clamped to `[0, s.len()]`, and an
/// interval that is empty after clamping (including `hi <= lo`) yields the
/// empty sequence, so every pair of bounds is meaningful.
pub open spec fn clipped<T>(s: Seq<T>, lo: int, hi: int) -> Seq<T> {
    let l = if lo < 0 {
        0
    } else if lo > s.len() {
        s.len() as int
    } else {
        lo
    };
    let h = if hi < l {
        l
    } else if hi > s.len() {
        s.len() as int
    } else {
        hi
    };
    s.subrange(l, h)
}

/// The fold of the combining operation over the elements of `s` with indices
/// in `[lo, hi)`: the reference value for a range query over leaves `s`.
pub open spec fn range_fold<T: Monoid>(s: Seq<T>, lo: int, hi: int) -> T {
    seq_fold(clipped(s, lo, hi))
}

/// `n` copies of the identity value: the leaves of a freshly built tree.
pub open spec fn identity_seq<T: Monoid>(n: nat) -> Seq<T> {
    Seq::new(n, |i: int| T::spec_id())
}

/// Folding distributes over concatenation: combining the folds of two halves
/// gives the fold of the whole. This is the algebraic heart of the tree's
/// range decomposition.
pub proof fn lemma_fold_concat<T: Monoid>(a: Seq<T>, b: Seq<T>)
    ensures
        seq_fold(a + b) == T::spec_op(seq_fold(a), seq_fold(b)),
    decreases b.len(),
{
    if b.len() == 0 {
        assert(a + b =~= a);
        T::lemma_identity(seq_fold(a));
    } else {
        lemma_fold_concat::<T>(a, b.drop_last());
        assert((a + b).drop_last() =~= a + b.drop_last());
        assert((a + b).last() == b.last());
        T::lemma_associative(seq_fold(a), seq_fold(b.drop_last()), b.last());
    }
}

/// The fold of a single value is that value.
pub proof fn lemma_fold_singleton<T: Monoid>(x: T)
    ensures
        seq_fold(seq![x]) == x,
{
    assert(seq![x].drop_last() =~= Seq::<T>::empty());
    assert(seq![x].last() == x);
    assert(seq_fold(seq![x]) == T::spec_op(seq_fold(Seq::<T>::empty()), x));
    T::lemma_identity(x);
}

/// The fold of any sequence of identity values is the identity.
pub proof fn lemma_fold_identities<T: Monoid>(s: Seq<T>)
    requires
        forall|i: int| 0 <= i < s.len() ==> s[i] == T::spec_id(),
    ensures
        seq_fold(s) == T::spec_id(),
    decreases s.len(),
{
    if s.len() == 0 {
    } else {
        lemma_fold_identities::<T>(s.drop_last());
        T::lemma_identity(T::spec_id());
    }
}

/// Clipping a concatenation splits into clipping each part, with the bounds
/// shifted by the length of the first part for the second.
pub proof fn lemma_clipped_concat<T>(a: Seq<T>, b: Seq<T>, lo: int, hi: int)
    ensures
        clipped(a + b, lo, hi) =~= clipped(a, lo, hi) + clipped(b, lo - a.len(), hi - a.len()),
{
}

/// Identity law: a range query over leaves that all hold the identity
/// value yields the identity, whatever the bounds. This is what every query
/// on a freshly built tree returns.
pub proof fn lemma_query_fresh_tree<T: Monoid>(n: nat, lo: int, hi: int)
    ensures
        range_fold(identity_seq::<T>(n), lo, hi) == T::spec_id(),
{
    lemma_fold_identities::<T>(clipped(identity_seq::<T>(n), lo, hi));
}

/// Point read-back: a query over the single-index range `[i, i + 1)` returns
/// exactly the leaf value at `i`. After `set(i, v)` the leaves are
/// `s.update(i, v)`, so the query returns `v`.
pub proof fn lemma_point_readback<T: Monoid>(s: Seq<T>, i: int)
    requires
        0 <= i < s.len(),
    ensures
        range_fold(s, i, i + 1) == s[i],
{
    assert(clipped(s, i, i + 1) =~= seq![s[i]]);
    lemma_fold_singleton(s[i]);
}

/// Empty range: a query over `[k, k)` returns the identity, for any `k` and
/// regardless of the leaf contents.
pub proof fn lemma_query_empty_range<T: Monoid>(s: Seq<T>, k: int)
    ensures
        range_fold(s, k, k) == T::spec_id(),
{
    assert(clipped(s, k, k) =~= Seq::<T>::empty());
}

} // verus!
