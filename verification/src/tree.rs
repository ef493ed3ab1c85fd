//! The range-query tree itself: a recursive owning binary tree over the
//! index domain, with point update and range aggregate query.

use crate::fold::clipped;
use crate::fold::identity_seq;
use crate::fold::lemma_clipped_concat;
use crate::fold::lemma_fold_concat;
use crate::fold::lemma_fold_identities;
use crate::fold::lemma_fold_singleton;
use crate::fold::range_fold;
use crate::fold::seq_fold;
use crate::monoid::Monoid;
use core::ops::Range;
use vstd::prelude::*;

verus! {

/// A single node, responsible for the half-open index interval
/// `[start, end)`. Children are present exactly when the interval spans more
/// than one index; a leaf covers a single index.
struct Node<T: Monoid> {
    value: T,
    start: usize,
    end: usize,
    left: Option<Box<Node<T>>>,
    right: Option<Box<Node<T>>>,
}

impl<T: Monoid> Node<T> {
    /// The leaf values under this node, left to right.
    spec fn leaves(self) -> Seq<T>
        decreases self,
    {
        match self.left {
            Some(l) => match self.right {
                Some(r) => l.leaves() + r.leaves(),
                None => seq![self.value],
            },
            None => seq![self.value],
        }
    }

    /// Well-formedness: the interval is never empty; a node is a leaf exactly
    /// when its interval has one index, and otherwise its children split the
    /// interval at the midpoint; the stored value is always the fold of the
    /// leaf values underneath.
    spec fn wf(self) -> bool
        decreases self,
    {
        &&& self.start < self.end
        &&& self.value == seq_fold(self.leaves())
        &&& (self.end - self.start == 1 ==> self.left is None && self.right is None)
        &&& (self.end - self.start > 1 ==> {
            &&& (match self.left {
                Some(l) => {
                    &&& l.wf()
                    &&& l.start == self.start
                    &&& l.end == self.start + (self.end - self.start) / 2
                },
                None => false,
            })
            &&& (match self.right {
                Some(r) => {
                    &&& r.wf()
                    &&& r.start == self.start + (self.end - self.start) / 2
                    &&& r.end == self.end
                },
                None => false,
            })
        })
    }

    /// A well-formed node holds one leaf value per covered index.
    proof fn lemma_leaves_len(self)
        requires
            self.wf(),
        ensures
            self.leaves().len() == self.end - self.start,
        decreases self,
    {
        if self.end - self.start > 1 {
            self.left.unwrap().lemma_leaves_len();
            self.right.unwrap().lemma_leaves_len();
        }
    }

    /// Creates a node covering `[start, end)` with every leaf set to the
    /// identity, recursively building children down to single-index leaves.
    /// An empty interval yields no node.
    fn new(start: usize, end: usize) -> (r: Option<Box<Node<T>>>)
        ensures
            start < end ==> r is Some,
            start >= end ==> r is None,
            r is Some ==> r.unwrap().wf(),
            r is Some ==> r.unwrap().start == start && r.unwrap().end == end,
            r is Some ==> r.unwrap().leaves() == identity_seq::<T>((end - start) as nat),
        decreases end - start,
    {
        if start >= end {
            return None;
        }
        if end - start == 1 {
            let node = Node { value: T::id(), start, end, left: None, right: None };
            proof {
                lemma_fold_singleton(T::spec_id());
                assert(node.leaves() =~= identity_seq::<T>(1));
            }
            return Some(Box::new(node));
        }
        let mid: usize = start + (end - start) / 2;
        let left = Self::new(start, mid);
        let right = Self::new(mid, end);
        let node = Node { value: T::id(), start, end, left, right };
        proof {
            assert(node.leaves() =~= identity_seq::<T>((end - start) as nat));
            lemma_fold_identities::<T>(node.leaves());
        }
        Some(Box::new(node))
    }

    /// Recalculates this node's value from its children's values, after a
    /// child has been updated.
    fn update_value(&mut self)
        requires
            old(self).left is Some,
            old(self).right is Some,
        ensures
            final(self).value == T::spec_op(
                old(self).left.unwrap().value,
                old(self).right.unwrap().value,
            ),
            final(self).left == old(self).left,
            final(self).right == old(self).right,
            final(self).start == old(self).start,
            final(self).end == old(self).end,
    {
        let l = self.left.as_ref().unwrap();
        let r = self.right.as_ref().unwrap();
        let v = T::op(&l.value, &r.value);
        self.value = v;
    }

    /// Descends to the leaf covering `index`, replaces its value with `val`,
    /// and recomputes every aggregate on the way back up.
    fn set_recursive(node: &mut Node<T>, index: usize, val: T)
        requires
            old(node).wf(),
            old(node).start <= index < old(node).end,
        ensures
            final(node).wf(),
            final(node).start == old(node).start,
            final(node).end == old(node).end,
            final(node).leaves() == old(node).leaves().update(index - old(node).start, val),
        decreases old(node).end - old(node).start,
    {
        if node.end - node.start == 1 {
            node.value = val;
            proof {
                lemma_fold_singleton(val);
                assert(node.leaves() =~= old(node).leaves().update(index - old(node).start, val));
            }
            return;
        }
        let mid: usize = node.start + (node.end - node.start) / 2;
        proof {
            old(node).left.unwrap().lemma_leaves_len();
            old(node).right.unwrap().lemma_leaves_len();
            assert(old(node).leaves() == old(node).left.unwrap().leaves()
                + old(node).right.unwrap().leaves());
        }
        if index < mid {
            let mut l = node.left.take().unwrap();
            Self::set_recursive(&mut *l, index, val);
            node.left = Some(l);
        } else {
            let mut r = node.right.take().unwrap();
            Self::set_recursive(&mut *r, index, val);
            node.right = Some(r);
        }
        node.update_value();
        proof {
            let l = node.left.unwrap();
            let r = node.right.unwrap();
            l.lemma_leaves_len();
            r.lemma_leaves_len();
            lemma_fold_concat::<T>(l.leaves(), r.leaves());
            assert(node.leaves() == l.leaves() + r.leaves());
            assert(node.leaves() =~= old(node).leaves().update(index - old(node).start, val));
            assert(l.wf());
            assert(r.wf());
            assert(node.wf());
        }
    }

    /// Recursively folds the leaf values whose indices fall in `[qs, qe)`,
    /// decomposing the query against this node's covered interval: no
    /// overlap contributes the identity, total containment contributes the
    /// stored aggregate, and partial overlap combines both children's
    /// contributions in left-then-right order.
    fn get_recursive(&self, qs: usize, qe: usize) -> (r: T)
        requires
            self.wf(),
        ensures
            r == seq_fold(clipped(self.leaves(), qs - self.start, qe - self.start)),
        decreases self.end - self.start,
    {
        proof {
            self.lemma_leaves_len();
        }
        // No overlap with the covered interval: the contribution is the identity.
        if qe <= self.start || qs >= self.end {
            proof {
                let empty = Seq::<T>::empty();
                assert(clipped(self.leaves(), qs - self.start, qe - self.start) =~= empty);
            }
            return T::id();
        }
        // Covered interval totally contained in the query: the stored
        // aggregate is the whole contribution. Combining with the identity on
        // the left hands back a copy of the stored value unchanged.
        if qs <= self.start && qe >= self.end {
            proof {
                assert(clipped(self.leaves(), qs - self.start, qe - self.start) =~= self.leaves());
                T::lemma_identity(self.value);
            }
            let id = T::id();
            return T::op(&id, &self.value);
        }
        // Partial overlap: this cannot happen at a leaf, so both children
        // exist; combine their contributions left-then-right.
        let l = self.left.as_ref().unwrap();
        let r = self.right.as_ref().unwrap();
        let left_part = l.get_recursive(qs, qe);
        let right_part = r.get_recursive(qs, qe);
        proof {
            l.lemma_leaves_len();
            lemma_clipped_concat(
                l.leaves(),
                r.leaves(),
                qs - self.start,
                qe - self.start,
            );
            lemma_fold_concat::<T>(
                clipped(l.leaves(), qs - l.start, qe - l.start),
                clipped(r.leaves(), qs - r.start, qe - r.start),
            );
            assert(self.leaves() == l.leaves() + r.leaves());
            assert(qs - r.start == (qs - self.start) - l.leaves().len());
            assert(qe - r.start == (qe - self.start) - l.leaves().len());
        }
        T::op(&left_part, &right_part)
    }
}

/// A range-query tree over a fixed index domain `[0, size)`, generic over the
/// combiner `T`. Every leaf starts at the identity; `set` replaces one leaf,
/// `get` folds a half-open range of leaves in left-to-right order.
pub struct SegmentTree<T: Monoid> {
    root: Option<Box<Node<T>>>,
}

impl<T: Monoid> SegmentTree<T> {
    /// The tree viewed abstractly: the sequence of its leaf values.
    pub closed spec fn spec_leaves(self) -> Seq<T> {
        match self.root {
            Some(node) => node.leaves(),
            None => Seq::empty(),
        }
    }

    #[verifier::type_invariant]
    spec fn well_formed(self) -> bool {
        match self.root {
            Some(node) => node.wf() && node.start == 0,
            None => true,
        }
    }

    /// Creates a tree for a sequence of `size` elements, every one the
    /// combiner's identity. A `size` of zero is legal and yields an empty
    /// tree.
    pub fn new(size: usize) -> (tree: Self)
        ensures
            tree@.len() == size,
            tree@ == identity_seq::<T>(size as nat),
    {
        let root = Node::<T>::new(0, size);
        proof {
            if size == 0 {
                assert(Seq::<T>::empty() =~= identity_seq::<T>(0));
            }
        }
        SegmentTree { root }
    }

    /// Replaces the value at `index` with `val` and recomputes every
    /// aggregate on the path from that leaf to the root. An `index` outside
    /// the domain leaves the tree unchanged.
    pub fn set(&mut self, index: usize, val: T)
        ensures
            index < old(self)@.len() ==> final(self)@ == old(self)@.update(index as int, val),
            index >= old(self)@.len() ==> final(self)@ == old(self)@,
    {
        proof {
            use_type_invariant(&*self);
        }
        let mut root = None;
        std::mem::swap(&mut root, &mut self.root);
        match root {
            None => {
                self.root = None;
            },
            Some(mut boxed) => {
                proof {
                    boxed.lemma_leaves_len();
                }
                if index < boxed.end {
                    Node::<T>::set_recursive(&mut *boxed, index, val);
                }
                self.root = Some(boxed);
            },
        }
    }

    /// Returns the fold, in left-to-right order, of every leaf value whose
    /// index lies in the half-open `query_range`. Out-of-domain bounds are
    /// clamped; an empty or reversed range, or an empty tree, yields the
    /// identity.
    pub fn get(&self, query_range: Range<usize>) -> (r: T)
        ensures
            r == range_fold(self@, query_range.start as int, query_range.end as int),
    {
        proof {
            use_type_invariant(&*self);
        }
        match &self.root {
            None => {
                proof {
                    assert(clipped(
                        self@,
                        query_range.start as int,
                        query_range.end as int,
                    ) =~= Seq::<T>::empty());
                }
                T::id()
            },
            Some(node) => node.get_recursive(query_range.start, query_range.end),
        }
    }
}

impl<T: Monoid> View for SegmentTree<T> {
    type V = Seq<T>;

    open spec fn view(&self) -> Seq<T> {
        self.spec_leaves()
    }
}

} // verus!
