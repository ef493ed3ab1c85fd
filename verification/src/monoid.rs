//! The combiner capability: an identity value and an associative binary
//! operation, together with the laws that make the pair a monoid.

use vstd::prelude::*;

verus! {

/// A combiner: an identity value `id` and an associative binary operation
/// `op`, supplied to the tree at construction time through the type parameter.
///
/// The specification-level members `spec_id` and `spec_op` say what the
/// executable `id` and `op` compute; `lemma_identity` and `lemma_associative`
/// oblige every implementation to prove the monoid laws, so the tree never has
/// to take them on faith. Commutativity is not required anywhere: the tree
/// preserves left-to-right order.
pub trait Monoid: Sized {
    /// The identity value, at the specification level.
    spec fn spec_id() -> Self;

    /// The combining operation, at the specification level.
    spec fn spec_op(a: Self, b: Self) -> Self;

    /// `id` is a two-sided identity for `op`.
    proof fn lemma_identity(a: Self)
        ensures
            Self::spec_op(Self::spec_id(), a) == a,
            Self::spec_op(a, Self::spec_id()) == a,
    ;

    /// `op` is associative.
    proof fn lemma_associative(a: Self, b: Self, c: Self)
        ensures
            Self::spec_op(Self::spec_op(a, b), c) == Self::spec_op(a, Self::spec_op(b, c)),
    ;

    /// Returns the identity value.
    fn id() -> (r: Self)
        ensures
            r == Self::spec_id(),
    ;

    /// Combines two values.
    fn op(a: &Self, b: &Self) -> (r: Self)
        ensures
            r == Self::spec_op(*a, *b),
    ;
}

/// Sum of 64-bit integers, wrapping on overflow; the identity is 0.
#[derive(Clone, Copy, PartialEq, Eq, Debug)]
pub struct IntSum {
    pub val: i64,
}

impl Monoid for IntSum {
    open spec fn spec_id() -> Self {
        IntSum { val: 0 }
    }

    open spec fn spec_op(a: Self, b: Self) -> Self {
        IntSum { val: vstd::wrapping::i64_specs::wrapping_add(a.val, b.val) }
    }

    proof fn lemma_identity(a: Self) {
    }

    proof fn lemma_associative(a: Self, b: Self, c: Self) {
    }

    fn id() -> (r: Self) {
        IntSum { val: 0 }
    }

    fn op(a: &Self, b: &Self) -> (r: Self) {
        IntSum { val: a.val.wrapping_add(b.val) }
    }
}

/// Minimum of 64-bit integers; the identity is `i64::MAX`, which stands in
/// for positive infinity.
#[derive(Clone, Copy, PartialEq, Eq, Debug)]
pub struct IntMin {
    pub val: i64,
}

impl Monoid for IntMin {
    open spec fn spec_id() -> Self {
        IntMin { val: i64::MAX }
    }

    open spec fn spec_op(a: Self, b: Self) -> Self {
        if a.val <= b.val {
            a
        } else {
            b
        }
    }

    proof fn lemma_identity(a: Self) {
    }

    proof fn lemma_associative(a: Self, b: Self, c: Self) {
    }

    fn id() -> (r: Self) {
        IntMin { val: i64::MAX }
    }

    fn op(a: &Self, b: &Self) -> (r: Self) {
        if a.val <= b.val {
            IntMin { val: a.val }
        } else {
            IntMin { val: b.val }
        }
    }
}

/// The leftmost stored value, a non-commutative combiner: `op` keeps its left
/// argument whenever that argument holds a value. A fold of `Stored` leaves in
/// left-to-right order therefore returns the first leaf, which makes this
/// combiner a witness that the tree preserves operand order.
#[derive(Clone, Copy, PartialEq, Eq, Debug)]
pub enum Leftmost {
    Vacant,
    Stored(i64),
}

impl Monoid for Leftmost {
    open spec fn spec_id() -> Self {
        Leftmost::Vacant
    }

    open spec fn spec_op(a: Self, b: Self) -> Self {
        if a is Vacant {
            b
        } else {
            a
        }
    }

    proof fn lemma_identity(a: Self) {
    }

    proof fn lemma_associative(a: Self, b: Self, c: Self) {
    }

    fn id() -> (r: Self) {
        Leftmost::Vacant
    }

    fn op(a: &Self, b: &Self) -> (r: Self) {
        match a {
            Leftmost::Vacant => *b,
            Leftmost::Stored(v) => Leftmost::Stored(*v),
        }
    }
}

} // verus!
