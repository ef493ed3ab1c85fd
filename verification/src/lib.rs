//! A range-query tree: point update and range aggregate query over an
//! abstract associative, identity-bearing combining operation.
//!
//! The tree is generic over a [`monoid::Monoid`]: a combiner supplying an
//! identity value and an associative binary operation. Construction builds a
//! balanced binary tree over the index domain `[0, size)`; `set` replaces one
//! leaf and recomputes the aggregates on the path to the root; `get` folds the
//! leaf values of an arbitrary half-open index range in left-to-right order.

pub mod fold;
pub mod monoid;
pub mod tree;

pub use crate::monoid::Monoid;
pub use crate::tree::SegmentTree;
