//! Indices into sparse sets.

use vstd::prelude::*;

verus! {

/// A value that can address a sparse set, and be rebuilt from the address.
pub trait SparseSetIndex: Sized {
    /// The position of this value in a sparse set.
    fn sparse_set_index(&self) -> usize;

    /// The value kept at the given position of a sparse set.
    fn get_sparse_set_index(value: usize) -> Self;
}

} // verus!
