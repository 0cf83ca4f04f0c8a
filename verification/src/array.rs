//! Finished, read-only columns.

use crate::column::{count_nulls, Column};
use vstd::prelude::*;

pub mod map;
pub mod primitive;

verus! {

/// A column: a sequence of items, each of which is a value or null.
pub trait Array {
    /// The mathematical content of a column of this type.
    type Column: Column;

    /// The column's physical invariants hold.
    spec fn wf(&self) -> bool;

    /// What the column holds.
    spec fn column(&self) -> Self::Column;

    /// Whether the column declares the same type as `other`, at every depth.
    spec fn same_type(&self, other: &Self) -> bool;

    /// What a well-formed column holds is well-formed.
    proof fn lemma_wf(&self)
        requires
            self.wf(),
        ensures
            self.column().wf(),
    ;

    /// How many items the column has.
    fn len(&self) -> (n: usize)
        requires
            self.wf(),
        ensures
            n == self.column().items().len(),
    ;

    /// How many items of the column are null.
    fn null_count(&self) -> (n: usize)
        requires
            self.wf(),
        ensures
            n == count_nulls(self.column().items()),
    ;
}

} // verus!
