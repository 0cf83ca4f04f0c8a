//! The ways in which building a column can fail.

use vstd::prelude::*;

verus! {

/// Why a column or a sequence of boundaries was refused.
#[derive(Clone, Copy, Debug, PartialEq, Eq)]
pub enum Error {
    /// A boundary would exceed the largest value an `i32` holds.
    Overflow,
    /// The boundaries are empty, start below zero, or decrease somewhere.
    InvalidOffsets,
    /// The last boundary points past the end of the child column.
    OffsetsExceedValues,
    /// The validity bitmap does not hold one bit per entry.
    ValidityLength,
}

} // verus!
