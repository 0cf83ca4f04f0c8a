//! What every builder does about nulls.

use crate::array::Array;
use crate::bitmap::{bits_of, frozen_bits, slice_bits, Bitmap, MutableBitmap};
use crate::column::{has_nulls, lemma_count_nulls, Column};
use vstd::prelude::*;

verus! {

/// Whether one of `arrays` holds a null.
pub fn any_nulls<A: Array>(arrays: &Vec<&A>) -> (found: bool)
    requires
        forall|i: int| 0 <= i < arrays.len() ==> (#[trigger] arrays[i]).wf(),
    ensures
        found == exists|i: int|
            0 <= i < arrays.len() && has_nulls((#[trigger] arrays[i]).column().items()),
{
    let mut k: usize = 0;
    while k < arrays.len()
        invariant
            0 <= k <= arrays.len(),
            forall|i: int| 0 <= i < arrays.len() ==> (#[trigger] arrays[i]).wf(),
            forall|i: int| 0 <= i < k ==> !has_nulls((#[trigger] arrays[i]).column().items()),
        decreases arrays.len() - k,
    {
        proof {
            lemma_count_nulls(arrays[k as int].column().items());
        }
        if arrays[k].null_count() > 0 {
            return true;
        }
        k = k + 1;
    }
    false
}

/// The bitmap a new builder starts with: an empty one with room for
/// `capacity` bits if it tracks nulls, none if it does not.
pub fn prepare_validity(use_validity: bool, capacity: usize) -> (r: Option<MutableBitmap>)
    ensures
        r is Some <==> use_validity,
        r matches Some(bitmap) ==> bitmap@ == Seq::<bool>::empty(),
{
    if use_validity {
        Some(MutableBitmap::with_capacity(capacity))
    } else {
        None
    }
}

/// Appends to a builder's bitmap the validity of `len` items of a source, from
/// `start` on, where `validity` is the source's bitmap. A builder without a
/// bitmap stays without one.
pub fn extend_validity(
    mutable_validity: &mut Option<MutableBitmap>,
    validity: Option<&Bitmap>,
    start: usize,
    len: usize,
)
    requires
        validity matches Some(bitmap) ==> start + len <= bitmap@.len(),
    ensures
        bits_of(*final(mutable_validity)) == match bits_of(*old(mutable_validity)) {
            Some(bits) => Some(bits + slice_bits(frozen_bits(validity), start as int, len as int)),
            None => None,
        },
{
    match mutable_validity {
        Some(mutable_validity) => {
            match validity {
                None => mutable_validity.extend_constant(len, true),
                Some(validity) => mutable_validity.extend_from_bitmap(validity, start, len),
            }
        },
        None => {},
    }
}

} // verus!
