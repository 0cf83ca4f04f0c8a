//! Columns of plain values.

use crate::array::Array;
use crate::bitmap::Bitmap;
use crate::column::{
    has_nulls, lemma_count_nulls_by_bits, lemma_count_nulls_none, Column, PrimitiveColumn,
};
use crate::error::Error;
use vstd::prelude::*;

verus! {

/// A column of plain values of one type, some of which may be null. A slot
/// that is null still holds a value; it is not part of the column's content.
pub struct PrimitiveArray<T> {
    values: Vec<T>,
    validity: Option<Bitmap>,
}

impl<T: Copy> PrimitiveArray<T> {
    /// The stored values, one per slot.
    pub closed spec fn spec_values(&self) -> Seq<T> {
        self.values@
    }

    /// The validity bits, one per slot, if the column has a bitmap.
    pub closed spec fn spec_validity(&self) -> Option<Seq<bool>> {
        match self.validity {
            Some(bitmap) => Some(bitmap@),
            None => None,
        }
    }

    /// Whether slot `i` is null.
    pub open spec fn is_null(&self, i: int) -> bool {
        self.spec_validity() matches Some(bits) && !bits[i]
    }

    /// A column of `values`, with nulls where `validity` has an unset bit.
    /// Fails with [`Error::ValidityLength`] exactly when there is a bitmap
    /// that does not hold one bit per value.
    pub fn try_new(values: Vec<T>, validity: Option<Bitmap>) -> (r: Result<Self, Error>)
        ensures
            r is Ok <==> (validity matches Some(bitmap) ==> bitmap@.len() == values@.len()),
            r matches Ok(array) ==> {
                &&& array.wf()
                &&& array.spec_values() == values@
                &&& array.spec_validity() == match validity {
                    Some(bitmap) => Some(bitmap@),
                    None => None,
                }
            },
            r matches Err(e) ==> e == Error::ValidityLength,
    {
        let fits = match &validity {
            Some(bitmap) => bitmap.len() == values.len(),
            None => true,
        };
        if fits {
            Ok(PrimitiveArray { values, validity })
        } else {
            Err(Error::ValidityLength)
        }
    }

    /// A column of `values`, with nulls where `validity` has an unset bit; a
    /// bitmap must hold one bit per value.
    pub fn new(values: Vec<T>, validity: Option<Bitmap>) -> (array: Self)
        requires
            validity matches Some(bitmap) ==> bitmap@.len() == values@.len(),
        ensures
            array.wf(),
            array.spec_values() == values@,
            array.spec_validity() == match validity {
                Some(bitmap) => Some(bitmap@),
                None => None,
            },
    {
        PrimitiveArray { values, validity }
    }

    /// The value stored in slot `i`, whether the slot is null or not.
    pub fn value(&self, i: usize) -> (v: T)
        requires
            self.wf(),
            i < self.column().items().len(),
        ensures
            v == self.spec_values()[i as int],
    {
        self.values[i]
    }

    /// Whether slot `i` holds a value that counts.
    pub fn is_valid(&self, i: usize) -> (b: bool)
        requires
            self.wf(),
            i < self.column().items().len(),
        ensures
            b == !self.is_null(i as int),
            b == (self.column().items()[i as int] is Some),
    {
        match &self.validity {
            Some(bitmap) => bitmap.get_bit(i),
            None => true,
        }
    }

    /// The item in slot `i`.
    pub fn get(&self, i: usize) -> (item: Option<T>)
        requires
            self.wf(),
            i < self.column().items().len(),
        ensures
            item == self.column().items()[i as int],
    {
        if self.is_valid(i) {
            Some(self.values[i])
        } else {
            None
        }
    }

    /// The validity bitmap, if the column has one.
    pub fn validity(&self) -> (r: Option<&Bitmap>)
        ensures
            match r {
                Some(bitmap) => self.spec_validity() == Some(bitmap@),
                None => self.spec_validity() is None,
            },
    {
        self.validity.as_ref()
    }
}

impl<T: Copy> Array for PrimitiveArray<T> {
    type Column = PrimitiveColumn<T>;

    /// A validity bitmap, if there is one, has one bit per value.
    open spec fn wf(&self) -> bool {
        self.spec_validity() matches Some(bits) ==> bits.len() == self.spec_values().len()
    }

    /// The stored values where the validity bitmap does not mark a null, and
    /// whether there is a bitmap.
    open spec fn column(&self) -> PrimitiveColumn<T> {
        PrimitiveColumn {
            slots: Seq::new(
                self.spec_values().len(),
                |i: int|
                    if self.is_null(i) {
                        None
                    } else {
                        Some(self.spec_values()[i])
                    },
            ),
            nullable: self.spec_validity() is Some,
        }
    }

    /// Columns of plain values of one type declare nothing beyond it.
    open spec fn same_type(&self, other: &Self) -> bool {
        true
    }

    proof fn lemma_wf(&self) {
        if has_nulls(self.column().items()) {
            let i = choose|i: int|
                0 <= i < self.column().items().len() && self.column().items()[i] is None;
            assert(self.is_null(i));
        }
    }

    fn len(&self) -> (n: usize) {
        self.values.len()
    }

    fn null_count(&self) -> (n: usize) {
        match &self.validity {
            Some(bitmap) => {
                proof {
                    lemma_count_nulls_by_bits(self.column().items(), bitmap@);
                }
                bitmap.unset_bits()
            },
            None => {
                proof {
                    lemma_count_nulls_none(self.column().items());
                }
                0
            },
        }
    }
}

} // verus!
