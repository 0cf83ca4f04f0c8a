//! Map columns: entries that each own a range of a flat child column.

use crate::array::Array;
use crate::bitmap::Bitmap;
use crate::column::{lemma_count_nulls_by_bits, lemma_count_nulls_none, Column, MapColumn};
use crate::error::Error;
use crate::offset::OffsetsBuffer;
use vstd::prelude::*;

verus! {

/// The declared type of a map column, beyond the type of its child column:
/// whether the keys of every entry are sorted.
#[derive(Clone, Copy, Debug, PartialEq, Eq)]
pub struct MapType {
    pub keys_sorted: bool,
}

/// A finished map column over a child column of type `A`.
pub struct MapArray<A: Array> {
    data_type: MapType,
    offsets: OffsetsBuffer,
    field: Box<A>,
    validity: Option<Bitmap>,
}

impl<A: Array> MapArray<A> {
    /// The declared type of the column.
    pub closed spec fn spec_data_type(&self) -> MapType {
        self.data_type
    }

    /// The child column.
    pub closed spec fn spec_field(&self) -> A {
        *self.field
    }

    /// The boundaries of the entries.
    pub closed spec fn spec_offsets(&self) -> Seq<int> {
        self.offsets@
    }

    /// The validity bits, one per entry, if the column has a bitmap.
    pub closed spec fn spec_validity(&self) -> Option<Seq<bool>> {
        match self.validity {
            Some(bitmap) => Some(bitmap@),
            None => None,
        }
    }

    /// A map column of the given parts. Fails with
    /// [`Error::OffsetsExceedValues`] exactly when the last boundary points
    /// past the end of `field`, and otherwise with [`Error::ValidityLength`]
    /// exactly when there is a bitmap that does not hold one bit per entry.
    pub fn try_new(
        data_type: MapType,
        offsets: OffsetsBuffer,
        field: Box<A>,
        validity: Option<Bitmap>,
    ) -> (r: Result<Self, Error>)
        requires
            offsets.wf(),
            field.wf(),
        ensures
            r is Ok <==> {
                &&& offsets@.last() <= field.column().items().len()
                &&& validity matches Some(bitmap) ==> bitmap@.len() == offsets@.len() - 1
            },
            r matches Ok(array) ==> {
                &&& array.wf()
                &&& array.spec_data_type() == data_type
                &&& array.spec_offsets() == offsets@
                &&& array.spec_field() == *field
                &&& array.spec_validity() == match validity {
                    Some(bitmap) => Some(bitmap@),
                    None => None,
                }
            },
            r matches Err(e) ==> (e == Error::OffsetsExceedValues <==> offsets@.last()
                > field.column().items().len()),
            r matches Err(e) ==> (e == Error::ValidityLength <==> offsets@.last()
                <= field.column().items().len()),
    {
        let last = offsets.last();
        if last as usize > field.len() {
            return Err(Error::OffsetsExceedValues);
        }
        let fits = match &validity {
            Some(bitmap) => bitmap.len() == offsets.len_proxy(),
            None => true,
        };
        if !fits {
            return Err(Error::ValidityLength);
        }
        proof {
            field.lemma_wf();
        }
        Ok(MapArray { data_type, offsets, field, validity })
    }

    /// A map column of the given parts, which must fit together.
    pub fn new(
        data_type: MapType,
        offsets: OffsetsBuffer,
        field: Box<A>,
        validity: Option<Bitmap>,
    ) -> (array: Self)
        requires
            offsets.wf(),
            field.wf(),
            offsets@.last() <= field.column().items().len(),
            validity matches Some(bitmap) ==> bitmap@.len() == offsets@.len() - 1,
        ensures
            array.wf(),
            array.spec_data_type() == data_type,
            array.spec_offsets() == offsets@,
            array.spec_field() == *field,
            array.spec_validity() == match validity {
                Some(bitmap) => Some(bitmap@),
                None => None,
            },
    {
        proof {
            field.lemma_wf();
        }
        MapArray { data_type, offsets, field, validity }
    }

    /// The declared type of the column.
    pub fn data_type(&self) -> (r: &MapType)
        ensures
            *r == self.spec_data_type(),
    {
        &self.data_type
    }

    /// The boundaries of the entries.
    pub fn offsets(&self) -> (r: &OffsetsBuffer)
        ensures
            r@ == self.spec_offsets(),
            self.wf() ==> r.wf(),
    {
        &self.offsets
    }

    /// The child column.
    pub fn field(&self) -> (r: &Box<A>)
        ensures
            **r == self.spec_field(),
    {
        &self.field
    }

    /// The validity bitmap, if the column has one.
    pub fn validity(&self) -> (r: Option<&Bitmap>)
        ensures
            match r {
                Some(bitmap) => self.spec_validity() == Some(bitmap@),
                None => self.spec_validity() is None,
            },
    {
        self.validity.as_ref()
    }

    /// Whether entry `i` is not null.
    pub fn is_valid(&self, i: usize) -> (b: bool)
        requires
            self.wf(),
            i < self.column().len(),
        ensures
            b == !self.column().is_null(i as int),
    {
        match &self.validity {
            Some(bitmap) => bitmap.get_bit(i),
            None => true,
        }
    }
}

impl<A: Array> Array for MapArray<A> {
    type Column = MapColumn<A::Column>;

    /// What the column holds is well-formed, and so is the child column.
    open spec fn wf(&self) -> bool {
        &&& self.column().wf()
        &&& self.spec_field().wf()
    }

    /// The boundaries, the validity bits, and what the child column holds.
    open spec fn column(&self) -> MapColumn<A::Column> {
        MapColumn {
            offsets: self.spec_offsets(),
            validity: self.spec_validity(),
            values: self.spec_field().column(),
        }
    }

    /// The two columns declare the same map type, and their child columns
    /// declare the same type.
    open spec fn same_type(&self, other: &Self) -> bool {
        &&& self.spec_data_type() == other.spec_data_type()
        &&& self.spec_field().same_type(&other.spec_field())
    }

    proof fn lemma_wf(&self) {
    }

    fn len(&self) -> (n: usize) {
        self.offsets.len_proxy()
    }

    fn null_count(&self) -> (n: usize) {
        match &self.validity {
            Some(bitmap) => {
                proof {
                    lemma_count_nulls_by_bits(self.column().entries(), bitmap@);
                }
                bitmap.unset_bits()
            },
            None => {
                proof {
                    lemma_count_nulls_none(self.column().entries());
                }
                0
            },
        }
    }
}

} // verus!
