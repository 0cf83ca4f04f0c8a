//! The builder of columns of plain values.

use crate::array::primitive::PrimitiveArray;
use crate::array::Array;
use crate::bitmap::{bits_of, slice_bits, MutableBitmap};
use crate::column::{has_nulls, nulls, Column, PrimitiveColumn};
use crate::growable::utils::{any_nulls, extend_validity, prepare_validity};
use crate::growable::Growable;
use std::sync::Arc;
use vstd::prelude::*;

verus! {

/// A builder of a [`PrimitiveArray`] out of ranges of other such columns.
pub struct GrowablePrimitive<'a, T> {
    arrays: Vec<&'a PrimitiveArray<T>>,
    validity: Option<MutableBitmap>,
    values: Vec<T>,
}

impl<'a, T: Copy + Default> GrowablePrimitive<'a, T> {
    /// The values gathered so far, one per slot.
    pub closed spec fn spec_values(&self) -> Seq<T> {
        self.values@
    }

    /// The validity bits gathered so far, if nulls are tracked.
    pub closed spec fn spec_validity(&self) -> Option<Seq<bool>> {
        bits_of(self.validity)
    }

    /// Whether slot `i` is null.
    pub open spec fn is_null(&self, i: int) -> bool {
        self.spec_validity() matches Some(bits) && !bits[i]
    }

    /// An empty builder bound to `arrays`, with room for `capacity` values.
    /// It tracks nulls if asked to, and in any case if a source holds a null.
    pub fn new(arrays: Vec<&'a PrimitiveArray<T>>, use_validity: bool, capacity: usize) -> (g: Self)
        requires
            arrays.len() > 0,
            forall|i: int| 0 <= i < arrays.len() ==> (#[trigger] arrays[i]).wf(),
        ensures
            g.wf(),
            g.sources() == Seq::new(arrays.len() as nat, |i: int| *arrays[i]),
            g.column() == PrimitiveColumn::fresh(
                use_validity,
                Seq::new(arrays.len() as nat, |i: int| arrays[i].column()),
            ),
            g.column() == g.column().drained(),
            g.column().nullable == (use_validity || exists|i: int|
                0 <= i < arrays.len() && has_nulls((#[trigger] arrays[i]).column().items())),
    {
        let use_validity = use_validity || any_nulls(&arrays);
        let g = GrowablePrimitive {
            arrays,
            validity: prepare_validity(use_validity, capacity),
            values: Vec::with_capacity(capacity),
        };
        proof {
            let columns = Seq::new(arrays.len() as nat, |i: int| arrays[i].column());
            if exists|i: int|
                0 <= i < arrays.len() && has_nulls((#[trigger] arrays[i]).column().items()) {
                let i = choose|i: int|
                    0 <= i < arrays.len() && has_nulls((#[trigger] arrays[i]).column().items());
                assert(has_nulls(columns[i].slots));
            }
            if exists|i: int| 0 <= i < columns.len() && has_nulls((#[trigger] columns[i]).slots) {
                let i = choose|i: int|
                    0 <= i < columns.len() && has_nulls((#[trigger] columns[i]).slots);
                assert(has_nulls(arrays[i].column().items()));
            }
            assert(g.column().slots =~= Seq::<Option<T>>::empty());
        }
        g
    }

    /// Takes the gathered values out as a finished column. The builder is
    /// left empty, bound to the same sources and tracking nulls as before.
    pub fn to(&mut self) -> (array: PrimitiveArray<T>)
        requires
            old(self).wf(),
        ensures
            array.wf(),
            array.column() == old(self).column(),
            array.spec_values() == old(self).spec_values(),
            array.spec_validity() == old(self).spec_validity(),
            final(self).wf(),
            final(self).sources() == old(self).sources(),
            final(self).column() == old(self).column().drained(),
    {
        let validity = match self.validity.take() {
            Some(bitmap) => {
                self.validity = Some(MutableBitmap::new());
                Some(bitmap.freeze())
            },
            None => None,
        };
        let mut values: Vec<T> = Vec::new();
        std::mem::swap(&mut values, &mut self.values);
        let array = PrimitiveArray::new(values, validity);
        assert(self.sources() == old(self).sources());
        assert(array.column().items() =~= old(self).column().items());
        assert(self.column().items() =~= Seq::<Option<T>>::empty());
        array
    }
}

impl<'a, T: Copy + Default> Growable<'a, PrimitiveArray<T>> for GrowablePrimitive<'a, T> {
    /// There is a source and every source is well-formed, a validity bitmap,
    /// if there is one, has one bit per value, and without one no source has
    /// a null.
    open spec fn wf(&self) -> bool {
        &&& self.sources().len() > 0
        &&& forall|i: int| 0 <= i < self.sources().len() ==> (#[trigger] self.sources()[i]).wf()
        &&& self.spec_validity() matches Some(bits) ==> bits.len() == self.spec_values().len()
        &&& self.spec_validity() is Some || forall|i: int|
            0 <= i < self.sources().len() ==> !has_nulls(
                (#[trigger] self.sources()[i]).column().items(),
            )
    }

    closed spec fn sources(&self) -> Seq<PrimitiveArray<T>> {
        Seq::new(self.arrays@.len(), |i: int| *self.arrays@[i])
    }

    /// The gathered values where the validity bitmap does not mark a null,
    /// and whether there is a bitmap.
    open spec fn column(&self) -> PrimitiveColumn<T> {
        PrimitiveColumn {
            slots: Seq::new(
                self.spec_values().len(),
                |i: int|
                    if self.is_null(i) {
                        None
                    } else {
                        Some(self.spec_values()[i])
                    },
            ),
            nullable: self.spec_validity() is Some,
        }
    }

    proof fn lemma_wf(&self) {
    }

    fn make(arrays: Vec<&'a PrimitiveArray<T>>, use_validity: bool, capacity: usize) -> (g: Self) {
        Self::new(arrays, use_validity, capacity)
    }

    /// Appends the values of the range, and its validity bits where nulls are
    /// tracked (all set for a source without bitmap).
    fn extend(&mut self, index: usize, start: usize, len: usize)
        ensures
            final(self).spec_values() == old(self).spec_values() + old(
                self,
            ).sources()[index as int].spec_values().subrange(start as int, start + len),
            final(self).spec_validity() == match old(self).spec_validity() {
                Some(bits) => Some(
                    bits + slice_bits(
                        old(self).sources()[index as int].spec_validity(),
                        start as int,
                        len as int,
                    ),
                ),
                None => None,
            },
    {
        let array = self.arrays[index];
        let total = array.len();
        extend_validity(&mut self.validity, array.validity(), start, len);
        let ghost before = old(self).spec_values();
        let ghost grown = self.spec_validity();
        assert(grown == match old(self).spec_validity() {
            Some(bits) => Some(bits + slice_bits(array.spec_validity(), start as int, len as int)),
            None => None,
        });
        let mut k: usize = 0;
        while k < len
            invariant
                0 <= k <= len,
                array.wf(),
                total == array.column().items().len(),
                start + len <= total,
                self.arrays == old(self).arrays,
                self.spec_validity() == grown,
                self.spec_values() == before + array.spec_values().subrange(
                    start as int,
                    start + k,
                ),
            decreases len - k,
        {
            let ghost prev = self.values@;
            self.values.push(array.value(start + k));
            assert(prev.push(array.spec_values()[start + k]) =~= before
                + array.spec_values().subrange(start as int, start + k + 1));
            k = k + 1;
        }
        proof {
            let items = self.column().items();
            let expected = old(self).column().items() + array.column().items().subrange(
                start as int,
                start + len,
            );
            assert(self.sources() == old(self).sources());
            assert(items.len() == expected.len());
            assert forall|i: int| 0 <= i < items.len() implies items[i] == expected[i] by {
                if i >= before.len() {
                    let j = start + (i - before.len());
                    assert(self.spec_values()[i] == array.spec_values()[j]);
                    if old(self).spec_validity() is None {
                        assert(!has_nulls(array.column().items()));
                        assert(array.column().items()[j] is Some);
                    }
                }
            }
            assert(items =~= expected);
        }
    }

    /// Appends `additional` unset bits, and below them as many values that
    /// do not count.
    fn extend_validity(&mut self, additional: usize) {
        let filler = T::default();
        let ghost before = old(self).spec_values();
        let mut k: usize = 0;
        while k < additional
            invariant
                0 <= k <= additional,
                self.arrays == old(self).arrays,
                self.validity == old(self).validity,
                self.spec_values() == before + Seq::new(k as nat, |m: int| filler),
            decreases additional - k,
        {
            let ghost prev = self.values@;
            self.values.push(filler);
            assert(prev.push(filler) =~= before + Seq::new((k + 1) as nat, |m: int| filler));
            k = k + 1;
        }
        match &mut self.validity {
            Some(validity) => validity.extend_constant(additional, false),
            None => {},
        }
        proof {
            assert(self.sources() == old(self).sources());
            assert(self.column().items() =~= old(self).column().items() + nulls(additional as nat));
        }
    }

    fn len(&self) -> (n: usize) {
        self.values.len()
    }

    fn as_arc(&mut self) -> (array: Arc<PrimitiveArray<T>>) {
        Arc::new(self.to())
    }

    fn as_box(&mut self) -> (array: Box<PrimitiveArray<T>>) {
        Box::new(self.to())
    }
}

} // verus!
