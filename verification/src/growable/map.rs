//! The builder of map columns.

use crate::array::map::MapArray;
use crate::array::Array;
use crate::bitmap::{bits_of, slice_bits, MutableBitmap};
use crate::column::{has_nulls, nulls, Column, MapColumn};
use crate::growable::utils::{any_nulls, extend_validity, prepare_validity};
use crate::growable::Growable;
use crate::offset::{is_boundaries, rebase, Offsets};
use std::sync::Arc;
use vstd::prelude::*;

verus! {

/// Appends to `growable` the boundaries and the child items of the `len`
/// entries of source `index` that start at entry `start`; the validity bitmap
/// is left as it is.
///
/// The new boundaries continue from the last boundary of `growable`, each as
/// far above it as the source's boundary lies above the source's boundary at
/// `start`. The child builder is extended by exactly the child items between
/// the source's boundaries at `start` and at `start + len`.
pub fn extend_offset_values<'a, A: Array, G: Growable<'a, A>>(
    growable: &mut GrowableMap<'a, A, G>,
    index: usize,
    start: usize,
    len: usize,
)
    requires
        old(growable).wf_offsets_values(),
        index < old(growable).sources().len(),
        old(growable).column().can_append_slice(
            old(growable).source(index as int),
            start as int,
            len as int,
        ),
    ensures
        final(growable).wf_offsets_values(),
        final(growable).sources() == old(growable).sources(),
        final(growable).spec_validity() == old(growable).spec_validity(),
        final(growable).spec_offsets() == old(growable).spec_offsets() + rebase(
            old(growable).spec_offsets().last(),
            old(growable).source(index as int).offsets,
            start as int,
            len as int,
        ),
        final(growable).spec_values().column() == old(growable).spec_values().column().append_slice(
            old(growable).source(index as int).values,
            old(growable).source(index as int).child_start(start as int),
            old(growable).source(index as int).child_len(start as int, len as int),
        ),
{
    let array = growable.arrays[index];
    let offsets = array.offsets();
    let ghost src = array.column();
    let ghost child = old(growable).spec_values().column();
    let ghost first: int = start as int;
    let ghost count: int = len as int;
    proof {
        assert(src.offsets[first] <= src.offsets[first + count]);
        assert(src.offsets[first + count] <= src.offsets.last());
        old(growable).spec_values().lemma_wf();
        assert(old(growable).spec_values().sources()[index as int] == array.spec_field());
        array.lemma_wf();
        child.lemma_append_slice(
            src.values,
            src.child_start(first),
            src.child_len(first, count),
        );
    }

    growable.offsets.try_extend_from_slice(offsets, start, len).unwrap();

    let buffer = offsets.buffer();
    assert(buffer.len() == src.offsets.len());
    let end = buffer[start + len] as usize;
    let start = buffer[start] as usize;
    let len = end - start;
    growable.values.extend(index, start, len);
}

/// A builder of a [`MapArray`] out of ranges of other map columns over the
/// same type `A` of child column.
///
/// It keeps three things in step: the boundaries of the entries gathered so
/// far, their validity bits where nulls are tracked, and a builder `G` of the
/// child column, which at any time holds as many items as the last boundary
/// says.
pub struct GrowableMap<'a, A: Array, G: Growable<'a, A>> {
    arrays: Vec<&'a MapArray<A>>,
    validity: Option<MutableBitmap>,
    values: G,
    offsets: Offsets,
}

impl<'a, A: Array, G: Growable<'a, A>> GrowableMap<'a, A, G> {
    /// The builder of the child column.
    pub closed spec fn spec_values(&self) -> G {
        self.values
    }

    /// The boundaries gathered so far.
    pub closed spec fn spec_offsets(&self) -> Seq<int> {
        self.offsets@
    }

    /// The validity bits gathered so far, if nulls are tracked.
    pub closed spec fn spec_validity(&self) -> Option<Seq<bool>> {
        bits_of(self.validity)
    }

    /// What source `index` holds.
    pub open spec fn source(&self, index: int) -> MapColumn<A::Column> {
        self.sources()[index].column()
    }

    /// The invariants that tie the boundaries to the child builder and the
    /// child builder to the sources: there is a source and every source is
    /// well-formed, the boundaries start at zero and never decrease, the child
    /// builder is well-formed and holds as many items as the last boundary
    /// says, and it is bound to the child columns of the sources, in the same
    /// order.
    pub open spec fn wf_offsets_values(&self) -> bool {
        &&& self.sources().len() > 0
        &&& forall|i: int| 0 <= i < self.sources().len() ==> (#[trigger] self.sources()[i]).wf()
        &&& is_boundaries(self.spec_offsets())
        &&& self.spec_offsets()[0] == 0
        &&& self.spec_offsets().last() == self.spec_values().column().items().len()
        &&& self.spec_values().wf()
        &&& self.spec_values().sources() == Seq::new(
            self.sources().len(),
            |i: int| self.sources()[i].spec_field(),
        )
    }

    /// An empty builder bound to `arrays`, with room for the boundaries of
    /// `capacity` entries.
    ///
    /// It tracks nulls if `use_validity` asks for it, and in any case if one
    /// of the sources holds a null entry. The child builder is bound to the
    /// child columns of `arrays`, is asked for no room in advance, and tracks
    /// nulls wherever this builder does.
    pub fn new(arrays: Vec<&'a MapArray<A>>, use_validity: bool, capacity: usize) -> (g: Self)
        requires
            arrays.len() > 0,
            forall|i: int| 0 <= i < arrays.len() ==> (#[trigger] arrays[i]).wf(),
            forall|i: int| 0 <= i < arrays.len() ==> (#[trigger] arrays[i]).same_type(arrays[0]),
        ensures
            g.wf(),
            g.sources() == Seq::new(arrays.len() as nat, |i: int| *arrays[i]),
            g.column() == MapColumn::fresh(
                use_validity,
                Seq::new(arrays.len() as nat, |i: int| arrays[i].column()),
            ),
            g.column() == g.column().drained(),
            g.column().offsets == seq![0int],
            g.column().items() == Seq::<Option<Seq<Option<<A::Column as Column>::Value>>>>::empty(),
            g.column().tracks_validity() == (use_validity || exists|i: int|
                0 <= i < arrays.len() && has_nulls((#[trigger] arrays[i]).column().items())),
            g.column().values.tracks_validity() == (g.column().tracks_validity() || exists|i: int|
                0 <= i < arrays.len() && has_nulls(
                    (#[trigger] arrays[i]).spec_field().column().items(),
                )),
    {
        // one source with a null is enough: every entry then needs a bit
        let use_validity = use_validity || any_nulls(&arrays);
        let mut inner: Vec<&'a A> = Vec::with_capacity(arrays.len());
        let mut k: usize = 0;
        while k < arrays.len()
            invariant
                0 <= k <= arrays.len(),
                inner.len() == k,
                forall|i: int| 0 <= i < k ==> *(#[trigger] inner[i]) == arrays[i].spec_field(),
            decreases arrays.len() - k,
        {
            inner.push(&**arrays[k].field());
            k = k + 1;
        }
        assert forall|i: int| 0 <= i < inner.len() implies (#[trigger] inner[i]).wf() by {
            assert(arrays[i].wf());
        }
        let values = G::make(inner, use_validity, 0);
        let g = GrowableMap {
            arrays,
            offsets: Offsets::with_capacity(capacity),
            values,
            validity: prepare_validity(use_validity, capacity),
        };
        proof {
            let columns = Seq::new(arrays.len() as nat, |i: int| arrays[i].column());
            if exists|i: int|
                0 <= i < arrays.len() && has_nulls((#[trigger] arrays[i]).column().items()) {
                let i = choose|i: int|
                    0 <= i < arrays.len() && has_nulls((#[trigger] arrays[i]).column().items());
                assert(has_nulls(columns[i].entries()));
            }
            if exists|i: int|
                0 <= i < columns.len() && has_nulls((#[trigger] columns[i]).entries()) {
                let i = choose|i: int|
                    0 <= i < columns.len() && has_nulls((#[trigger] columns[i]).entries());
                assert(has_nulls(arrays[i].column().items()));
            }
            assert(Seq::new(inner.len() as nat, |i: int| inner[i].column()) =~= Seq::new(
                columns.len(),
                |i: int| columns[i].values,
            ));
            g.spec_values().column().lemma_drained();
            assert(g.spec_values().sources() =~= Seq::new(
                g.sources().len(),
                |i: int| g.sources()[i].spec_field(),
            ));
            assert(g.column().validity == g.column().drained().validity);
            g.column().lemma_drained();
            if exists|i: int|
                0 <= i < inner.len() && has_nulls((#[trigger] inner[i]).column().items()) {
                let i = choose|i: int|
                    0 <= i < inner.len() && has_nulls((#[trigger] inner[i]).column().items());
                assert(has_nulls(arrays[i].spec_field().column().items()));
            }
            if exists|i: int|
                0 <= i < arrays.len() && has_nulls(
                    (#[trigger] arrays[i]).spec_field().column().items(),
                ) {
                let i = choose|i: int|
                    0 <= i < arrays.len() && has_nulls(
                        (#[trigger] arrays[i]).spec_field().column().items(),
                    );
                assert(has_nulls(inner[i].column().items()));
            }
        }
        g
    }

    /// Takes the gathered entries out as a finished column of the type that
    /// the sources declare: the same boundaries, the same validity bits where
    /// nulls are tracked, and the child column that the child builder
    /// finishes into.
    ///
    /// The builder is left empty, bound to the same sources and tracking nulls
    /// as before: finishing it again right away gives a column without
    /// entries.
    pub fn to(&mut self) -> (array: MapArray<A>)
        requires
            old(self).wf(),
        ensures
            array.wf(),
            array.column() == old(self).column(),
            array.spec_data_type() == old(self).sources()[0].spec_data_type(),
            array.same_type(&old(self).sources()[0]),
            final(self).wf(),
            final(self).sources() == old(self).sources(),
            final(self).column() == old(self).column().drained(),
    {
        let validity = match self.validity.take() {
            Some(bitmap) => {
                self.validity = Some(MutableBitmap::new());
                Some(bitmap.freeze())
            },
            None => None,
        };
        let mut offsets = Offsets::new();
        std::mem::swap(&mut offsets, &mut self.offsets);
        let values = self.values.as_box();

        let array = MapArray::new(*self.arrays[0].data_type(), offsets.freeze(), values, validity);
        proof {
            old(self).spec_values().column().lemma_drained();
            old(self).spec_values().lemma_wf();
            old(self).spec_values().column().lemma_compact_is_wf();
            assert(self.column().validity == old(self).column().drained().validity);
        }
        array
    }

    /// Finishes the builder into the column it holds, of the type that the
    /// sources declare.
    pub fn into_array(self) -> (array: MapArray<A>)
        requires
            self.wf(),
        ensures
            array.wf(),
            array.column() == self.column(),
            array.spec_data_type() == self.sources()[0].spec_data_type(),
            array.same_type(&self.sources()[0]),
    {
        let mut val = self;
        val.to()
    }
}

impl<'a, A: Array, G: Growable<'a, A>> Growable<'a, MapArray<A>> for GrowableMap<'a, A, G> {
    /// The boundaries, the child builder and the sources are tied together,
    /// all sources declare the same type, the validity bitmap, if there is
    /// one, has one bit per entry, and without one no source has a null
    /// entry.
    open spec fn wf(&self) -> bool {
        &&& self.wf_offsets_values()
        &&& forall|i: int|
            0 <= i < self.sources().len() ==> (#[trigger] self.sources()[i]).same_type(
                &self.sources()[0],
            )
        &&& self.spec_validity() matches Some(bits) ==> bits.len() == self.spec_offsets().len() - 1
        &&& self.spec_validity() is Some || forall|i: int|
            0 <= i < self.sources().len() ==> !has_nulls(
                (#[trigger] self.sources()[i]).column().items(),
            )
    }

    closed spec fn sources(&self) -> Seq<MapArray<A>> {
        Seq::new(self.arrays@.len(), |i: int| *self.arrays@[i])
    }

    /// The boundaries and the validity bits gathered so far, and what the
    /// child builder holds.
    open spec fn column(&self) -> MapColumn<A::Column> {
        MapColumn {
            offsets: self.spec_offsets(),
            validity: self.spec_validity(),
            values: self.spec_values().column(),
        }
    }

    proof fn lemma_wf(&self) {
        self.spec_values().lemma_wf();
        assert forall|i: int| 0 <= i < self.sources().len() implies self.column().covers(
            (#[trigger] self.sources()[i]).column(),
        ) by {
            self.sources()[i].column().lemma_has_nulls();
            assert(self.spec_values().sources()[i] == self.sources()[i].spec_field());
        }
    }

    /// An empty builder bound to `arrays`: what [`GrowableMap::new`] gives.
    fn make(arrays: Vec<&'a MapArray<A>>, use_validity: bool, capacity: usize) -> (g: Self)
        ensures
            g.column().offsets == seq![0int],
            g.column().items() == Seq::<Option<Seq<Option<<A::Column as Column>::Value>>>>::empty(),
            g.column().values.tracks_validity() == (g.column().tracks_validity() || exists|i: int|
                0 <= i < arrays.len() && has_nulls(
                    (#[trigger] arrays[i]).spec_field().column().items(),
                )),
    {
        Self::new(arrays, use_validity, capacity)
    }

    /// Appends the `len` entries of source `index` that start at entry
    /// `start`: their validity bits where nulls are tracked (all set for a
    /// source without bitmap), their boundaries, rebased on the last boundary
    /// gathered so far, and the child items they own.
    fn extend(&mut self, index: usize, start: usize, len: usize)
        ensures
            final(self).spec_validity() == match old(self).spec_validity() {
                Some(bits) => Some(
                    bits + slice_bits(
                        old(self).source(index as int).validity,
                        start as int,
                        len as int,
                    ),
                ),
                None => None,
            },
            final(self).spec_offsets() == old(self).spec_offsets() + rebase(
                old(self).spec_offsets().last(),
                old(self).source(index as int).offsets,
                start as int,
                len as int,
            ),
            final(self).spec_values().column() == old(self).spec_values().column().append_slice(
                old(self).source(index as int).values,
                old(self).source(index as int).child_start(start as int),
                old(self).source(index as int).child_len(start as int, len as int),
            ),
    {
        let array = self.arrays[index];
        extend_validity(&mut self.validity, array.validity(), start, len);
        extend_offset_values(self, index, start, len);
    }

    /// Appends `additional` null entries: that many copies of the last
    /// boundary, so that none of them owns a child item, and that many unset
    /// bits. The child builder is not touched. The builder must track nulls,
    /// unless there are no entries to append.
    fn extend_validity(&mut self, additional: usize)
        ensures
            final(self).spec_validity() == match old(self).spec_validity() {
                Some(bits) => Some(bits + Seq::new(additional as nat, |k: int| false)),
                None => None,
            },
            final(self).spec_offsets() == old(self).spec_offsets() + Seq::new(
                additional as nat,
                |k: int| old(self).spec_offsets().last(),
            ),
            final(self).spec_values() == old(self).spec_values(),
            final(self).column().items() == old(self).column().items() + nulls(additional as nat),
    {
        self.offsets.extend_constant(additional);
        match &mut self.validity {
            Some(validity) => validity.extend_constant(additional, false),
            None => {},
        }
        proof {
            old(self).lemma_wf();
            old(self).column().lemma_append_nulls(additional as nat);
        }
    }

    /// How many entries were gathered so far: one less than there are
    /// boundaries.
    #[inline]
    fn len(&self) -> (n: usize)
        ensures
            n == self.spec_offsets().len() - 1,
    {
        self.offsets.len() - 1
    }

    fn as_arc(&mut self) -> (array: Arc<MapArray<A>>)
        ensures
            array.spec_data_type() == old(self).sources()[0].spec_data_type(),
    {
        Arc::new(self.to())
    }

    fn as_box(&mut self) -> (array: Box<MapArray<A>>)
        ensures
            array.spec_data_type() == old(self).sources()[0].spec_data_type(),
    {
        Box::new(self.to())
    }
}

} // verus!
