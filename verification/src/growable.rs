//! Builders that assemble a new column out of ranges of existing columns.

use crate::array::Array;
use crate::column::{has_nulls, lemma_copy_whole, Column};
use std::sync::Arc;
use vstd::prelude::*;

pub mod map;
pub mod primitive;
pub mod utils;

verus! {

/// A builder bound to a list of source columns of type `A`. It grows by
/// copying ranges of items out of its sources, or by appending nulls, and is
/// finished into a column of the same type.
///
/// Finishing takes the items out: the builder is left empty, bound to the same
/// sources and tracking nulls as before, ready to grow again.
pub trait Growable<'a, A: Array>: Sized {
    /// The builder's invariants hold.
    spec fn wf(&self) -> bool;

    /// The source columns, in the order in which the builder was given them.
    spec fn sources(&self) -> Seq<A>;

    /// What the builder holds: the column it would be finished into.
    spec fn column(&self) -> A::Column;

    /// A well-formed builder holds a column under construction, is bound to
    /// at least one source, all of its sources are well-formed and declare
    /// the same type, and it can represent the nulls of each of them.
    proof fn lemma_wf(&self)
        requires
            self.wf(),
        ensures
            self.column().is_compact(),
            self.sources().len() > 0,
            forall|i: int| 0 <= i < self.sources().len() ==> (#[trigger] self.sources()[i]).wf(),
            forall|i: int|
                0 <= i < self.sources().len() ==> (#[trigger] self.sources()[i]).same_type(
                    &self.sources()[0],
                ),
            forall|i: int|
                0 <= i < self.sources().len() ==> self.column().covers(
                    (#[trigger] self.sources()[i]).column(),
                ),
    ;

    /// An empty builder bound to `arrays`, which must declare the same type,
    /// with room for `capacity` items. What it holds is fixed by `arrays` and
    /// `use_validity` alone, at every depth: it is empty, and it tracks nulls
    /// if asked to, and in any case if one of the sources holds a null.
    fn make(arrays: Vec<&'a A>, use_validity: bool, capacity: usize) -> (g: Self)
        requires
            arrays.len() > 0,
            forall|i: int| 0 <= i < arrays.len() ==> (#[trigger] arrays[i]).wf(),
            forall|i: int| 0 <= i < arrays.len() ==> (#[trigger] arrays[i]).same_type(arrays[0]),
        ensures
            g.wf(),
            g.sources() == Seq::new(arrays.len() as nat, |i: int| *arrays[i]),
            g.column() == A::Column::fresh(
                use_validity,
                Seq::new(arrays.len() as nat, |i: int| arrays[i].column()),
            ),
            g.column() == g.column().drained(),
            g.column().tracks_validity() == (use_validity || exists|i: int|
                0 <= i < arrays.len() && has_nulls((#[trigger] arrays[i]).column().items())),
    ;

    /// Appends the `len` items of source `index` that start at `start`. There
    /// must be such a source, the range must lie within it, and the builder
    /// must have room for it.
    fn extend(&mut self, index: usize, start: usize, len: usize)
        requires
            old(self).wf(),
            index < old(self).sources().len(),
            old(self).column().can_append_slice(
                old(self).sources()[index as int].column(),
                start as int,
                len as int,
            ),
        ensures
            final(self).wf(),
            final(self).sources() == old(self).sources(),
            final(self).column() == old(self).column().append_slice(
                old(self).sources()[index as int].column(),
                start as int,
                len as int,
            ),
    ;

    /// Appends `additional` nulls, which belong to no source. The builder must
    /// track nulls, unless there are none to append.
    fn extend_validity(&mut self, additional: usize)
        requires
            old(self).wf(),
            old(self).column().can_append_nulls(additional as nat),
        ensures
            final(self).wf(),
            final(self).sources() == old(self).sources(),
            final(self).column() == old(self).column().append_nulls(additional as nat),
    ;

    /// How many items were gathered so far.
    fn len(&self) -> (n: usize)
        requires
            self.wf(),
        ensures
            n == self.column().items().len(),
    ;

    /// Finishes the gathered items into a shared column of the type that the
    /// sources declare, and leaves the builder empty.
    fn as_arc(&mut self) -> (array: Arc<A>)
        requires
            old(self).wf(),
        ensures
            array.wf(),
            array.column() == old(self).column(),
            array.same_type(&old(self).sources()[0]),
            final(self).wf(),
            final(self).sources() == old(self).sources(),
            final(self).column() == old(self).column().drained(),
    ;

    /// Finishes the gathered items into an owned column of the type that the
    /// sources declare, and leaves the builder empty.
    fn as_box(&mut self) -> (array: Box<A>)
        requires
            old(self).wf(),
        ensures
            array.wf(),
            array.column() == old(self).column(),
            array.same_type(&old(self).sources()[0]),
            final(self).wf(),
            final(self).sources() == old(self).sources(),
            final(self).column() == old(self).column().drained(),
    ;
}

/// An empty builder can always be extended by the whole of one of its
/// sources, and then holds the items of that source: the same nulls and the
/// same values, item by item. Finished, it gives a column logically equal to
/// the source.
pub proof fn lemma_copy_whole_source<'a, A: Array, G: Growable<'a, A>>(growable: &G, index: int)
    requires
        growable.wf(),
        growable.column() == growable.column().drained(),
        0 <= index < growable.sources().len(),
    ensures
        growable.column().can_append_slice(
            growable.sources()[index].column(),
            0,
            growable.sources()[index].column().items().len() as int,
        ),
        growable.column().append_slice(
            growable.sources()[index].column(),
            0,
            growable.sources()[index].column().items().len() as int,
        ).items() == growable.sources()[index].column().items(),
{
    growable.lemma_wf();
    growable.sources()[index].lemma_wf();
    lemma_copy_whole(growable.column(), growable.sources()[index].column());
}

} // verus!
