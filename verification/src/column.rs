//! The mathematical content of columns, and what appending to them means.

use crate::bitmap::{count_unset, slice_bits};
use crate::offset::{is_boundaries, lemma_rebase_is_boundaries, rebase};
use vstd::prelude::*;

verus! {

/// How many of `items` are null.
pub open spec fn count_nulls<V>(items: Seq<Option<V>>) -> nat
    decreases items.len(),
{
    if items.len() == 0 {
        0
    } else {
        count_nulls(items.drop_last()) + if items.last() is None {
            1nat
        } else {
            0nat
        }
    }
}

/// Whether one of `items` is null.
pub open spec fn has_nulls<V>(items: Seq<Option<V>>) -> bool {
    exists|i: int| 0 <= i < items.len() && items[i] is None
}

/// `n` nulls.
pub open spec fn nulls<V>(n: nat) -> Seq<Option<V>> {
    Seq::new(n, |k: int| None)
}

/// There are at most as many nulls as items, and at least one exactly when
/// some item is null.
pub proof fn lemma_count_nulls<V>(items: Seq<Option<V>>)
    ensures
        count_nulls(items) <= items.len(),
        count_nulls(items) > 0 <==> has_nulls(items),
    decreases items.len(),
{
    if items.len() > 0 {
        let front = items.drop_last();
        lemma_count_nulls(front);
        if has_nulls(items) {
            let i = choose|i: int| 0 <= i < items.len() && items[i] is None;
            if i < front.len() {
                assert(front[i] is None);
            }
        }
        if has_nulls(front) {
            let i = choose|i: int| 0 <= i < front.len() && front[i] is None;
            assert(items[i] is None);
        }
    }
}

/// Items that are null exactly where a bitmap of the same length has an
/// unset bit hold as many nulls as the bitmap has unset bits.
pub proof fn lemma_count_nulls_by_bits<V>(items: Seq<Option<V>>, bits: Seq<bool>)
    requires
        items.len() == bits.len(),
        forall|i: int| 0 <= i < items.len() ==> (items[i] is None <==> !bits[i]),
    ensures
        count_nulls(items) == count_unset(bits),
    decreases items.len(),
{
    if items.len() > 0 {
        lemma_count_nulls_by_bits(items.drop_last(), bits.drop_last());
    }
}

/// Items of which none is null hold no nulls.
pub proof fn lemma_count_nulls_none<V>(items: Seq<Option<V>>)
    requires
        forall|i: int| 0 <= i < items.len() ==> items[i] is Some,
    ensures
        count_nulls(items) == 0,
{
    lemma_count_nulls(items);
}

/// The mathematical content of a column of some type, and the operations by
/// which a column of that type is assembled. Every type of column has its own
/// content; the laws below hold of all of them.
pub trait Column: Sized {
    /// What an item that is not null holds.
    type Value;

    /// The items of the column, in order: its logical content. Two columns
    /// with the same items are logically equal, however they are laid out.
    spec fn items(self) -> Seq<Option<Self::Value>>;

    /// The physical invariants of a finished column.
    spec fn wf(self) -> bool;

    /// The invariants of a column under construction: those of a finished
    /// column, and nothing in it that no item owns.
    spec fn is_compact(self) -> bool;

    /// Whether the column can mark an item as null.
    spec fn tracks_validity(self) -> bool;

    /// Whether the column can represent every null of `src`, at every depth:
    /// it tracks nulls, or `src` has none.
    spec fn covers(self, src: Self) -> bool;

    /// The column that is left when the items were taken out: empty, and
    /// tracking nulls wherever it did before.
    spec fn drained(self) -> Self;

    /// The column that a builder bound to `sources` starts with: empty, and
    /// tracking nulls if `nullable` asks for it or one of `sources` holds a
    /// null. What it decides for itself it asks of its child column, if it
    /// has one.
    spec fn fresh(nullable: bool, sources: Seq<Self>) -> Self;

    /// Whether the `len` items of `src` from `start` on can be appended: the
    /// range lies within `src`, and there is room for it.
    spec fn can_append_slice(self, src: Self, start: int, len: int) -> bool;

    /// The column after the `len` items of `src` from `start` on were
    /// appended.
    spec fn append_slice(self, src: Self, start: int, len: int) -> Self;

    /// Whether `n` nulls can be appended: the column tracks nulls, or there
    /// is nothing to append.
    spec fn can_append_nulls(self, n: nat) -> bool;

    /// The column after `n` nulls were appended.
    spec fn append_nulls(self, n: nat) -> Self;

    /// A column under construction has the invariants of a finished one.
    proof fn lemma_compact_is_wf(self)
        requires
            self.is_compact(),
        ensures
            self.wf(),
    ;

    /// Taking the items out leaves a column under construction that has no
    /// items and tracks nulls as before. Taking them out of that again
    /// changes nothing, so no item can show up in two snapshots.
    proof fn lemma_drained(self)
        ensures
            self.drained().is_compact(),
            self.drained().items() == Seq::<Option<Self::Value>>::empty(),
            self.drained().tracks_validity() == self.tracks_validity(),
            self.drained().drained() == self.drained(),
    ;

    /// The column that a builder starts with is empty: taking the items out
    /// of it changes nothing. It tracks nulls exactly if it was asked to or a
    /// source holds a null, and so it can represent the nulls of every
    /// source.
    proof fn lemma_fresh(nullable: bool, sources: Seq<Self>)
        ensures
            Self::fresh(nullable, sources).drained() == Self::fresh(nullable, sources),
            Self::fresh(nullable, sources).tracks_validity() == (nullable || exists|i: int|
                0 <= i < sources.len() && has_nulls((#[trigger] sources[i]).items())),
            forall|i: int|
                0 <= i < sources.len() ==> Self::fresh(nullable, sources).covers(
                    #[trigger] sources[i],
                ),
    ;

    /// An empty column has room for any range of a finished column.
    proof fn lemma_drained_can_append_slice(self, src: Self, start: int, len: int)
        requires
            src.wf(),
            0 <= start,
            0 <= len,
            start + len <= src.items().len(),
        ensures
            self.drained().can_append_slice(src, start, len),
    ;

    /// Appending a range of a finished column to a column under construction
    /// that can represent its nulls gives a column under construction again,
    /// which holds the items it held before, followed by exactly the items of
    /// the range, in order.
    proof fn lemma_append_slice(self, src: Self, start: int, len: int)
        requires
            self.is_compact(),
            src.wf(),
            self.covers(src),
            self.can_append_slice(src, start, len),
        ensures
            0 <= start,
            0 <= len,
            start + len <= src.items().len(),
            self.append_slice(src, start, len).is_compact(),
            self.append_slice(src, start, len).tracks_validity() == self.tracks_validity(),
            self.append_slice(src, start, len).items() == self.items() + src.items().subrange(
                start,
                start + len,
            ),
    ;

    /// Nulls can be appended only to a column that tracks nulls, unless
    /// there are none to append. Appending them gives a column under
    /// construction again, which holds the items it held before, followed by
    /// exactly `n` nulls.
    proof fn lemma_append_nulls(self, n: nat)
        requires
            self.is_compact(),
            self.can_append_nulls(n),
        ensures
            self.tracks_validity() || n == 0,
            self.append_nulls(n).is_compact(),
            self.append_nulls(n).tracks_validity() == self.tracks_validity(),
            self.append_nulls(n).items() == self.items() + nulls(n),
    ;

    /// A range can be appended in two parts: where there is room for the
    /// whole there is room for the first part and then for the second, and
    /// the result is the same, at every depth.
    proof fn lemma_append_slice_split(self, src: Self, start: int, first: int, second: int)
        requires
            self.is_compact(),
            src.wf(),
            self.covers(src),
            0 <= first,
            0 <= second,
            self.can_append_slice(src, start, first + second),
        ensures
            self.can_append_slice(src, start, first),
            self.append_slice(src, start, first).can_append_slice(src, start + first, second),
            self.append_slice(src, start, first).append_slice(src, start + first, second)
                == self.append_slice(src, start, first + second),
    ;

    /// Appending no items changes nothing, whatever the position in the
    /// source: nothing is added or repeated at any depth.
    proof fn lemma_append_nothing(self, src: Self, start: int)
        requires
            src.wf(),
            0 <= start <= src.items().len(),
        ensures
            self.append_slice(src, start, 0) == self,
    ;

    /// What a column can represent does not change as it grows or is
    /// drained.
    proof fn lemma_covers_kept(self, other: Self, src: Self, start: int, len: int, n: nat)
        ensures
            self.append_slice(src, start, len).covers(other) == self.covers(other),
            self.append_nulls(n).covers(other) == self.covers(other),
            self.drained().covers(other) == self.covers(other),
    ;
}

/// What a column of plain values holds: its items, and whether it has a
/// validity bitmap. What a slot holds below a null is not part of it.
pub struct PrimitiveColumn<T> {
    pub slots: Seq<Option<T>>,
    pub nullable: bool,
}

impl<T> Column for PrimitiveColumn<T> {
    type Value = T;

    open spec fn items(self) -> Seq<Option<T>> {
        self.slots
    }

    /// Without a validity bitmap no item is null.
    open spec fn wf(self) -> bool {
        self.nullable || !has_nulls(self.slots)
    }

    open spec fn is_compact(self) -> bool {
        self.wf()
    }

    open spec fn tracks_validity(self) -> bool {
        self.nullable
    }

    open spec fn covers(self, src: Self) -> bool {
        self.nullable || !has_nulls(src.slots)
    }

    open spec fn drained(self) -> Self {
        PrimitiveColumn { slots: Seq::empty(), nullable: self.nullable }
    }

    open spec fn fresh(nullable: bool, sources: Seq<Self>) -> Self {
        PrimitiveColumn {
            slots: Seq::empty(),
            nullable: nullable || exists|i: int|
                0 <= i < sources.len() && has_nulls((#[trigger] sources[i]).slots),
        }
    }

    /// The range lies within `src`.
    open spec fn can_append_slice(self, src: Self, start: int, len: int) -> bool {
        &&& 0 <= start
        &&& 0 <= len
        &&& start + len <= src.slots.len()
    }

    open spec fn append_slice(self, src: Self, start: int, len: int) -> Self {
        PrimitiveColumn {
            slots: self.slots + src.slots.subrange(start, start + len),
            nullable: self.nullable,
        }
    }

    /// Only a column with a validity bitmap can take nulls.
    open spec fn can_append_nulls(self, n: nat) -> bool {
        self.nullable || n == 0
    }

    open spec fn append_nulls(self, n: nat) -> Self {
        PrimitiveColumn { slots: self.slots + nulls(n), nullable: self.nullable }
    }

    proof fn lemma_compact_is_wf(self) {
    }

    proof fn lemma_drained(self) {
    }

    proof fn lemma_fresh(nullable: bool, sources: Seq<Self>) {
    }

    proof fn lemma_drained_can_append_slice(self, src: Self, start: int, len: int) {
    }

    proof fn lemma_append_slice(self, src: Self, start: int, len: int) {
    }

    proof fn lemma_append_nulls(self, n: nat) {
    }

    proof fn lemma_append_slice_split(self, src: Self, start: int, first: int, second: int) {
        assert(self.append_slice(src, start, first).append_slice(src, start + first, second).slots
            =~= self.append_slice(src, start, first + second).slots);
    }

    proof fn lemma_append_nothing(self, src: Self, start: int) {
    }

    proof fn lemma_covers_kept(self, other: Self, src: Self, start: int, len: int, n: nat) {
    }
}

/// What a map column holds: the boundaries of its entries, one validity bit
/// per entry where nulls are tracked, and the content of its flat child
/// column. Entry `i` owns the child items from `offsets[i]` up to
/// `offsets[i + 1]`.
pub struct MapColumn<C> {
    pub offsets: Seq<int>,
    pub validity: Option<Seq<bool>>,
    pub values: C,
}

impl<C: Column> MapColumn<C> {
    /// How many entries the column has.
    pub open spec fn len(self) -> nat {
        (self.offsets.len() - 1) as nat
    }

    /// Whether entry `i` is null.
    pub open spec fn is_null(self, i: int) -> bool {
        self.validity matches Some(bits) && !bits[i]
    }

    /// Whether some entry is null.
    pub open spec fn has_nulls(self) -> bool {
        exists|i: int| 0 <= i < self.len() && self.is_null(i)
    }

    /// The logical value of entry `i`: nothing if it is null, else the child
    /// items between its two boundaries.
    pub open spec fn entry(self, i: int) -> Option<Seq<Option<C::Value>>> {
        if self.is_null(i) {
            None
        } else {
            Some(self.values.items().subrange(self.offsets[i], self.offsets[i + 1]))
        }
    }

    /// The logical values of all entries, in order.
    pub open spec fn entries(self) -> Seq<Option<Seq<Option<C::Value>>>> {
        Seq::new(self.len(), |i: int| self.entry(i))
    }

    /// Where in the child column the entries from `start` on begin.
    pub open spec fn child_start(self, start: int) -> int {
        self.offsets[start]
    }

    /// How many child items the `len` entries from `start` on own.
    pub open spec fn child_len(self, start: int, len: int) -> int {
        self.offsets[start + len] - self.offsets[start]
    }

    /// A column has a null entry exactly if one of its logical entries is
    /// null.
    pub proof fn lemma_has_nulls(self)
        ensures
            self.has_nulls() <==> has_nulls(self.entries()),
    {
        if self.has_nulls() {
            let i = choose|i: int| 0 <= i < self.len() && self.is_null(i);
            assert(self.entries()[i] is None);
        }
        if has_nulls(self.entries()) {
            let i = choose|i: int| 0 <= i < self.entries().len() && self.entries()[i] is None;
            assert(self.is_null(i));
        }
    }

    /// Appending `n` null entries adds `n` copies of the last boundary, so
    /// that each new entry owns no child item, and leaves the child column
    /// alone. The new entries are nulls, and the entries that were there are
    /// as they were.
    pub proof fn lemma_append_nulls_entries(self, n: nat)
        requires
            self.is_compact(),
            self.can_append_nulls(n),
        ensures
            self.append_nulls(n).values == self.values,
            forall|i: int|
                self.len() <= i < self.len() + n ==> #[trigger] self.append_nulls(n).offsets[i]
                    == self.append_nulls(n).offsets[i + 1],
            self.append_nulls(n).entries() == self.entries() + nulls(n),
    {
        let after = self.append_nulls(n);
        let expected = self.entries() + nulls(n);
        assert forall|i: int| 0 <= i < after.len() implies after.entries()[i] == expected[i] by {
            if i < self.len() {
                assert(after.offsets[i] == self.offsets[i]);
                assert(after.offsets[i + 1] == self.offsets[i + 1]);
                assert(after.is_null(i) == self.is_null(i));
            } else {
                assert(after.is_null(i));
            }
        }
        assert(after.entries() =~= expected);
    }
}

impl<C: Column> Column for MapColumn<C> {
    type Value = Seq<Option<C::Value>>;

    open spec fn items(self) -> Seq<Option<Seq<Option<C::Value>>>> {
        self.entries()
    }

    /// The boundaries never decrease, none points past the child items, a
    /// validity bitmap, if there is one, has one bit per entry, and the child
    /// column is well-formed.
    open spec fn wf(self) -> bool {
        &&& is_boundaries(self.offsets)
        &&& self.offsets.last() <= self.values.items().len()
        &&& self.validity matches Some(bits) ==> bits.len() == self.len()
        &&& self.values.wf()
    }

    /// A well-formed column whose entries own every child item: the first
    /// boundary is zero, the last one is the number of child items, and the
    /// child column is under construction too.
    open spec fn is_compact(self) -> bool {
        &&& is_boundaries(self.offsets)
        &&& self.offsets[0] == 0
        &&& self.offsets.last() == self.values.items().len()
        &&& self.validity matches Some(bits) ==> bits.len() == self.len()
        &&& self.values.is_compact()
    }

    open spec fn tracks_validity(self) -> bool {
        self.validity is Some
    }

    open spec fn covers(self, src: Self) -> bool {
        &&& self.tracks_validity() || !src.has_nulls()
        &&& self.values.covers(src.values)
    }

    /// A single zero boundary, an empty validity bitmap if nulls are to be
    /// tracked, and the child column that a builder bound to the child
    /// columns of `sources` starts with, tracking nulls wherever this one
    /// does.
    open spec fn fresh(nullable: bool, sources: Seq<Self>) -> Self {
        let tracks = nullable || exists|i: int|
            0 <= i < sources.len() && has_nulls((#[trigger] sources[i]).entries());
        MapColumn {
            offsets: seq![0int],
            validity: if tracks {
                Some(Seq::empty())
            } else {
                None
            },
            values: C::fresh(tracks, Seq::new(sources.len(), |i: int| sources[i].values)),
        }
    }

    /// A single zero boundary, an empty validity bitmap if nulls are
    /// tracked, and the child column drained.
    open spec fn drained(self) -> Self {
        MapColumn {
            offsets: seq![0int],
            validity: match self.validity {
                Some(bits) => Some(Seq::empty()),
                None => None,
            },
            values: self.values.drained(),
        }
    }

    /// The range lies within `src`, the new last boundary fits in an `i32`,
    /// and the child column has room for the child items of the range.
    open spec fn can_append_slice(self, src: Self, start: int, len: int) -> bool {
        &&& 0 <= start
        &&& 0 <= len
        &&& start + len <= src.len()
        &&& self.offsets.last() + src.child_len(start, len) <= i32::MAX
        &&& self.values.can_append_slice(
            src.values,
            src.child_start(start),
            src.child_len(start, len),
        )
    }

    /// The boundaries of the range continue from the last boundary of
    /// `self`, its validity bits follow those of `self` where it tracks nulls
    /// (all set for a source without bitmap), and the child items it owns
    /// are appended to the child column.
    open spec fn append_slice(self, src: Self, start: int, len: int) -> Self {
        MapColumn {
            offsets: self.offsets + rebase(self.offsets.last(), src.offsets, start, len),
            validity: match self.validity {
                Some(bits) => Some(bits + slice_bits(src.validity, start, len)),
                None => None,
            },
            values: self.values.append_slice(
                src.values,
                src.child_start(start),
                src.child_len(start, len),
            ),
        }
    }

    /// Only a column with a validity bitmap can take null entries.
    open spec fn can_append_nulls(self, n: nat) -> bool {
        self.validity is Some || n == 0
    }

    /// `n` copies of the last boundary, `n` unset bits, and the child column
    /// as it was.
    open spec fn append_nulls(self, n: nat) -> Self {
        MapColumn {
            offsets: self.offsets + Seq::new(n, |k: int| self.offsets.last()),
            validity: match self.validity {
                Some(bits) => Some(bits + Seq::new(n, |k: int| false)),
                None => None,
            },
            values: self.values,
        }
    }

    proof fn lemma_compact_is_wf(self) {
        self.values.lemma_compact_is_wf();
    }

    proof fn lemma_drained(self) {
        self.values.lemma_drained();
    }

    proof fn lemma_fresh(nullable: bool, sources: Seq<Self>) {
        let fresh = Self::fresh(nullable, sources);
        let children = Seq::new(sources.len(), |i: int| sources[i].values);
        C::lemma_fresh(fresh.tracks_validity(), children);
        assert forall|i: int| 0 <= i < sources.len() implies fresh.covers(
            #[trigger] sources[i],
        ) by {
            sources[i].lemma_has_nulls();
            assert(children[i] == sources[i].values);
        }
    }

    proof fn lemma_drained_can_append_slice(self, src: Self, start: int, len: int) {
        self.values.lemma_drained_can_append_slice(
            src.values,
            src.child_start(start),
            src.child_len(start, len),
        );
    }

    proof fn lemma_append_slice(self, src: Self, start: int, len: int) {
        let after = self.append_slice(src, start, len);
        let expected = self.entries() + src.entries().subrange(start, start + len);
        let last = self.offsets.last();
        let base = src.offsets[start];
        self.values.lemma_append_slice(
            src.values,
            src.child_start(start),
            src.child_len(start, len),
        );
        lemma_rebase_is_boundaries(self.offsets, src.offsets, start, len);
        assert forall|i: int| 0 <= i < after.len() implies after.entries()[i] == expected[i] by {
            if i >= self.len() {
                // the entry comes from the source: its boundaries are those of the
                // source, moved from `base` to `last`
                let k = i - self.len();
                assert(after.offsets[i] == last + (src.offsets[start + k] - base));
                assert(after.offsets[i + 1] == last + (src.offsets[start + k + 1] - base));
                assert(after.is_null(i) == src.is_null(start + k));
            }
        }
    }

    proof fn lemma_append_nulls(self, n: nat) {
        self.lemma_append_nulls_entries(n);
    }

    proof fn lemma_append_slice_split(self, src: Self, start: int, first: int, second: int) {
        let last = self.offsets.last();
        let mid = self.append_slice(src, start, first);
        let end = mid.append_slice(src, start + first, second);
        let whole = self.append_slice(src, start, first + second);
        assert(src.offsets[start] <= src.offsets[start + first]);
        assert(src.offsets[start + first] <= src.offsets[start + first + second]);
        self.values.lemma_append_slice_split(
            src.values,
            src.child_start(start),
            src.child_len(start, first),
            src.child_len(start + first, second),
        );
        // the first part ends where it would end within the whole
        if first > 0 {
            assert(mid.offsets.last() == rebase(last, src.offsets, start, first)[first - 1]);
        } else {
            assert(mid.offsets =~= self.offsets);
        }
        assert(mid.offsets.last() == last + src.child_len(start, first));
        assert(end.offsets =~= whole.offsets);
        match self.validity {
            Some(bits) => {
                assert(bits + slice_bits(src.validity, start, first) + slice_bits(
                    src.validity,
                    start + first,
                    second,
                ) =~= bits + slice_bits(src.validity, start, first + second));
            },
            None => {},
        }
    }

    proof fn lemma_append_nothing(self, src: Self, start: int) {
        self.values.lemma_append_nothing(src.values, src.child_start(start));
        assert(self.append_slice(src, start, 0).offsets =~= self.offsets);
    }

    proof fn lemma_covers_kept(self, other: Self, src: Self, start: int, len: int, n: nat) {
        self.values.lemma_covers_kept(
            other.values,
            src.values,
            src.child_start(start),
            src.child_len(start, len),
            n,
        );
    }
}

/// One step in the assembly of a column.
pub enum Step {
    /// Append the `len` items of source `index` that start at item `start`.
    Slice { index: int, start: int, len: int },
    /// Append `count` nulls.
    Nulls { count: nat },
}

/// Whether `step` can be taken on `column`: it asks for items that one of
/// `sources` holds, and `column` has room for them.
pub open spec fn allows<C: Column>(column: C, sources: Seq<C>, step: Step) -> bool {
    match step {
        Step::Slice { index, start, len } => {
            &&& 0 <= index < sources.len()
            &&& column.can_append_slice(sources[index], start, len)
        },
        Step::Nulls { count } => column.can_append_nulls(count),
    }
}

/// The column after `step`.
pub open spec fn apply<C: Column>(column: C, sources: Seq<C>, step: Step) -> C {
    match step {
        Step::Slice { index, start, len } => column.append_slice(sources[index], start, len),
        Step::Nulls { count } => column.append_nulls(count),
    }
}

/// The column after all of `steps`, in order.
pub open spec fn apply_all<C: Column>(column: C, sources: Seq<C>, steps: Seq<Step>) -> C
    decreases steps.len(),
{
    if steps.len() == 0 {
        column
    } else {
        apply(apply_all(column, sources, steps.drop_last()), sources, steps.last())
    }
}

/// Whether all of `steps` can be taken on `column`, one after the other.
pub open spec fn allows_all<C: Column>(column: C, sources: Seq<C>, steps: Seq<Step>) -> bool
    decreases steps.len(),
{
    steps.len() == 0 || {
        &&& allows_all(column, sources, steps.drop_last())
        &&& allows(apply_all(column, sources, steps.drop_last()), sources, steps.last())
    }
}

/// The items that `step` asks for: those of the range, or nulls.
pub open spec fn step_items<C: Column>(sources: Seq<C>, step: Step) -> Seq<Option<C::Value>> {
    match step {
        Step::Slice { index, start, len } => sources[index].items().subrange(start, start + len),
        Step::Nulls { count } => nulls(count),
    }
}

/// The items that all of `steps` ask for, in order.
pub open spec fn steps_items<C: Column>(sources: Seq<C>, steps: Seq<Step>) -> Seq<
    Option<C::Value>,
>
    decreases steps.len(),
{
    if steps.len() == 0 {
        Seq::empty()
    } else {
        steps_items(sources, steps.drop_last()) + step_items(sources, steps.last())
    }
}

/// However many ranges and runs of nulls are appended to a column under
/// construction, in whatever order, the result is a column under
/// construction, and with it a well-formed column: for a map column, one
/// boundary more than entries, boundaries that never decrease, a last
/// boundary that is the number of child items, and one validity bit per
/// entry where nulls are tracked. It tracks nulls exactly if it did at the
/// start.
pub proof fn lemma_apply_all_compact<C: Column>(column: C, sources: Seq<C>, steps: Seq<Step>)
    requires
        column.is_compact(),
        forall|i: int| 0 <= i < sources.len() ==> (#[trigger] sources[i]).wf(),
        forall|i: int| 0 <= i < sources.len() ==> column.covers(#[trigger] sources[i]),
        allows_all(column, sources, steps),
    ensures
        apply_all(column, sources, steps).is_compact(),
        apply_all(column, sources, steps).wf(),
        apply_all(column, sources, steps).tracks_validity() == column.tracks_validity(),
        forall|i: int|
            0 <= i < sources.len() ==> apply_all(column, sources, steps).covers(
                #[trigger] sources[i],
            ),
    decreases steps.len(),
{
    if steps.len() > 0 {
        let front = steps.drop_last();
        lemma_apply_all_compact(column, sources, front);
        let mid = apply_all(column, sources, front);
        let after = apply_all(column, sources, steps);
        match steps.last() {
            Step::Slice { index, start, len } => {
                mid.lemma_append_slice(sources[index], start, len);
                assert forall|i: int| 0 <= i < sources.len() implies after.covers(
                    #[trigger] sources[i],
                ) by {
                    mid.lemma_covers_kept(sources[i], sources[index], start, len, 0);
                }
            },
            Step::Nulls { count } => {
                mid.lemma_append_nulls(count);
                assert forall|i: int| 0 <= i < sources.len() implies after.covers(
                    #[trigger] sources[i],
                ) by {
                    mid.lemma_covers_kept(sources[i], mid, 0, 0, count);
                }
            },
        }
        after.lemma_compact_is_wf();
    } else {
        column.lemma_compact_is_wf();
    }
}

/// However many ranges and runs of nulls are appended to a column under
/// construction, in whatever order, the result holds the items it held
/// before, followed by exactly the items that each step asked for, step by
/// step: none is lost, repeated or moved.
pub proof fn lemma_apply_all_items<C: Column>(column: C, sources: Seq<C>, steps: Seq<Step>)
    requires
        column.is_compact(),
        forall|i: int| 0 <= i < sources.len() ==> (#[trigger] sources[i]).wf(),
        forall|i: int| 0 <= i < sources.len() ==> column.covers(#[trigger] sources[i]),
        allows_all(column, sources, steps),
    ensures
        apply_all(column, sources, steps).items() == column.items() + steps_items(sources, steps),
    decreases steps.len(),
{
    if steps.len() == 0 {
        assert(column.items() + steps_items(sources, steps) =~= column.items());
    } else {
        let front = steps.drop_last();
        lemma_apply_all_compact(column, sources, front);
        lemma_apply_all_items(column, sources, front);
        let mid = apply_all(column, sources, front);
        match steps.last() {
            Step::Slice { index, start, len } => {
                mid.lemma_append_slice(sources[index], start, len);
            },
            Step::Nulls { count } => {
                mid.lemma_append_nulls(count);
            },
        }
        assert(apply(mid, sources, steps.last()).items() =~= column.items() + (steps_items(
            sources,
            front,
        ) + step_items(sources, steps.last())));
    }
}

/// A whole column copied into an empty one gives back its own items: the
/// same nulls and the same values, item by item. There is always room for it.
pub proof fn lemma_copy_whole<C: Column>(empty: C, src: C)
    requires
        empty == empty.drained(),
        src.wf(),
        empty.covers(src),
    ensures
        empty.can_append_slice(src, 0, src.items().len() as int),
        empty.append_slice(src, 0, src.items().len() as int).items() == src.items(),
        empty.append_slice(src, 0, src.items().len() as int).is_compact(),
{
    let n = src.items().len() as int;
    empty.lemma_drained();
    empty.lemma_drained_can_append_slice(src, 0, n);
    empty.lemma_append_slice(src, 0, n);
    assert(src.items().subrange(0, n) =~= src.items());
    assert(empty.items() + src.items() =~= src.items());
}

} // verus!
