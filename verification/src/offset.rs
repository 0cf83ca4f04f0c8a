//! Boundaries that delimit variable-length entries inside a flat child column.

use crate::error::Error;
use vstd::prelude::*;

verus! {

/// The boundaries of `s` as mathematical integers.
pub open spec fn ints(s: Seq<i32>) -> Seq<int> {
    s.map_values(|x: i32| x as int)
}

/// Whether `s` can delimit the entries of a column: it holds at least one
/// boundary, starts at or above zero, never decreases, and ends at a value
/// that an `i32` holds.
pub open spec fn is_boundaries(s: Seq<int>) -> bool {
    &&& s.len() >= 1
    &&& 0 <= s[0]
    &&& forall|i: int, j: int| 0 <= i <= j < s.len() ==> s[i] <= s[j]
    &&& s.last() <= i32::MAX
}

/// The `len` boundaries that follow position `start` of `src`, shifted so that
/// they continue from `last`: the k-th of them lies as far above `last` as
/// `src[start + 1 + k]` lies above `src[start]`.
pub open spec fn rebase(last: int, src: Seq<int>, start: int, len: int) -> Seq<int> {
    Seq::new(len as nat, |k: int| last + (src[start + 1 + k] - src[start]))
}

/// Boundaries that never decrease from one position to the next never decrease
/// over any distance.
pub proof fn lemma_adjacent_is_monotone(s: Seq<int>, i: int, j: int)
    requires
        forall|k: int| 0 <= k && k + 1 < s.len() ==> s[k] <= #[trigger] s[k + 1],
        0 <= i <= j < s.len(),
    ensures
        s[i] <= s[j],
    decreases j - i,
{
    if i < j {
        lemma_adjacent_is_monotone(s, i, j - 1);
        assert(s[j - 1] <= s[(j - 1) + 1]);
    }
}

/// Boundaries continued by a rebased slice of other boundaries are boundaries
/// again, as long as the new last boundary fits in an `i32`.
pub proof fn lemma_rebase_is_boundaries(s: Seq<int>, src: Seq<int>, start: int, len: int)
    requires
        is_boundaries(s),
        is_boundaries(src),
        0 <= start,
        0 <= len,
        start + len < src.len(),
        s.last() + (src[start + len] - src[start]) <= i32::MAX,
    ensures
        is_boundaries(s + rebase(s.last(), src, start, len)),
{
}

/// The finished, read-only boundaries of a column.
pub struct OffsetsBuffer {
    inner: Vec<i32>,
}

impl OffsetsBuffer {
    /// The boundaries, in order.
    pub closed spec fn view(&self) -> Seq<int> {
        ints(self.inner@)
    }

    /// The boundaries hold what every column relies on.
    pub open spec fn wf(&self) -> bool {
        is_boundaries(self@)
    }

    /// The boundaries of a column without entries: a single zero.
    pub fn new() -> (r: Self)
        ensures
            r.wf(),
            r@ == seq![0int],
    {
        let mut inner: Vec<i32> = Vec::new();
        inner.push(0);
        let r = OffsetsBuffer { inner };
        assert(r@ =~= seq![0int]);
        r
    }

    /// Takes `offsets` as the boundaries of a column, or refuses them with
    /// [`Error::InvalidOffsets`] when they are empty, start below zero or
    /// decrease somewhere.
    pub fn try_new(offsets: Vec<i32>) -> (r: Result<Self, Error>)
        ensures
            r is Ok <==> is_boundaries(ints(offsets@)),
            r matches Ok(b) ==> b.wf() && b@ == ints(offsets@),
            r matches Err(e) ==> e == Error::InvalidOffsets,
    {
        let n = offsets.len();
        if n == 0 {
            return Err(Error::InvalidOffsets);
        }
        if offsets[0] < 0 {
            return Err(Error::InvalidOffsets);
        }
        let ghost s = ints(offsets@);
        let mut k: usize = 1;
        while k < n
            invariant
                1 <= k <= n,
                n == offsets.len(),
                s == ints(offsets@),
                forall|m: int| 0 <= m && m + 1 < k ==> s[m] <= #[trigger] s[m + 1],
            decreases n - k,
        {
            if offsets[k - 1] > offsets[k] {
                assert(s[k - 1] > s[k as int]);
                return Err(Error::InvalidOffsets);
            }
            k = k + 1;
        }
        proof {
            assert forall|i: int, j: int| 0 <= i <= j < s.len() implies s[i] <= s[j] by {
                lemma_adjacent_is_monotone(s, i, j);
            }
        }
        Ok(OffsetsBuffer { inner: offsets })
    }

    /// The boundaries as they are stored.
    pub fn buffer(&self) -> (r: &Vec<i32>)
        ensures
            ints(r@) == self@,
    {
        &self.inner
    }

    /// How many entries these boundaries delimit.
    pub fn len_proxy(&self) -> (n: usize)
        requires
            self.wf(),
        ensures
            n == self@.len() - 1,
    {
        self.inner.len() - 1
    }

    /// The first boundary.
    pub fn first(&self) -> (r: i32)
        requires
            self.wf(),
        ensures
            r == self@.first(),
    {
        self.inner[0]
    }

    /// The last boundary.
    pub fn last(&self) -> (r: i32)
        requires
            self.wf(),
        ensures
            r == self@.last(),
    {
        self.inner[self.inner.len() - 1]
    }
}

/// Boundaries under construction: they start at zero and grow at the end.
pub struct Offsets {
    inner: Vec<i32>,
}

impl Offsets {
    /// The boundaries, in order.
    pub closed spec fn view(&self) -> Seq<int> {
        ints(self.inner@)
    }

    /// The boundaries hold what every column relies on.
    pub open spec fn wf(&self) -> bool {
        is_boundaries(self@)
    }

    /// A single zero: the boundaries of no entries.
    pub fn new() -> (r: Self)
        ensures
            r.wf(),
            r@ == seq![0int],
    {
        Self::with_capacity(0)
    }

    /// A single zero, with room for the boundaries of `capacity` entries.
    pub fn with_capacity(capacity: usize) -> (r: Self)
        ensures
            r.wf(),
            r@ == seq![0int],
    {
        let mut inner: Vec<i32> = Vec::with_capacity(capacity.saturating_add(1));
        inner.push(0);
        let r = Offsets { inner };
        assert(r@ =~= seq![0int]);
        r
    }

    /// How many boundaries there are: one more than the entries they delimit.
    pub fn len(&self) -> (n: usize)
        ensures
            n == self@.len(),
    {
        self.inner.len()
    }

    /// How many entries these boundaries delimit.
    pub fn len_proxy(&self) -> (n: usize)
        requires
            self.wf(),
        ensures
            n == self@.len() - 1,
    {
        self.inner.len() - 1
    }

    /// The last boundary: where the next entry starts.
    pub fn last(&self) -> (r: i32)
        requires
            self.wf(),
        ensures
            r == self@.last(),
    {
        self.inner[self.inner.len() - 1]
    }

    /// Appends the boundaries of the `length` entries of `other` that start at
    /// entry `start`, shifted so that they continue from the current last
    /// boundary. Fails, and changes nothing, exactly when the new last boundary
    /// would not fit in an `i32`.
    pub fn try_extend_from_slice(
        &mut self,
        other: &OffsetsBuffer,
        start: usize,
        length: usize,
    ) -> (r: Result<(), Error>)
        requires
            old(self).wf(),
            other.wf(),
            start + length < other@.len(),
        ensures
            final(self).wf(),
            r is Err <==> old(self)@.last() + (other@[start + length] - other@[start as int])
                > i32::MAX,
            r matches Err(e) ==> e == Error::Overflow && final(self)@ == old(self)@,
            r is Ok ==> final(self)@ == old(self)@ + rebase(
                old(self)@.last(),
                other@,
                start as int,
                length as int,
            ),
    {
        let ghost before = self@;
        let ghost src = other@;
        let buffer = other.buffer();
        let total = buffer.len();
        assert(total == src.len());
        let last = self.last();
        let base = buffer[start];
        let top = buffer[start + length];
        assert(src[start as int] <= src[start + length]);
        let grown = top - base;
        if last.checked_add(grown).is_none() {
            return Err(Error::Overflow);
        }
        let mut k: usize = 0;
        while k < length
            invariant
                0 <= k <= length,
                start + length < src.len(),
                src == ints(buffer@),
                src.len() == total,
                is_boundaries(src),
                is_boundaries(before),
                base == src[start as int],
                last == before.last(),
                last + (src[start + length] - base) <= i32::MAX,
                self@ == before + rebase(last as int, src, start as int, k as int),
            decreases length - k,
        {
            let next = buffer[start + 1 + k];
            assert(src[start as int] <= src[start + 1 + k]);
            assert(src[start + 1 + k] <= src[start + length]);
            let ghost prev = self@;
            self.inner.push(last + (next - base));
            assert(self@ =~= prev.push(last + (next - base)));
            assert(prev.push(last + (next - base)) =~= before + rebase(
                last as int,
                src,
                start as int,
                k + 1,
            ));
            k = k + 1;
        }
        Ok(())
    }

    /// Appends `additional` copies of the last boundary: that many entries
    /// without child items.
    pub fn extend_constant(&mut self, additional: usize)
        requires
            old(self).wf(),
        ensures
            final(self).wf(),
            final(self)@ == old(self)@ + Seq::new(additional as nat, |k: int| old(self)@.last()),
    {
        let ghost before = self@;
        let last = self.last();
        let mut k: usize = 0;
        while k < additional
            invariant
                0 <= k <= additional,
                is_boundaries(before),
                last == before.last(),
                self@ == before + Seq::new(k as nat, |m: int| before.last()),
            decreases additional - k,
        {
            let ghost prev = self@;
            self.inner.push(last);
            assert(self@ =~= prev.push(last as int));
            assert(prev.push(last as int) =~= before + Seq::new(
                (k + 1) as nat,
                |m: int| before.last(),
            ));
            k = k + 1;
        }
    }

    /// The same boundaries, finished.
    pub fn freeze(self) -> (r: OffsetsBuffer)
        requires
            self.wf(),
        ensures
            r.wf(),
            r@ == self@,
    {
        OffsetsBuffer { inner: self.inner }
    }
}

} // verus!
