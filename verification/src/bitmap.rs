//! Validity bitmaps: one bit per entry, set where the entry is not null.

use vstd::prelude::*;

verus! {

/// How many bits of `bits` are unset.
pub open spec fn count_unset(bits: Seq<bool>) -> nat
    decreases bits.len(),
{
    if bits.len() == 0 {
        0
    } else {
        count_unset(bits.drop_last()) + if bits.last() {
            0nat
        } else {
            1nat
        }
    }
}

/// The bits that say which of `len` items, from `start` on, are not null:
/// the bits of `validity` at those positions, or all set where there is no
/// bitmap.
pub open spec fn slice_bits(validity: Option<Seq<bool>>, start: int, len: int) -> Seq<bool> {
    match validity {
        Some(bits) => bits.subrange(start, start + len),
        None => Seq::new(len as nat, |k: int| true),
    }
}

/// The bits of a finished bitmap, if there is one.
pub open spec fn frozen_bits(validity: Option<&Bitmap>) -> Option<Seq<bool>> {
    match validity {
        Some(bitmap) => Some(bitmap@),
        None => None,
    }
}

/// The bits of a bitmap under construction, if there is one.
pub open spec fn bits_of(validity: Option<MutableBitmap>) -> Option<Seq<bool>> {
    match validity {
        Some(bitmap) => Some(bitmap@),
        None => None,
    }
}

/// A finished, read-only validity bitmap.
pub struct Bitmap {
    bits: Vec<bool>,
}

impl Bitmap {
    /// The bits, in order.
    pub closed spec fn view(&self) -> Seq<bool> {
        self.bits@
    }

    /// The bitmap that holds `bits`.
    pub fn new(bits: Vec<bool>) -> (r: Self)
        ensures
            r@ == bits@,
    {
        Bitmap { bits }
    }

    /// How many bits there are.
    pub fn len(&self) -> (n: usize)
        ensures
            n == self@.len(),
    {
        self.bits.len()
    }

    /// The bit at position `i`.
    pub fn get_bit(&self, i: usize) -> (b: bool)
        requires
            i < self@.len(),
        ensures
            b == self@[i as int],
    {
        self.bits[i]
    }

    /// How many bits are unset: the number of nulls this bitmap marks.
    pub fn unset_bits(&self) -> (n: usize)
        ensures
            n == count_unset(self@),
    {
        let total = self.bits.len();
        let mut n: usize = 0;
        let mut k: usize = 0;
        while k < total
            invariant
                0 <= k <= total,
                total == self.bits@.len(),
                n == count_unset(self.bits@.take(k as int)),
                n <= k,
            decreases total - k,
        {
            assert(self.bits@.take(k + 1).drop_last() =~= self.bits@.take(k as int));
            if !self.bits[k] {
                n = n + 1;
            }
            k = k + 1;
        }
        assert(self.bits@.take(total as int) =~= self.bits@);
        n
    }
}

/// A validity bitmap under construction: it grows at the end.
pub struct MutableBitmap {
    bits: Vec<bool>,
}

impl MutableBitmap {
    /// The bits, in order.
    pub closed spec fn view(&self) -> Seq<bool> {
        self.bits@
    }

    /// A bitmap without bits.
    pub fn new() -> (r: Self)
        ensures
            r@ == Seq::<bool>::empty(),
    {
        MutableBitmap { bits: Vec::new() }
    }

    /// A bitmap without bits, with room for `capacity` of them.
    pub fn with_capacity(capacity: usize) -> (r: Self)
        ensures
            r@ == Seq::<bool>::empty(),
    {
        MutableBitmap { bits: Vec::with_capacity(capacity) }
    }

    /// How many bits there are.
    pub fn len(&self) -> (n: usize)
        ensures
            n == self@.len(),
    {
        self.bits.len()
    }

    /// Appends one bit.
    pub fn push(&mut self, value: bool)
        ensures
            final(self)@ == old(self)@.push(value),
    {
        self.bits.push(value);
    }

    /// Appends `additional` bits that all equal `value`.
    pub fn extend_constant(&mut self, additional: usize, value: bool)
        ensures
            final(self)@ == old(self)@ + Seq::new(additional as nat, |k: int| value),
    {
        let ghost before = self@;
        let mut k: usize = 0;
        while k < additional
            invariant
                0 <= k <= additional,
                self@ == before + Seq::new(k as nat, |m: int| value),
            decreases additional - k,
        {
            let ghost prev = self@;
            self.bits.push(value);
            assert(prev.push(value) =~= before + Seq::new((k + 1) as nat, |m: int| value));
            k = k + 1;
        }
    }

    /// Appends the `len` bits of `other` that start at position `start`.
    pub fn extend_from_bitmap(&mut self, other: &Bitmap, start: usize, len: usize)
        requires
            start + len <= other@.len(),
        ensures
            final(self)@ == old(self)@ + other@.subrange(start as int, start + len),
    {
        let ghost before = self@;
        let total = other.len();
        let mut k: usize = 0;
        while k < len
            invariant
                0 <= k <= len,
                start + len <= total,
                total == other@.len(),
                self@ == before + other@.subrange(start as int, start + k),
            decreases len - k,
        {
            let ghost prev = self@;
            self.bits.push(other.get_bit(start + k));
            assert(prev.push(other@[start + k]) =~= before + other@.subrange(
                start as int,
                start + k + 1,
            ));
            k = k + 1;
        }
    }

    /// The same bits, finished.
    pub fn freeze(self) -> (r: Bitmap)
        ensures
            r@ == self@,
    {
        Bitmap { bits: self.bits }
    }
}

} // verus!
