use vstd::prelude::*;

verus! {

/// Whether bit k of x is set.
pub open spec fn has_bit(x: u64, k: u64) -> bool {
    (x >> k) & 1u64 == 1u64
}

/// The bit of a subchunk mask that stands for the subchunk containing y.
/// Heights below -1024 and from 992 up all land on the last bit.
pub open spec fn mask_index(y: i32) -> u32 {
    if y < -1024 {
        63
    } else if (y + 1024) / 32 < 63 {
        ((y + 1024) / 32) as u32
    } else {
        63
    }
}

/// Where a range of subchunks ending at y stops: the bit of the subchunk containing y, which is
/// the first one left out; 64 where y is at or above the top of the span, so that every
/// subchunk up to the top is in, and 0 where y is below the span.
pub open spec fn mask_end(y: i32) -> u32 {
    if y < -1024 {
        0
    } else if (y + 1024) / 32 < 64 {
        ((y + 1024) / 32) as u32
    } else {
        64
    }
}

/// The lowest y value of the subchunk that bit k of a mask stands for.
pub open spec fn bit_y(k: u64) -> int {
    32 * k - 1024
}

proof fn lemma_bit_or(x: u64, i: u64, k: u64)
    by (bit_vector)
    requires
        i < 64,
        k < 64,
    ensures
        ((x | (1u64 << i)) >> k) & 1u64 == 1u64 <==> (k == i || (x >> k) & 1u64 == 1u64),
        ((x & !(1u64 << i)) >> k) & 1u64 == 1u64 <==> (k != i && (x >> k) & 1u64 == 1u64),
        (x & (1u64 << i) != 0) == ((x >> i) & 1u64 == 1u64),
        (x >> i) & 1u64 != 1u64 ==> x & !(1u64 << i) == x,
        (x >> i) & 1u64 == 1u64 ==> x | (1u64 << i) == x,
{
}

proof fn lemma_bit_and_not(a: u64, b: u64, k: u64)
    by (bit_vector)
    requires
        k < 64,
    ensures
        (((a & b) >> k) & 1u64 == 1u64) == ((a >> k) & 1u64 == 1u64 && (b >> k) & 1u64 == 1u64),
        (((!a) >> k) & 1u64 == 1u64) == !((a >> k) & 1u64 == 1u64),
{
}

proof fn lemma_range_bits(a: u64, b: u64, k: u64)
    by (bit_vector)
    requires
        a < 64,
        b < 64,
        k < 64,
    ensures
        1u64 << a >= 1,
        ((((((1u64 << b) - 1) as u64) & !(((1u64 << a) - 1) as u64))) >> k) & 1u64 == 1u64 <==> (a
            <= k && k < b),
        (((u64::MAX & !(((1u64 << a) - 1) as u64))) >> k) & 1u64 == 1u64 <==> a <= k,
        (0u64 >> k) & 1u64 != 1u64,
{
}

proof fn lemma_index_bits(v: i32)
    by (bit_vector)
    ensures
        v >= 0 ==> (v as u32) >> 5 == (v / 32) as u32,
        v < 0 ==> (v as u32) >> 5 >= 63,
{
}

/// The bit of the subchunk containing y.
pub fn to_mask_index(y: i32) -> (r: u32)
    requires
        y <= i32::MAX - 1024,
    ensures
        r == mask_index(y),
{
    let v: i32 = y + 1024;
    let m: u32 = (v as u32) >> 5;
    proof {
        lemma_index_bits(v);
    }
    if m < 63 {
        m
    } else {
        63
    }
}

/// Where a range of subchunks ending at y stops.
pub fn to_mask_end(y: i32) -> (r: u32)
    requires
        y <= i32::MAX - 1024,
    ensures
        r == mask_end(y),
        r <= 64,
{
    let v: i32 = y + 1024;
    if v < 0 {
        return 0;
    }
    let m: u32 = (v as u32) >> 5;
    proof {
        lemma_index_bits(v);
    }
    if m < 64 {
        m
    } else {
        64
    }
}

/// One bit for each subchunk in a span from -1024 to +992.
/// Each subchunk is 32 voxels tall. 992 is 1024-32.
#[derive(Copy, Clone, Eq, PartialEq, Debug, Default, Structural)]
pub struct SubchunkMask(pub u64);

impl SubchunkMask {
    /// No subchunk.
    pub fn empty() -> (r: SubchunkMask)
        ensures
            r.0 == 0,
    {
        SubchunkMask(0)
    }

    /// The subchunks from the one containing y_min up to, not including, the one containing
    /// y_max: the subchunk containing y_max is the first one left out, so where y_max is at or
    /// above 1024 every subchunk from y_min to the top is in. A y_min below the span starts at
    /// the bottom, and one at or above its top leaves the range empty.
    pub fn between_y_values(y_min: i32, y_max: i32) -> (r: SubchunkMask)
        requires
            y_min <= i32::MAX - 1024,
            y_max <= i32::MAX - 1024,
        ensures
            forall|k: u64|
                k < 64 ==> (#[trigger] has_bit(r.0, k) <==> mask_end(y_min) <= k
                    < mask_end(y_max)),
    {
        let min = to_mask_end(y_min);
        let max = to_mask_end(y_max);
        if min == 64 {
            let r = SubchunkMask(0);
            assert forall|k: u64| k < 64 implies !has_bit(r.0, k) by {
                lemma_range_bits(0, 0, k);
            }
            return r;
        }
        proof {
            lemma_range_bits(min as u64, 0, 0);
        }
        let below_min: u64 = (1u64 << min) - 1;
        let below_max: u64 = if max == 64 {
            u64::MAX
        } else {
            proof {
                lemma_range_bits(max as u64, min as u64, 0);
            }
            (1u64 << max) - 1
        };
        let r = SubchunkMask(below_max & !below_min);
        assert forall|k: u64| k < 64 implies (#[trigger] has_bit(r.0, k) <==> min <= k < max) by {
            if max == 64 {
                lemma_range_bits(min as u64, 0, k);
            } else {
                lemma_range_bits(min as u64, max as u64, k);
            }
        }
        r
    }

    /// Iterate the lowest y values of the subchunks in the mask, from bottom to top.
    pub fn iter(self) -> (r: SubchunkMaskIter)
        ensures
            r.0 == self.0,
    {
        SubchunkMaskIter(self.0)
    }

    /// Whether the subchunk containing y is in the mask.
    pub fn get(self, y: i32) -> (r: bool)
        requires
            y <= i32::MAX - 1024,
        ensures
            r == has_bit(self.0, mask_index(y) as u64),
    {
        let i = to_mask_index(y);
        proof {
            lemma_bit_or(self.0, i as u64, 0);
        }
        self.0 & (1u64 << i) != 0
    }

    /// Whether the subchunk containing y is in the mask.
    pub fn has(self, y: i32) -> (r: bool)
        requires
            y <= i32::MAX - 1024,
        ensures
            r == has_bit(self.0, mask_index(y) as u64),
    {
        self.get(y)
    }

    /// Set the bit for the subchunk at y to false.
    /// Returns "true" if a change occurred.
    pub fn clear(&mut self, y: i32) -> (r: bool)
        requires
            y <= i32::MAX - 1024,
        ensures
            r == has_bit(old(self).0, mask_index(y) as u64),
            forall|k: u64|
                k < 64 ==> #[trigger] has_bit(final(self).0, k) == (k != mask_index(y)
                    && has_bit(old(self).0, k)),
    {
        let i = to_mask_index(y);
        let old_bits = self.0;
        self.0 = old_bits & !(1u64 << i);
        proof {
            assert forall|k: u64| k < 64 implies #[trigger] has_bit(self.0, k) == (k != i
                && has_bit(old_bits, k)) by {
                lemma_bit_or(old_bits, i as u64, k);
            }
            lemma_bit_or(old_bits, i as u64, i as u64);
            assert(self.0 != old_bits <==> has_bit(old_bits, i as u64)) by {
                if has_bit(old_bits, i as u64) {
                    assert(!has_bit(self.0, i as u64));
                }
            }
        }
        old_bits != self.0
    }

    /// Set the bit for the subchunk at y to true.
    /// Returns "true" if a change occurred.
    pub fn set(&mut self, y: i32) -> (r: bool)
        requires
            y <= i32::MAX - 1024,
        ensures
            r == !has_bit(old(self).0, mask_index(y) as u64),
            forall|k: u64|
                k < 64 ==> #[trigger] has_bit(final(self).0, k) == (k == mask_index(y)
                    || has_bit(old(self).0, k)),
    {
        let i = to_mask_index(y);
        let old_bits = self.0;
        self.0 = old_bits | (1u64 << i);
        proof {
            assert forall|k: u64| k < 64 implies #[trigger] has_bit(self.0, k) == (k == i
                || has_bit(old_bits, k)) by {
                lemma_bit_or(old_bits, i as u64, k);
            }
            lemma_bit_or(old_bits, i as u64, i as u64);
            assert(self.0 != old_bits <==> !has_bit(old_bits, i as u64)) by {
                if !has_bit(old_bits, i as u64) {
                    assert(has_bit(self.0, i as u64));
                }
            }
        }
        old_bits != self.0
    }

    /// Get the intersection of self and rhs.
    pub fn intersection(self, rhs: SubchunkMask) -> (r: SubchunkMask)
        ensures
            r.0 == self.0 & rhs.0,
            forall|k: u64|
                k < 64 ==> #[trigger] has_bit(r.0, k) == (has_bit(self.0, k) && has_bit(
                    rhs.0,
                    k,
                )),
    {
        let r = SubchunkMask(self.0 & rhs.0);
        assert forall|k: u64| k < 64 implies #[trigger] has_bit(r.0, k) == (has_bit(self.0, k)
            && has_bit(rhs.0, k)) by {
            lemma_bit_and_not(self.0, rhs.0, k);
        }
        r
    }

    /// The mask of every subchunk that is not in self.
    pub fn complement(self) -> (r: SubchunkMask)
        ensures
            r.0 == !self.0,
            forall|k: u64| k < 64 ==> #[trigger] has_bit(r.0, k) == !has_bit(self.0, k),
    {
        let r = SubchunkMask(!self.0);
        assert forall|k: u64| k < 64 implies #[trigger] has_bit(r.0, k) == !has_bit(self.0, k) by {
            lemma_bit_and_not(self.0, self.0, k);
        }
        r
    }
}

/// Yields the lowest y value of each subchunk of a mask, from bottom to top.
#[derive(Clone)]
pub struct SubchunkMaskIter(pub u64);

impl SubchunkMaskIter {
    /// The lowest y value of the lowest subchunk left, which is then removed.
    pub fn next(&mut self) -> (r: Option<i32>)
        ensures
            old(self).0 == 0 ==> r is None && final(self).0 == 0,
            old(self).0 != 0 ==> {
                let k = vstd::std_specs::bits::u64_trailing_zeros(old(self).0) as u64;
                &&& k < 64
                &&& has_bit(old(self).0, k)
                &&& forall|j: u64| j < k ==> !#[trigger] has_bit(old(self).0, j)
                &&& r == Some((bit_y(k)) as i32)
                &&& forall|j: u64|
                    j < 64 ==> #[trigger] has_bit(final(self).0, j) == (j != k && has_bit(
                        old(self).0,
                        j,
                    ))
            },
    {
        if self.0 == 0 {
            None
        } else {
            let x = self.0;
            let j = x.trailing_zeros();
            proof {
                vstd::std_specs::bits::axiom_u64_trailing_zeros(x);
            }
            let t = j as u64;
            assert(t < 64);
            self.0 = x & (x - 1);
            proof {
                assert forall|i: u64| i < 64 implies #[trigger] has_bit(self.0, i) == (i != t
                    && has_bit(x, i)) by {
                    lemma_clear_lowest(x, t, i);
                }
                assert forall|i: u64| i < t implies !#[trigger] has_bit(x, i) by {
                    assert((x >> i) & 1u64 == 0u64);
                }
            }
            proof {
                lemma_shift_five(j);
            }
            Some(((j << 5) as i32) - 1024)
        }
    }
}

proof fn lemma_clear_lowest(x: u64, t: u64, i: u64)
    by (bit_vector)
    requires
        x != 0,
        t < 64,
        (x >> t) & 1u64 == 1u64,
        x << ((64 - t) as u64) == 0,
        i < 64,
    ensures
        (((x & ((x - 1) as u64)) >> i) & 1u64 == 1u64) == (i != t && (x >> i) & 1u64 == 1u64),
{
}

proof fn lemma_shift_five(j: u32)
    by (bit_vector)
    ensures
        j < 64 ==> (j << 5) == j * 32,
{
}

} // verus!
