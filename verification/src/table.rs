use vstd::prelude::*;
use vstd::arithmetic::power2::{pow2, lemma_pow2_unfold, lemma_pow2_pos};
use vstd::bits::{low_bits_mask, lemma_usize_low_bits_mask_is_mod};

verus! {

/// An integer that can index a table of slots.
pub trait IndexType: Sized + Copy {
    /// The value that marks an empty slot.
    const MAX: Self;

    /// The index as a `usize`, from which a slot is found.
    fn as_usize(self) -> usize;

    /// Whether two indices are equal.
    fn same(self, other: Self) -> (r: bool)
        ensures
            r == (self == other),
    ;
}

impl IndexType for u16 {
    const MAX: u16 = 0xFFFF;

    fn as_usize(self) -> usize {
        self as usize
    }

    fn same(self, other: u16) -> (r: bool) {
        self == other
    }
}

impl IndexType for u32 {
    const MAX: u32 = 0xFFFF_FFFF;

    fn as_usize(self) -> usize {
        self as usize
    }

    fn same(self, other: u32) -> (r: bool) {
        self == other
    }
}

/// Stores a set of indices in a power-of-two table of slots, searched by linear probing from
/// the slot that the index's low bits select.
pub struct IndexSet<I: IndexType> {
    /// The slots; an empty slot holds `I::MAX`.
    slots: Vec<I>,
    /// Capacity minus one.
    bits: usize,
    /// Number of elements in the set.
    len: usize,
    /// The number of bits that the capacity spans: it is `2` to this power.
    exp: Ghost<nat>,
}

impl<I: IndexType> IndexSet<I> {
    /// The table is a power of two in size, at least two, and every slot is empty.
    pub closed spec fn wf(&self) -> bool {
        &&& self.slots.len() == self.bits + 1
        &&& 1 <= self.exp@ < usize::BITS
        &&& self.bits + 1 == pow2(self.exp@)
        &&& self.len == 0
        &&& forall|i: int| 0 <= i < self.slots.len() ==> #[trigger] self.slots@[i] == I::MAX
    }

    /// The number of slots.
    pub closed spec fn capacity(&self) -> nat {
        self.slots@.len()
    }

    /// The indices in the set.
    pub closed spec fn elements(&self) -> Set<I> {
        Set::new(|i: I| i != I::MAX && self.slots@.contains(i))
    }

    /// An empty set with two slots.
    pub fn new_in() -> (r: IndexSet<I>)
        ensures
            r.wf(),
            r.capacity() == 2,
            r.elements() == Set::<I>::empty(),
    {
        IndexSet::with_capacity_in(2)
    }

    /// An empty set whose table holds the least power of two that is at least `capacity`
    /// and at least two.
    pub fn with_capacity_in(capacity: usize) -> (r: IndexSet<I>)
        requires
            capacity <= 0x4000_0000,
        ensures
            r.wf(),
            r.capacity() >= 2,
            r.capacity() >= capacity,
            capacity <= 2 ==> r.capacity() == 2,
            r.capacity() > 2 ==> r.capacity() < 2 * capacity,
            exists|k: nat| r.capacity() == #[trigger] pow2(k),
            r.elements() == Set::<I>::empty(),
    {
        let mut cap: usize = 2;
        let ghost mut exp: nat = 1;
        proof {
            vstd::arithmetic::power2::lemma2_to64();
        }
        while cap < capacity
            invariant
                cap == pow2(exp),
                2 <= cap <= 0x4000_0000,
                1 <= exp <= 30,
                capacity <= 0x4000_0000,
                cap > 2 ==> cap < 2 * capacity,
                capacity <= 2 ==> cap == 2,
            decreases 0x4000_0000 - cap,
        {
            proof {
                vstd::arithmetic::power2::lemma2_to64();
                lemma_pow2_unfold(exp + 1);
                if exp + 1 < 30 {
                    vstd::arithmetic::power2::lemma_pow2_strictly_increases(exp + 1, 30);
                }
            }
            cap = cap * 2;
            proof { exp = exp + 1; }
        }
        let mut slots: Vec<I> = Vec::new();
        let mut i: usize = 0;
        while i < cap
            invariant
                i <= cap,
                slots.len() == i,
                forall|j: int| 0 <= j < i ==> #[trigger] slots@[j] == I::MAX,
            decreases cap - i,
        {
            slots.push(I::MAX);
            i = i + 1;
        }
        let r = IndexSet { slots, bits: cap - 1, len: 0, exp: Ghost(exp) };
        assert(r.elements() =~= Set::<I>::empty()) by {
            assert forall|x: I| !r.elements().contains(x) by {
                if x != I::MAX && r.slots@.contains(x) {
                    let j = choose|j: int| 0 <= j < r.slots@.len() && r.slots@[j] == x;
                    assert(r.slots@[j] == I::MAX);
                }
            }
        }
        r
    }

    /// Whether the index is in the set; the empty marker `I::MAX` always counts as present.
    pub fn contains(&self, index: I) -> (r: bool)
        requires
            self.wf(),
        ensures
            r == (self.elements().contains(index) || index == I::MAX),
    {
        let x = index.as_usize();
        let mut hash = x & self.bits;
        proof {
            lemma_usize_low_bits_mask_is_mod(x, self.exp@);
            lemma_pow2_pos(self.exp@);
            assert(low_bits_mask(self.exp@) == self.bits);
        }
        let mut steps: usize = 0;
        while steps < self.slots.len()
            invariant
                self.wf(),
                hash < self.slots.len(),
                steps == 0,
            decreases self.slots.len() - steps,
        {
            let v = self.slots[hash];
            // a match is found
            if v.same(index) {
                return true;
            }
            // an empty slot ends the search
            if v.same(I::MAX) {
                proof {
                    self.lemma_absent(index);
                }
                return false;
            }
            hash = (hash + 1) & self.bits;
            steps = steps + 1;
            proof {
                assert(false);
            }
        }
        false
    }

    proof fn lemma_absent(&self, index: I)
        requires
            self.wf(),
            index != I::MAX,
        ensures
            !self.elements().contains(index),
    {
        if self.slots@.contains(index) {
            let j = choose|j: int| 0 <= j < self.slots@.len() && self.slots@[j] == index;
            assert(self.slots@[j] == I::MAX);
        }
    }
}

} // verus!
