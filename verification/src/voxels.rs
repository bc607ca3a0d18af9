use vstd::prelude::*;

use crate::palette::{Palette, EMPTY_STATE};
use crate::palette::{min_cap, pal_bytes, states_valid};
use crate::words::{indices_of, spec_mask, words_bytes, Words};

verus! {

/// The bits per index that a palette of this capacity is stored with.
pub open spec fn bits_for_cap(cap: nat) -> nat {
    if cap == 1 {
        0
    } else if cap == 16 {
        4
    } else if cap <= 256 {
        8
    } else {
        16
    }
}

/// 32x32x32 voxel values stored as a palette of states and one packed palette index per voxel.
pub struct Voxels {
    palette: Palette,
    words: Words,
}

impl Voxels {
    /// The value of every voxel, by index.
    pub closed spec fn view(&self) -> Seq<u16> {
        Seq::new(32768, |i: int| self.palette@[self.words@[i] as int])
    }

    /// The states in the palette, by palette index.
    pub closed spec fn palette_view(&self) -> Seq<u16> {
        self.palette@
    }

    /// The bits per index of the packed indices.
    pub closed spec fn bits(&self) -> nat {
        self.words.bits()
    }

    /// The raw words that the packed indices are stored in.
    pub closed spec fn words_raw(&self) -> Seq<u64> {
        self.words.raw()
    }

    /// The raw words number as many as the width needs; at 0 bits per index, the palette only
    /// holds air.
    pub proof fn lemma_words_len(&self)
        requires
            self.wf(),
        ensures
            self.words_raw().len() == crate::words::spec_words_len(self.bits()),
            self.bits() == 0 || self.bits() == 4 || self.bits() == 8 || self.bits() == 16,
    {
        self.palette.lemma_len_cap();
        crate::words::lemma_raw_len(self.words);
    }

    /// How well-formed voxels are stored: a palette of valid states with the least capacity
    /// that holds them, a width that fits that capacity, and indices that lie in the palette
    /// and give the voxel values.
    pub proof fn lemma_storage(&self)
        requires
            self.wf(),
        ensures
            states_valid(self.palette_view()),
            self.palette_view().len() <= 32768,
            self.bits() == bits_for_cap(min_cap(self.palette_view().len())),
            self.words_raw().len() == crate::words::spec_words_len(self.bits()),
            forall|i: int| 0 <= i < 32768 ==> #[trigger] indices_of(self.bits(), self.words_raw())[i] < self.palette_view().len(),
            self@ == Seq::new(32768, |i: int| self.palette_view()[indices_of(self.bits(), self.words_raw())[i] as int]),
            self.palette_view().len() == 1 ==> self@ == Seq::new(32768, |i: int| 0u16),
    {
        self.palette.lemma_len_cap();
        crate::words::lemma_raw_len(self.words);
        crate::words::lemma_indices_of(self.words);
        assert(self@ =~= Seq::new(32768, |i: int| self.palette_view()[indices_of(self.bits(), self.words_raw())[i] as int]));
        if self.palette_view().len() == 1 {
            assert forall|i: int| 0 <= i < 32768 implies #[trigger] self@[i] == 0u16 by {
                assert(self.words@[i] < self.palette@.len());
            }
            assert(self@ =~= Seq::new(32768, |i: int| 0u16));
        }
    }

    /// Voxels stored with the same palette, width and raw words hold the same values.
    pub proof fn lemma_same_storage(a: Voxels, b: Voxels)
        requires
            a.wf(),
            b.wf(),
            a.palette_view() == b.palette_view(),
            a.bits() == b.bits(),
            a.words_raw() == b.words_raw(),
        ensures
            a@ == b@,
    {
        crate::words::lemma_view_of_raw(a.words, b.words);
        assert(a@ =~= b@);
    }

    /// Voxels stored as this palette and these packed indices, if every index lies in the
    /// palette.
    pub fn from_parts(palette: Palette, words: Words) -> (r: Option<Voxels>)
        requires
            palette.wf(),
            words.wf(),
            words.bits() == bits_for_cap(palette.cap()),
        ensures
            r is Some <==> (forall|i: int| 0 <= i < 32768 ==> #[trigger] words@[i] < palette@.len()),
            r matches Some(v) ==> {
                &&& v.wf()
                &&& v.palette_view() == palette@
                &&& v.bits() == words.bits()
                &&& v.words_raw() == words.raw()
                &&& v@ == Seq::new(32768, |i: int| palette@[words@[i] as int])
            },
    {
        let n = palette.len();
        let mut i: usize = 0;
        while i < 32768
            invariant
                i <= 32768,
                palette.wf(),
                words.wf(),
                n == palette@.len(),
                forall|j: int| 0 <= j < i ==> #[trigger] words@[j] < palette@.len(),
            decreases 32768 - i,
        {
            if words.get(i) >= n as u64 {
                return None;
            }
            i = i + 1;
        }
        Some(Voxels { palette, words })
    }

    /// There is one value per voxel.
    pub proof fn lemma_len(&self)
        ensures
            self@.len() == 32768,
    {
    }

    /// The palette holds between 1 and 32768 states, and its indices take no bits exactly when it
    /// holds one state.
    pub proof fn lemma_shape(&self)
        requires
            self.wf(),
        ensures
            1 <= self.palette_view().len() <= 32768,
            self.bits() == 0 ==> self.palette_view().len() == 1,
            self.bits() == 0 || self.bits() == 4 || self.bits() == 8 || self.bits() == 16,
    {
        self.palette.lemma_len_cap();
        crate::words::lemma_raw_len(self.words);
    }

    pub closed spec fn wf(&self) -> bool {
        &&& self.palette.wf()
        &&& self.words.wf()
        &&& self.words.bits() == bits_for_cap(self.palette.cap())
        &&& forall|i: int| 0 <= i < 32768 ==> #[trigger] self.words@[i] < self.palette@.len()
    }

    /// All voxels are air.
    pub fn empty() -> (r: Voxels)
        ensures
            r.wf(),
            r@ == Seq::new(32768, |i: int| 0u16),
            r.palette_view() == seq![0u16],
            r.bits() == 0,
    {
        let r = Voxels { palette: Palette::empty(), words: Words::empty() };
        assert(r@ =~= Seq::new(32768, |i: int| 0u16));
        r
    }

    /// The number of states in the palette.
    pub fn palette_len(&self) -> (r: usize)
        requires
            self.wf(),
        ensures
            r == self.palette_view().len(),
    {
        self.palette.len()
    }

    /// Whether the palette only holds air, in which case every voxel is air.
    pub fn is_empty(&self) -> (r: bool)
        requires
            self.wf(),
        ensures
            r == (self.palette_view().len() == 1),
            r ==> self@ == Seq::new(32768, |i: int| 0u16),
    {
        let r = self.palette.is_empty();
        proof {
            if r {
                self.palette.lemma_len_cap();
                assert forall|i: int| 0 <= i < 32768 implies #[trigger] self@[i] == 0u16 by {
                    assert(self.words@[i] < self.palette@.len());
                }
                assert(self@ =~= Seq::new(32768, |i: int| 0u16));
            }
        }
        r
    }

    /// Make every voxel air, releasing the palette and words.
    pub fn set_empty(&mut self)
        ensures
            final(self).wf(),
            final(self)@ == Seq::new(32768, |i: int| 0u16),
            final(self).palette_view() == seq![0u16],
            final(self).bits() == 0,
    {
        *self = Voxels::empty();
    }

    /// The number of bits per palette index.
    pub fn bpi(&self) -> (r: u8)
        requires
            self.wf(),
        ensures
            r == self.bits(),
    {
        self.words.bpi()
    }

    /// The palette data as native endian bytes.
    pub fn palette_as_bytes(&self) -> (r: Vec<u8>)
        requires
            self.wf(),
        ensures
            self.palette_view().len() == 1 ==> r@.len() == 0,
            self.palette_view().len() != 1 ==> r@.len() == 2 * self.palette_view().len(),
            self.palette_view().len() != 1 ==> r@ == pal_bytes(self.palette_view()),
    {
        self.palette.as_ne_bytes()
    }

    /// The word data as native endian bytes.
    pub fn words_as_bytes(&self) -> (r: Vec<u8>)
        requires
            self.wf(),
        ensures
            self.bits() == 0 ==> r@.len() == 0,
            self.bits() != 0 ==> r@.len() == 8 * crate::words::spec_words_len(self.bits()),
            self.bits() != 0 ==> r@ == words_bytes(self.words_raw()),
    {
        self.words.as_ne_bytes()
    }

    /// The value of the voxel at index i.
    pub fn get(&self, i: usize) -> (r: u16)
        requires
            self.wf(),
            i < 32768,
        ensures
            r == self@[i as int],
    {
        let p = self.words.get(i);
        proof {
            assert(self.words@[i as int] < self.palette@.len());
            self.palette.lemma_len_cap();
        }
        self.palette.get(p as usize)
    }

    /// The palette index of v, inserting v into the palette if it is not there and growing
    /// the packed indices when the palette's capacity grows.
    fn find_or_insert(&mut self, v: u16) -> (r: usize)
        requires
            old(self).wf(),
            v != EMPTY_STATE,
            old(self).palette_view().contains(v) || old(self).palette_view().len() < 32768,
        ensures
            final(self).wf(),
            final(self)@ == old(self)@,
            r < final(self).palette_view().len(),
            final(self).palette_view()[r as int] == v,
            r <= spec_mask(final(self).bits()),
            old(self).palette_view().is_prefix_of(final(self).palette_view()),
            final(self).palette_view().len() <= old(self).palette_view().len() + 1,
    {
        match self.palette.search(v) {
            Some(i) => {
                proof {
                    self.lemma_index_fits(i as nat);
                }
                i
            },
            None => self.cache_miss(v),
        }
    }

    proof fn lemma_index_fits(&self, i: nat)
        requires
            self.wf(),
            i < self.palette@.len(),
        ensures
            i <= spec_mask(self.bits()),
    {
        self.palette.lemma_len_cap();
    }

    /// Insert v into the palette. If the palette's capacity grows, the packed indices grow
    /// to a width that can hold every palette index.
    fn cache_miss(&mut self, v: u16) -> (r: usize)
        requires
            old(self).wf(),
            v != EMPTY_STATE,
            !old(self).palette_view().contains(v),
            old(self).palette_view().len() < 32768,
        ensures
            final(self).wf(),
            final(self)@ == old(self)@,
            r == old(self).palette_view().len(),
            final(self).palette_view() == old(self).palette_view().push(v),
            r <= spec_mask(final(self).bits()),
    {
        let ghost old_words = self.words@;
        proof {
            self.palette.lemma_len_cap();
        }
        let r = match self.palette.insert(v) {
            Ok(i) => i,
            Err(i) => {
                let cap = self.palette.capacity();
                if cap == 16 {
                    self.words.grow_bpi0_to_bpi4();
                } else if cap == 32 {
                    self.words.grow_bpi4_to_bpi8();
                } else if cap == 512 {
                    self.words.grow_bpi8_to_bpi16();
                }
                i
            },
        };
        proof {
            self.palette.lemma_len_cap();
            assert forall|i: int| 0 <= i < 32768 implies #[trigger] self.words@[i]
                < self.palette@.len() by {
                assert(self.words@[i] == old_words[i]);
            }
            assert(self@ =~= old(self)@) by {
                assert forall|i: int| 0 <= i < 32768 implies self@[i] == old(self)@[i] by {
                    assert(self.words@[i] == old_words[i]);
                    assert(old_words[i] < old(self).palette@.len());
                }
            }
        }
        r
    }

    /// Assign the value of the voxel at index i.
    pub fn set(&mut self, i: usize, v: u16)
        requires
            old(self).wf(),
            i < 32768,
            v != EMPTY_STATE,
            old(self).palette_view().contains(v) || old(self).palette_view().len() < 32768,
        ensures
            final(self).wf(),
            final(self)@ == old(self)@.update(i as int, v),
            old(self).palette_view().is_prefix_of(final(self).palette_view()),
    {
        let pidx = self.find_or_insert(v);
        let ghost mid = self@;
        let ghost mid_words = self.words@;
        proof {
            self.words.lemma_len();
            assert forall|j: int| 0 <= j < 32768 implies #[trigger] mid_words[j] < self.palette@.len()
                && self.palette@[mid_words[j] as int] == mid[j] by {
                assert(self.words@[j] < self.palette@.len());
            }
        }
        self.words.set(i, pidx as u64);
        proof {

            assert forall|j: int| 0 <= j < 32768 && j != i implies #[trigger] self.words@[j]
                < self.palette@.len() && self.palette@[self.words@[j] as int] == mid[j] by {
                assert(self.words@[j] == mid_words[j]);
            }
            self.lemma_after_write(mid, i, pidx, v);
        }
    }

    proof fn lemma_after_write(&self, mid: Seq<u16>, i: usize, pidx: usize, v: u16)
        requires
            self.palette.wf(),
            self.words.wf(),
            self.words.bits() == bits_for_cap(self.palette.cap()),
            i < 32768,
            pidx < self.palette@.len(),
            self.palette@[pidx as int] == v,
            mid.len() == 32768,
            forall|j: int| 0 <= j < 32768 && j != i ==> #[trigger] self.words@[j] < self.palette@.len()
                && self.palette@[self.words@[j] as int] == mid[j],
            self.words@[i as int] == pidx,
        ensures
            self.wf(),
            self@ == mid.update(i as int, v),
    {
        assert(self@ =~= mid.update(i as int, v));
    }

    /// Assign the value of the voxel at index i, returning the previous value.
    pub fn replace(&mut self, i: usize, v: u16) -> (r: u16)
        requires
            old(self).wf(),
            i < 32768,
            v != EMPTY_STATE,
            old(self).palette_view().contains(v) || old(self).palette_view().len() < 32768,
        ensures
            final(self).wf(),
            r == old(self)@[i as int],
            final(self)@ == old(self)@.update(i as int, v),
            old(self).palette_view().is_prefix_of(final(self).palette_view()),
    {
        let pidx = self.find_or_insert(v);
        let ghost mid = self@;
        let ghost mid_words = self.words@;
        proof {
            self.words.lemma_len();
            assert forall|j: int| 0 <= j < 32768 implies #[trigger] mid_words[j] < self.palette@.len()
                && self.palette@[mid_words[j] as int] == mid[j] by {
                assert(self.words@[j] < self.palette@.len());
            }
        }
        let old_pidx = self.words.replace(i, pidx as u64);
        proof {
            assert forall|j: int| 0 <= j < 32768 && j != i implies #[trigger] self.words@[j]
                < self.palette@.len() && self.palette@[self.words@[j] as int] == mid[j] by {
                assert(self.words@[j] == mid_words[j]);
            }
            self.lemma_after_write(mid, i, pidx, v);
        }
        proof {
            self.palette.lemma_len_cap();
        }
        self.palette.get(old_pidx as usize)
    }
}

} // verus!
