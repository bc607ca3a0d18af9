use vstd::prelude::*;

use crate::encoding::{le_bytes, le_value, lemma_le_bytes_len, lemma_le_roundtrip, lemma_pow256_values, push_le, read_le};

verus! {

/// Number of voxels in a subchunk, and so the number of packed indices in `Words`.
pub const VOXELS_LEN: usize = 32768;

/// Value of the mask of the low `bits` bits.
pub open spec fn spec_mask(bits: nat) -> u64 {
    if bits == 0 {
        0
    } else if bits == 4 {
        0xF
    } else if bits == 8 {
        0xFF
    } else {
        0xFFFF
    }
}

/// Whether `bits` is a supported bits-per-index value.
pub open spec fn valid_bits(bits: nat) -> bool {
    bits == 0 || bits == 4 || bits == 8 || bits == 16
}

/// Number of words needed to pack 32768 indices of `bits` bits into 64-bit words.
pub open spec fn spec_words_len(bits: nat) -> nat {
    if bits == 0 {
        1
    } else if bits == 4 {
        2048
    } else if bits == 8 {
        4096
    } else {
        8192
    }
}

/// The packed index stored in slot `slot` of `word` at `bits` bits per index.
pub open spec fn slot_value(word: u64, slot: nat, bits: nat) -> u64 {
    if bits == 0 {
        0
    } else {
        (word >> ((slot * bits) as u64)) & spec_mask(bits)
    }
}

/// Number of indices per 64-bit word.
pub open spec fn spec_ipw(bits: nat) -> nat {
    if bits == 4 {
        16
    } else if bits == 8 {
        8
    } else if bits == 16 {
        4
    } else {
        32768
    }
}

proof fn lemma_ipw(b: nat)
    requires
        b == 4 || b == 8 || b == 16,
    ensures
        spec_ipw(b) * b == 64,
        spec_ipw(b) > 0,
        spec_words_len(b) * spec_ipw(b) == 32768,
{
}

/// Parameters to pack and unpack indices of one width into 64-bit words.
#[derive(Copy, Clone)]
pub struct Bpi {
    /// Mask of the low BPI bits.
    pub bpi_mask: u64,
    /// Indices-per-word minus one, used to take an index modulo the indices-per-word.
    pub ipw_mod: usize,
    /// Shift that divides an index by the indices-per-word.
    pub ipw_div: usize,
    /// Shift that multiplies a slot by the bits-per-index.
    pub bpi_mul: usize,
}

impl Bpi {
    /// The bits per index these parameters describe.
    pub open spec fn bits(self) -> nat {
        if self.bpi_mask == 0 {
            0
        } else if self.bpi_mask == 0xF {
            4
        } else if self.bpi_mask == 0xFF {
            8
        } else {
            16
        }
    }

    /// The parameters agree with one of the supported widths.
    pub open spec fn wf(self) -> bool {
        ||| (self.bpi_mask == 0 && self.ipw_mod == 0 && self.ipw_div == 15 && self.bpi_mul == 0)
        ||| (self.bpi_mask == 0xF && self.ipw_mod == 15 && self.ipw_div == 4 && self.bpi_mul == 2)
        ||| (self.bpi_mask == 0xFF && self.ipw_mod == 7 && self.ipw_div == 3 && self.bpi_mul == 3)
        ||| (self.bpi_mask == 0xFFFF && self.ipw_mod == 3 && self.ipw_div == 2 && self.bpi_mul
            == 4)
    }

    pub fn bpi0() -> (r: Bpi)
        ensures
            r.wf(),
            r.bits() == 0,
    {
        Bpi { bpi_mask: 0, ipw_mod: 0, ipw_div: 15, bpi_mul: 0 }
    }

    pub fn bpi4() -> (r: Bpi)
        ensures
            r.wf(),
            r.bits() == 4,
    {
        Bpi { bpi_mask: 0xF, ipw_mod: 15, ipw_div: 4, bpi_mul: 2 }
    }

    pub fn bpi8() -> (r: Bpi)
        ensures
            r.wf(),
            r.bits() == 8,
    {
        Bpi { bpi_mask: 0xFF, ipw_mod: 7, ipw_div: 3, bpi_mul: 3 }
    }

    pub fn bpi16() -> (r: Bpi)
        ensures
            r.wf(),
            r.bits() == 16,
    {
        Bpi { bpi_mask: 0xFFFF, ipw_mod: 3, ipw_div: 2, bpi_mul: 4 }
    }

    /// Number of words in the buffer at this width: 32768 divided by the indices-per-word.
    pub fn words_len(&self) -> (r: usize)
        requires
            self.wf(),
        ensures
            r == spec_words_len(self.bits()),
    {
        proof {
            assert(32768usize >> 15usize == 1 && 32768usize >> 4usize == 2048 && 32768usize
                >> 3usize == 4096 && 32768usize >> 2usize == 8192) by (bit_vector);
        }
        32768usize >> self.ipw_div
    }
}

/// 32768 palette indices packed into 64-bit words at 0, 4, 8 or 16 bits per index.
pub struct Words {
    words: Vec<u64>,
    bpi: Bpi,
}

proof fn lemma_slot_of_index(i: usize, p: Bpi)
    requires
        p.wf(),
        i < 32768,
    ensures
        p.bits() > 0 ==> (i >> p.ipw_div) == i as nat / spec_ipw(p.bits()),
        p.bits() > 0 ==> (i & p.ipw_mod) == i as nat % spec_ipw(p.bits()),
        p.bits() > 0 ==> ((i & p.ipw_mod) << p.bpi_mul) == (i as nat % spec_ipw(p.bits()))
            * p.bits(),
        p.bits() == 0 ==> (i >> p.ipw_div) == 0 && ((i & p.ipw_mod) << p.bpi_mul) == 0,
        (i >> p.ipw_div) < spec_words_len(p.bits()),
        p.bpi_mask == spec_mask(p.bits()),
{
    if p.bpi_mask == 0 {
        assert(i < 32768 ==> i >> 15usize == 0 && (i & 0usize) << 0usize == 0) by (bit_vector);
    } else if p.bpi_mask == 0xF {
        assert(i >> 4usize == i / 16 && i & 15 == i % 16 && (i & 15) << 2usize == (i % 16) * 4)
            by (bit_vector);
    } else if p.bpi_mask == 0xFF {
        assert(i >> 3usize == i / 8 && i & 7 == i % 8 && (i & 7) << 3usize == (i % 8) * 8)
            by (bit_vector);
    } else {
        assert(i >> 2usize == i / 4 && i & 3 == i % 4 && (i & 3) << 4usize == (i % 4) * 16)
            by (bit_vector);
    }
}

/// Replacing one field of a word leaves every other field and changes only that one.
proof fn lemma_field_write(w: u64, v: u64, m: u64, b: u64, oi: u64, oj: u64)
    requires
        b == 4 || b == 8 || b == 16,
        m == (if b == 4 {
            0xFu64
        } else if b == 8 {
            0xFFu64
        } else {
            0xFFFFu64
        }),
        v <= m,
        oi + b <= 64,
        oj + b <= 64,
    ensures
        (((w & !(m << oi)) | (v << oi)) >> oi) & m == v,
        (oi + b <= oj || oj + b <= oi) ==> (((w & !(m << oi)) | (v << oi)) >> oj) & m == (w >> oj)
            & m,
{
    assert((((w & !(m << oi)) | (v << oi)) >> oi) & m == v) by (bit_vector)
        requires
            b == 4 || b == 8 || b == 16,
            m == (if b == 4 {
                0xFu64
            } else if b == 8 {
                0xFFu64
            } else {
                0xFFFFu64
            }),
            v <= m,
            oi + b <= 64,
    ;
    assert((oi + b <= oj || oj + b <= oi) ==> (((w & !(m << oi)) | (v << oi)) >> oj) & m == (w
        >> oj) & m) by (bit_vector)
        requires
            b == 4 || b == 8 || b == 16,
            m == (if b == 4 {
                0xFu64
            } else if b == 8 {
                0xFFu64
            } else {
                0xFFFFu64
            }),
            v <= m,
            oi + b <= 64,
            oj + b <= 64,
    ;
}

/// The `xor` form of a field write is the same as the clear-then-or form.
proof fn lemma_xor_write(w: u64, v: u64, m: u64, b: u64, oi: u64)
    requires
        b == 4 || b == 8 || b == 16,
        m == (if b == 4 {
            0xFu64
        } else if b == 8 {
            0xFFu64
        } else {
            0xFFFFu64
        }),
        v <= m,
        oi + b <= 64,
    ensures
        w ^ ((((w >> oi) & m) ^ v) << oi) == (w & !(m << oi)) | (v << oi),
{
    assert(w ^ ((((w >> oi) & m) ^ v) << oi) == (w & !(m << oi)) | (v << oi)) by (bit_vector)
        requires
            b == 4 || b == 8 || b == 16,
            m == (if b == 4 {
                0xFu64
            } else if b == 8 {
                0xFFu64
            } else {
                0xFFFFu64
            }),
            v <= m,
            oi + b <= 64,
    ;
}

/// The value in slot `slot` of a word that only has its low bits set beyond it is zero.
proof fn lemma_zero_word_slots(slot: nat, bits: nat)
    requires
        bits == 4 || bits == 8 || bits == 16,
        slot * bits + bits <= 64,
    ensures
        slot_value(0, slot, bits) == 0,
{
    let o = (slot * bits) as u64;
    let m = spec_mask(bits);
    assert((0u64 >> o) & m == 0) by (bit_vector);
}

/// The packed indices that the words `ws` hold at the width `bpi`.
pub closed spec fn view_of(bpi: Bpi, ws: Seq<u64>) -> Seq<u64> {
    Seq::new(
        32768,
        |i: int|
            slot_value(
                ws[i / spec_ipw(bpi.bits()) as int],
                (i % spec_ipw(bpi.bits()) as int) as nat,
                bpi.bits(),
            ),
    )
}

impl Words {
    /// The packed indices, one per voxel.
    pub closed spec fn view(&self) -> Seq<u64> {
        view_of(self.bpi, self.words@)
    }

    /// There is one packed index per voxel.
    pub proof fn lemma_len(&self)
        ensures
            self@.len() == 32768,
    {
    }

    /// The current number of bits per index.
    pub closed spec fn bits(&self) -> nat {
        self.bpi.bits()
    }

    pub closed spec fn wf(&self) -> bool {
        &&& self.bpi.wf()
        &&& self.words.len() == spec_words_len(self.bpi.bits())
    }

    /// Words where every index is 0, stored with 0 bits per index.
    pub fn empty() -> (r: Words)
        ensures
            r.wf(),
            r.bits() == 0,
            r@ == Seq::new(32768, |i: int| 0u64),
    {
        let r = Words { words: vec![0u64], bpi: Bpi::bpi0() };
        assert(r@ =~= Seq::new(32768, |i: int| 0u64));
        r
    }

    /// Zeroed words at the given width.
    pub fn from_bpi(bpi: Bpi) -> (r: Words)
        requires
            bpi.wf(),
        ensures
            r.wf(),
            r.bits() == bpi.bits(),
            r@ == Seq::new(32768, |i: int| 0u64),
    {
        let n = bpi.words_len();
        let r = Words { words: vec![0u64; n], bpi };
        assert forall|i: int| 0 <= i < 32768 implies #[trigger] r@[i] == 0u64 by {
            if bpi.bits() > 0 {
                let ipw = spec_ipw(bpi.bits());
                lemma_ipw(bpi.bits());
                assert(i / ipw as int >= 0 && i / ipw as int * ipw <= i) by (nonlinear_arith)
                    requires ipw > 0, i >= 0;
                assert(i / (ipw as int) < spec_words_len(bpi.bits())) by (nonlinear_arith)
                    requires
                        0 <= i < 32768,
                        ipw * bpi.bits() == 64,
                        bpi.bits() == 4 || bpi.bits() == 8 || bpi.bits() == 16,
                        spec_words_len(bpi.bits()) * ipw == 32768;
                let s = (i % ipw as int) as nat;
                assert(s * bpi.bits() + bpi.bits() <= 64) by (nonlinear_arith)
                    requires
                        s < ipw,
                        ipw * bpi.bits() == 64,
                        bpi.bits() == 4 || bpi.bits() == 8 || bpi.bits() == 16;
                lemma_zero_word_slots(s, bpi.bits());
            }
        }
        assert(r@ =~= Seq::new(32768, |i: int| 0u64));
        r
    }

    /// Number of bits per index: 0, 4, 8 or 16.
    pub fn bpi(&self) -> (r: u8)
        requires
            self.wf(),
        ensures
            r == self.bits(),
    {
        if self.bpi.bpi_mask == 0 {
            0
        } else if self.bpi.bpi_mask == 0xF {
            4
        } else if self.bpi.bpi_mask == 0xFF {
            8
        } else {
            16
        }
    }

    /// Number of words in the buffer.
    pub fn num_words(&self) -> (r: usize)
        requires
            self.wf(),
        ensures
            r == spec_words_len(self.bits()),
    {
        self.bpi.words_len()
    }

    /// Whether the buffer is all zero (air), stored at 0 bits per index.
    pub fn is_bpi0(&self) -> (r: bool)
        requires
            self.wf(),
        ensures
            r == (self.bits() == 0),
    {
        self.bpi.bpi_mask == 0
    }

    proof fn lemma_locate(&self, i: usize)
        requires
            self.wf(),
            i < 32768,
        ensures
            (i >> self.bpi.ipw_div) < self.words.len(),
            self@[i as int] == (self.words[(i >> self.bpi.ipw_div) as int] >> (((i
                & self.bpi.ipw_mod) << self.bpi.bpi_mul) as u64)) & self.bpi.bpi_mask,
            self.bits() > 0 ==> ((i & self.bpi.ipw_mod) << self.bpi.bpi_mul) + self.bits() <= 64,
            ((i & self.bpi.ipw_mod) << self.bpi.bpi_mul) < 64,
    {
        lemma_slot_of_index(i, self.bpi);
        let b = self.bits();
        if b == 0 {
            let w = self.words[0];
            assert(((w >> 0u64) & 0u64) == 0) by (bit_vector);
        } else {
            let ipw = spec_ipw(b);
            lemma_ipw(b);
            let s = i as nat % ipw;
            assert(s * b + b <= 64) by (nonlinear_arith)
                requires
                    s < ipw,
                    ipw * b == 64,
                    b == 4 || b == 8 || b == 16;
        }
    }

    /// Get the palette index of the voxel at i.
    pub fn get(&self, i: usize) -> (r: u64)
        requires
            self.wf(),
            i < 32768,
        ensures
            r == self@[i as int],
    {
        proof {
            self.lemma_locate(i);
        }
        let word = self.words[i >> self.bpi.ipw_div];
        let offs = (i & self.bpi.ipw_mod) << self.bpi.bpi_mul;
        (word >> (offs as u64)) & self.bpi.bpi_mask
    }

    proof fn lemma_write(&self, new_words: Seq<u64>, i: usize, p: u64)
        requires
            self.wf(),
            i < 32768,
            p <= spec_mask(self.bits()),
            new_words.len() == self.words.len(),
            self.bits() > 0,
            forall|k: int|
                0 <= k < new_words.len() && k != (i >> self.bpi.ipw_div) ==> new_words[k]
                    == self.words[k],
            new_words[(i >> self.bpi.ipw_div) as int] == ({
                let w = self.words[(i >> self.bpi.ipw_div) as int];
                let o = ((i & self.bpi.ipw_mod) << self.bpi.bpi_mul) as u64;
                (w & !(self.bpi.bpi_mask << o)) | (p << o)
            }),
        ensures
            view_of(self.bpi, new_words) == self@.update(
                i as int,
                p,
            ),
    {
        let b = self.bits();
        let ipw = spec_ipw(b);
        lemma_ipw(b);
        lemma_slot_of_index(i, self.bpi);
        let wi = (i >> self.bpi.ipw_div) as int;
        let oi = ((i & self.bpi.ipw_mod) << self.bpi.bpi_mul) as u64;
        let m = self.bpi.bpi_mask;
        let w = self.words[wi];
        assert(oi + b <= 64) by (nonlinear_arith)
            requires
                oi == (i as nat % ipw) * b,
                ipw * b == 64,
                b == 4 || b == 8 || b == 16;
        let lhs = view_of(self.bpi, new_words);
        let rhs = self@.update(i as int, p);
        assert forall|j: int| 0 <= j < 32768 implies lhs[j] == rhs[j] by {
            let ju = j as usize;
            lemma_slot_of_index(ju, self.bpi);
            self.lemma_locate(ju);
            let wj = j / ipw as int;
            let oj = ((j % ipw as int) * b) as u64;
            assert(oj + b <= 64) by (nonlinear_arith)
                requires
                    0 <= j,
                    oj == (j % ipw as int) * b,
                    ipw * b == 64,
                    b == 4 || b == 8 || b == 16;
            if wj == wi {
                lemma_field_write(w, p, m, b as u64, oi, oj);
                if j != i {
                    assert(oi + b <= oj || oj + b <= oi) by (nonlinear_arith)
                        requires
                            j != i,
                            0 <= j,
                            j / ipw as int == (i as int) / ipw as int,
                            oi == (i as nat % ipw) * b,
                            oj == (j % ipw as int) * b,
                            ipw * b == 64,
                            b == 4 || b == 8 || b == 16;
                }
            }
        }
        assert(lhs =~= rhs);
    }

    /// Assign the palette index of the voxel at i.
    pub fn set(&mut self, i: usize, p: u64)
        requires
            old(self).wf(),
            i < 32768,
            p <= spec_mask(old(self).bits()),
        ensures
            final(self).wf(),
            final(self).bits() == old(self).bits(),
            final(self)@ == old(self)@.update(i as int, p),
    {
        proof {
            self.lemma_locate(i);
        }
        let wi = i >> self.bpi.ipw_div;
        let offs = ((i & self.bpi.ipw_mod) << self.bpi.bpi_mul) as u64;
        let word = self.words[wi];
        let clear = word & !(self.bpi.bpi_mask << offs);
        let new_word = clear | (p << offs);
        if self.bpi.bpi_mask == 0 {
            // at zero bits per index there is nothing to store
            proof {
                assert(p == 0);
                assert(self@ =~= old(self)@.update(i as int, p));
            }
            return ;
        }
        proof {
            let ghost ws = self.words@.update(wi as int, new_word);
            self.lemma_write(ws, i, p);
            assert(view_of(self.bpi, ws) == self@.update(i as int, p));
        }
        self.words.set(wi, new_word);
        proof {
            assert(self.words@ == old(self).words@.update(wi as int, new_word));
            assert(self@ =~= view_of(old(self).bpi, self.words@));
        }
    }

    /// Assign the palette index of the voxel at i and return the previous value.
    pub fn replace(&mut self, i: usize, p: u64) -> (r: u64)
        requires
            old(self).wf(),
            i < 32768,
            p <= spec_mask(old(self).bits()),
        ensures
            final(self).wf(),
            final(self).bits() == old(self).bits(),
            r == old(self)@[i as int],
            final(self)@ == old(self)@.update(i as int, p),
    {
        proof {
            self.lemma_locate(i);
        }
        let wi = i >> self.bpi.ipw_div;
        let offs = ((i & self.bpi.ipw_mod) << self.bpi.bpi_mul) as u64;
        let word = self.words[wi];
        let old_p = (word >> offs) & self.bpi.bpi_mask;
        if self.bpi.bpi_mask == 0 {
            proof {
                assert(p == 0);
                assert(self@ =~= old(self)@.update(i as int, p));
            }
            return old_p;
        }
        let new_word = word ^ ((old_p ^ p) << offs);
        proof {
            lemma_xor_write(word, p, self.bpi.bpi_mask, self.bits() as u64, offs);
            let ghost ws = self.words@.update(wi as int, new_word);
            self.lemma_write(ws, i, p);
        }
        self.words.set(wi, new_word);
        proof {
            assert(self@ =~= view_of(old(self).bpi, self.words@));
        }
        old_p
    }

    /// Grow from 0 to 4 bits per index. Every index stays 0.
    pub fn grow_bpi0_to_bpi4(&mut self)
        requires
            old(self).wf(),
            old(self).bits() == 0,
        ensures
            final(self).wf(),
            final(self).bits() == 4,
            final(self)@ == old(self)@,
    {
        proof {
            assert forall|i: int| 0 <= i < 32768 implies #[trigger] self@[i] == 0u64 by {}
        }
        *self = Words::from_bpi(Bpi::bpi4());
        proof {
            assert(self@ =~= old(self)@);
        }
    }

    /// Grow from 4 to 8 bits per index, keeping every index.
    pub fn grow_bpi4_to_bpi8(&mut self)
        requires
            old(self).wf(),
            old(self).bits() == 4,
        ensures
            final(self).wf(),
            final(self).bits() == 8,
            final(self)@ == old(self)@,
    {
        self.grow_double(Bpi::bpi8());
    }

    /// Grow from 8 to 16 bits per index, keeping every index.
    pub fn grow_bpi8_to_bpi16(&mut self)
        requires
            old(self).wf(),
            old(self).bits() == 8,
        ensures
            final(self).wf(),
            final(self).bits() == 16,
            final(self)@ == old(self)@,
    {
        self.grow_double(Bpi::bpi16());
    }

    /// Double the width of every index, expanding each word into two.
    fn grow_double(&mut self, new_bpi: Bpi)
        requires
            old(self).wf(),
            new_bpi.wf(),
            old(self).bits() == 4 || old(self).bits() == 8,
            new_bpi.bits() == 2 * old(self).bits(),
        ensures
            final(self).wf(),
            final(self).bits() == new_bpi.bits(),
            final(self)@ == old(self)@,
    {
        let ob = self.bpi();
        let n = self.num_words();
        let ghost old_bits = self.bits();
        let ghost new_bits = new_bpi.bits();
        let ghost ipw_new = spec_ipw(new_bits);
        proof {
            lemma_ipw(old_bits);
            lemma_ipw(new_bits);
            assert(spec_ipw(old_bits) == 2 * ipw_new);
            assert(spec_words_len(new_bits) == 2 * n);
        }
        let mut new_words: Vec<u64> = Vec::new();
        let mut i: usize = 0;
        while i < n
            invariant
                0 <= i <= n,
                n == self.words.len(),
                self.wf(),
                self.bits() == old_bits,
                ob as nat == old_bits,
                old_bits == 4 || old_bits == 8,
                new_bits == 2 * old_bits,
                ipw_new == spec_ipw(new_bits),
                spec_ipw(old_bits) == 2 * ipw_new,
                new_words.len() == 2 * i,
                forall|w: int, s: nat|
                    0 <= w < 2 * i && s < ipw_new ==> #[trigger] slot_value(new_words@[w], s, new_bits)
                        == slot_value(self.words@[w / 2], (s + (w % 2) * ipw_new) as nat, old_bits),
            decreases n - i,
        {
            let (lo, hi) = Self::expand_bpi(self.words[i], ob);
            new_words.push(lo);
            new_words.push(hi);
            proof {
                assert forall|w: int, s: nat|
                    0 <= w < 2 * (i + 1) && s < ipw_new implies #[trigger] slot_value(
                        new_words@[w],
                        s,
                        new_bits,
                    ) == slot_value(self.words@[w / 2], (s + (w % 2) * ipw_new) as nat, old_bits) by {
                    if w >= 2 * i {
                        assert(w / 2 == i as int);
                    }
                }
            }
            i = i + 1;
        }
        let ghost old_view = self@;
        let ghost old_words = self.words@;
        proof {
            let nv = view_of(new_bpi, new_words@);
            assert forall|j: int| 0 <= j < 32768 implies nv[j] == old_view[j] by {
                let ipw_old = spec_ipw(old_bits);
                let w = j / ipw_new as int;
                let s = j % ipw_new as int;
                assert(w / 2 == j / ipw_old as int && s + (w % 2) * ipw_new == j % ipw_old as int)
                    by (nonlinear_arith)
                    requires
                        0 <= j,
                        ipw_new > 0,
                        ipw_old == 2 * ipw_new,
                        w == j / ipw_new as int,
                        s == j % ipw_new as int,
                ;
                assert(0 <= w < 2 * n) by (nonlinear_arith)
                    requires
                        0 <= j < 32768,
                        w == j / ipw_new as int,
                        ipw_new > 0,
                        spec_words_len(new_bits) * ipw_new == 32768,
                        spec_words_len(new_bits) == 2 * n,
                ;
                assert(s >= 0 && s < ipw_new);
                assert(slot_value(new_words@[w], s as nat, new_bits) == slot_value(
                    old_words[w / 2],
                    (s + (w % 2) * ipw_new) as nat,
                    old_bits,
                ));
            }
            assert(nv =~= old_view);
        }
        self.words = new_words;
        self.bpi = new_bpi;
    }

    /// Expand the indices of one word from `old` bits to twice as many bits.
    /// Returns the (lower, upper) words: the lower holds the first half of the indices.
    fn expand_bpi(word: u64, old: u8) -> (r: (u64, u64))
        requires
            old == 4 || old == 8,
        ensures
            forall|s: nat|
                s < spec_ipw(2 * old as nat) ==> #[trigger] slot_value(r.0, s, 2 * old as nat)
                    == slot_value(word, s, old as nat),
            forall|s: nat|
                s < spec_ipw(2 * old as nat) ==> #[trigger] slot_value(r.1, s, 2 * old as nat)
                    == slot_value(word, s + spec_ipw(2 * old as nat), old as nat),
    {
        let new: u8 = old * 2;
        let old_mask: u64 = if old == 4 {
            0xF
        } else {
            0xFF
        };
        let new_mask: u64 = if old == 4 {
            0xFF
        } else {
            0xFFFF
        };
        let half: u64 = if old == 4 {
            8
        } else {
            4
        };
        let ghost ob = old as nat;
        let ghost nb = new as nat;
        proof {
            lemma_ipw(ob);
            lemma_ipw(nb);
            assert(spec_ipw(nb) == half);
            assert(spec_mask(ob) == old_mask && spec_mask(nb) == new_mask);
        }
        let mut r1: u64 = 0;
        let mut r2: u64 = 0;
        let mut k: u64 = 0;
        proof {
            assert forall|s: nat| s < half implies #[trigger] slot_value(0, s, nb) == 0 by {
                assert(s * nb + nb <= 64) by (nonlinear_arith)
                    requires
                        s < half,
                        half * nb == 64,
                ;
                lemma_zero_word_slots(s, nb);
            }
        }
        while k < half
            invariant
                0 <= k <= half,
                half == spec_ipw(nb),
                half * nb == 64,
                half * 2 * ob == 64,
                ob == 4 || ob == 8,
                nb == 2 * ob,
                old as nat == ob,
                new as nat == nb,
                old_mask == spec_mask(ob),
                new_mask == spec_mask(nb),
                forall|s: nat| s < k ==> #[trigger] slot_value(r1, s, nb) == slot_value(word, s, ob),
                forall|s: nat|
                    s < k ==> #[trigger] slot_value(r2, s, nb) == slot_value(word, (s + half) as nat, ob),
                forall|s: nat| k <= s < half ==> #[trigger] slot_value(r1, s, nb) == 0,
                forall|s: nat| k <= s < half ==> #[trigger] slot_value(r2, s, nb) == 0,
            decreases half - k,
        {
            proof {
                assert(k * ob + ob <= 64 && (k + half) * ob + ob <= 64 && k * nb + nb <= 64)
                    by (nonlinear_arith)
                    requires
                        k < half,
                        half * nb == 64,
                        nb == 2 * ob,
                ;
            }
            let a = (word >> (k * old as u64)) & old_mask;
            let b = (word >> ((k + half) * old as u64)) & old_mask;
            let o = k * new as u64;
            proof {
                assert(a <= old_mask && b <= old_mask) by (bit_vector)
                    requires
                        a == (word >> (k * old as u64)) & old_mask,
                        b == (word >> ((k + half) * old as u64)) & old_mask,
                ;
                let pr1 = r1;
                let pr2 = r2;
                assert(a == slot_value(word, k as nat, ob));
                assert(b == slot_value(word, (k + half) as nat, ob));
                assert forall|s: nat| s < half implies #[trigger] slot_value(
                    (pr1 & !(new_mask << o)) | (a << o),
                    s,
                    nb,
                ) == (if s == k {
                    a
                } else {
                    slot_value(pr1, s, nb)
                }) by {
                    let os = (s * nb) as u64;
                    assert(s * nb + nb <= 64) by (nonlinear_arith)
                        requires
                            s < half,
                            half * nb == 64,
                    ;
                    if s != k {
                        assert(o + nb <= os || os + nb <= o) by (nonlinear_arith)
                            requires
                                s != k,
                                o == k * nb,
                                os == s * nb,
                                nb > 0,
                        ;
                    }
                    lemma_field_write(pr1, a, new_mask, nb as u64, o, os);
                }
                assert forall|s: nat| s < half implies #[trigger] slot_value(
                    (pr2 & !(new_mask << o)) | (b << o),
                    s,
                    nb,
                ) == (if s == k {
                    b
                } else {
                    slot_value(pr2, s, nb)
                }) by {
                    let os = (s * nb) as u64;
                    assert(s * nb + nb <= 64) by (nonlinear_arith)
                        requires
                            s < half,
                            half * nb == 64,
                    ;
                    if s != k {
                        assert(o + nb <= os || os + nb <= o) by (nonlinear_arith)
                            requires
                                s != k,
                                o == k * nb,
                                os == s * nb,
                                nb > 0,
                        ;
                    }
                    lemma_field_write(pr2, b, new_mask, nb as u64, o, os);
                }
            }
            r1 = (r1 & !(new_mask << o)) | (a << o);
            r2 = (r2 & !(new_mask << o)) | (b << o);
            k = k + 1;
        }
        (r1, r2)
    }

    /// The words of the buffer.
    pub closed spec fn raw(&self) -> Seq<u64> {
        self.words@
    }

    /// The words as little endian bytes, which is their native order on the supported
    /// targets. At 0 bits per index there are no bytes.
    pub fn as_ne_bytes(&self) -> (r: Vec<u8>)
        requires
            self.wf(),
        ensures
            self.bits() == 0 ==> r@.len() == 0,
            self.bits() != 0 ==> r@ == words_bytes(self.raw()),
            self.bits() != 0 ==> r@.len() == 8 * spec_words_len(self.bits()),
    {
        let mut out: Vec<u8> = Vec::new();
        if self.bpi.bpi_mask == 0 {
            return out;
        }
        let mut k: usize = 0;
        while k < self.words.len()
            invariant
                k <= self.words@.len(),
                out@ == words_bytes(self.words@.subrange(0, k as int)),
            decreases self.words@.len() - k,
        {
            push_le(&mut out, self.words[k], 8);
            proof {
                let t = self.words@.subrange(0, k + 1);
                assert(t.drop_last() =~= self.words@.subrange(0, k as int));
            }
            k = k + 1;
        }
        proof {
            assert(self.words@.subrange(0, k as int) =~= self.words@);
            lemma_words_bytes(self.words@);
        }
        out
    }

    /// Words at `bits` bits per index whose raw words the bytes encode, eight little-endian
    /// bytes each.
    pub fn from_le_bytes(bytes: &[u8], bits: u8) -> (r: Words)
        requires
            bits == 4 || bits == 8 || bits == 16,
            bytes@.len() == 8 * spec_words_len(bits as nat),
        ensures
            r.wf(),
            r.bits() == bits,
            r.raw() == words_of_bytes(bytes@),
    {
        let bpi = if bits == 4 {
            Bpi::bpi4()
        } else if bits == 8 {
            Bpi::bpi8()
        } else {
            Bpi::bpi16()
        };
        let n = bytes.len() / 8;
        let mut words: Vec<u64> = Vec::new();
        let mut k: usize = 0;
        while k < n
            invariant
                n == bytes@.len() / 8,
                n * 8 == bytes@.len(),
                n <= 8192,
                k <= n,
                words@ == words_of_bytes(bytes@).subrange(0, k as int),
            decreases n - k,
        {
            proof {
                crate::encoding::lemma_le_value_bound(bytes@.subrange(8 * k, 8 * k + 8));
                lemma_pow256_values();
            }
            let w = read_le(bytes, 8 * k, 8);
            words.push(w);
            k = k + 1;
            assert(words@ =~= words_of_bytes(bytes@).subrange(0, k as int));
        }
        assert(words@ =~= words_of_bytes(bytes@));
        Words { words, bpi }
    }
}

/// The packed indices that raw words hold at `bits` bits per index.
pub open spec fn indices_of(bits: nat, raw: Seq<u64>) -> Seq<u64> {
    Seq::new(
        32768,
        |i: int| slot_value(raw[i / spec_ipw(bits) as int], (i % spec_ipw(bits) as int) as nat, bits),
    )
}

/// Well-formed words have as many raw words as their width needs, at a supported width.
pub proof fn lemma_raw_len(w: Words)
    requires
        w.wf(),
    ensures
        w.raw().len() == spec_words_len(w.bits()),
        w.bits() == 0 || w.bits() == 4 || w.bits() == 8 || w.bits() == 16,
{
}

/// The indices of words are those their raw words hold at their width.
pub proof fn lemma_indices_of(w: Words)
    ensures
        w@ == indices_of(w.bits(), w.raw()),
{
    assert(w@ =~= indices_of(w.bits(), w.raw()));
}

/// Words with the same width and raw words hold the same indices.
pub proof fn lemma_view_of_raw(a: Words, b: Words)
    requires
        a.wf(),
        b.wf(),
        a.bits() == b.bits(),
        a.raw() == b.raw(),
    ensures
        a@ == b@,
{
    assert(a.bpi == b.bpi);
}

/// The bytes of raw words, eight little-endian bytes each.
pub open spec fn words_bytes(ws: Seq<u64>) -> Seq<u8>
    decreases ws.len(),
{
    if ws.len() == 0 {
        Seq::empty()
    } else {
        words_bytes(ws.drop_last()) + le_bytes(ws.last() as nat, 8)
    }
}

/// The raw words that bytes encode, eight little-endian bytes each.
pub open spec fn words_of_bytes(b: Seq<u8>) -> Seq<u64> {
    Seq::new(b.len() / 8, |k: int| le_value(b.subrange(8 * k, 8 * k + 8)) as u64)
}

/// The bytes of raw words number eight per word.
pub proof fn lemma_words_bytes_len(ws: Seq<u64>)
    ensures
        words_bytes(ws).len() == 8 * ws.len(),
    decreases ws.len(),
{
    if ws.len() > 0 {
        lemma_words_bytes_len(ws.drop_last());
        lemma_le_bytes_len(ws.last() as nat, 8);
    }
}

/// The bytes of raw words take eight bytes per word, in order.
pub proof fn lemma_words_bytes(ws: Seq<u64>)
    ensures
        words_bytes(ws).len() == 8 * ws.len(),
        forall|k: int| 0 <= k < ws.len() ==> #[trigger] words_bytes(ws).subrange(8 * k, 8 * k + 8) == le_bytes(ws[k] as nat, 8),
    decreases ws.len(),
{
    if ws.len() > 0 {
        let t = ws.drop_last();
        lemma_words_bytes(t);
        lemma_le_bytes_len(ws.last() as nat, 8);
        let b = words_bytes(ws);
        assert forall|k: int| 0 <= k < ws.len() implies #[trigger] b.subrange(8 * k, 8 * k + 8) == le_bytes(ws[k] as nat, 8) by {
            if k < t.len() {
                assert(b.subrange(8 * k, 8 * k + 8) =~= words_bytes(t).subrange(8 * k, 8 * k + 8));
            } else {
                assert(b.subrange(8 * k, 8 * k + 8) =~= le_bytes(ws.last() as nat, 8));
            }
        }
    }
}

/// Decoding the bytes of raw words gives the words back.
pub proof fn lemma_words_roundtrip(ws: Seq<u64>)
    ensures
        words_of_bytes(words_bytes(ws)) == ws,
{
    lemma_words_bytes(ws);
    lemma_pow256_values();
    assert forall|k: int| 0 <= k < ws.len() implies #[trigger] words_of_bytes(words_bytes(ws))[k] == ws[k] by {
        lemma_le_roundtrip(ws[k] as nat, 8);
        assert(words_bytes(ws).subrange(8 * k, 8 * k + 8) == le_bytes(ws[k] as nat, 8));
    }
    assert(words_of_bytes(words_bytes(ws)) =~= ws);
}

} // verus!
