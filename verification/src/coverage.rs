use vstd::prelude::*;

use crate::axis::{axis_index, axis_inverse, Axis, AxisArray};

verus! {

/// Facts about the bits of words.
pub proof fn lemma_word_bits(x: u64, y: u64, z: u64)
    by (bit_vector)
    ensures
        x >> 1 == x / 2,
        x & 1 == x % 2,
        x & !x == 0,
        x & !0xFFFF_FFFF_FFFF_FFFFu64 == 0,
        0u64 & !y == 0,
        y == 0 ==> x & !y == x,
        x & !y == 0 ==> (x >> 1) & !(y >> 1) == 0,
        x & !y == 0 ==> x & 1 <= y & 1,
        x & !y == 0 && y & !z == 0 ==> x & !z == 0,
{
}

/// The number of set bits of a word.
pub open spec fn popcount(x: u64) -> nat
    decreases x,
{
    if x == 0 {
        0
    } else {
        proof {
            lemma_word_bits(x, x, x);
        }
        (x & 1) as nat + popcount(x >> 1)
    }
}

proof fn lemma_shift_smaller(x: u64)
    requires
        x != 0,
    ensures
        x >> 1 < x,
        x >> 1 == x / 2,
        x & 1 == x % 2,
{
    lemma_word_bits(x, x, x);
}

/// A word below 2 to the n has at most n bits set; exactly n where it is 2 to the n, less
/// one; and none exactly where it is 0.
proof fn lemma_popcount_bound(x: u64, n: nat)
    requires
        x < vstd::arithmetic::power2::pow2(n),
        n <= 64,
    ensures
        popcount(x) <= n,
        popcount(x) == n <==> x + 1 == vstd::arithmetic::power2::pow2(n),
        popcount(x) == 0 <==> x == 0,
    decreases n,
{
    vstd::arithmetic::power2::lemma_pow2_pos(n);
    if x == 0 {
        if n > 0 {
            vstd::arithmetic::power2::lemma_pow2_unfold(n);
            vstd::arithmetic::power2::lemma_pow2_pos((n - 1) as nat);
        } else {
            vstd::arithmetic::power2::lemma2_to64();
        }
    } else {
        lemma_shift_smaller(x);
        if n == 0 {
            vstd::arithmetic::power2::lemma2_to64();
            assert(false);
        } else {
            let p = vstd::arithmetic::power2::pow2((n - 1) as nat);
            vstd::arithmetic::power2::lemma_pow2_unfold(n);
            assert(x / 2 < p);
            lemma_popcount_bound(x >> 1, (n - 1) as nat);
            assert(popcount(x) == (x % 2) as nat + popcount(x >> 1));
            assert(x == 2 * (x / 2) + x % 2);
        }
    }
}

/// A word has all 64 bits set exactly where it is all ones, and none exactly where it is 0.
pub proof fn lemma_popcount_word(x: u64)
    ensures
        popcount(x) <= 64,
        popcount(x) == 64 <==> x == u64::MAX,
        popcount(x) == 0 <==> x == 0,
{
    vstd::arithmetic::power2::lemma2_to64();
    lemma_popcount_bound(x, 64);
}

/// Where every bit of a is set in b, b has at least as many bits set.
pub proof fn lemma_popcount_mono(a: u64, b: u64)
    requires
        a & !b == 0,
    ensures
        popcount(a) <= popcount(b),
    decreases a,
{
    lemma_word_bits(a, b, b);
    if a != 0 {
        lemma_shift_smaller(a);
        if b == 0 {
            assert(a & !b == a);
            assert(false);
        }
        lemma_shift_smaller(b);
        lemma_popcount_mono(a >> 1, b >> 1);
    }
}

/// Count the set bits of a word.
pub fn count_ones(x: u64) -> (r: u32)
    ensures
        r == popcount(x),
        r <= 64,
{
    proof {
        vstd::arithmetic::power2::lemma2_to64();
        lemma_popcount_bound(x, 64);
    }
    let mut rest = x;
    let mut count: u32 = 0;
    while rest != 0
        invariant
            count + popcount(rest) == popcount(x),
            popcount(x) <= 64,
        decreases rest,
    {
        proof {
            lemma_shift_smaller(rest);
        }
        count = count + (rest & 1) as u32;
        rest = rest >> 1;
    }
    count
}

/// A 16x16 mask of the covered texels of a block face.
#[derive(Copy, Clone, Eq, PartialEq, Hash, Debug, Default)]
pub struct Mask(pub [u64; 4]);

/// The number of covered texels of a mask.
pub open spec fn mask_count(m: Mask) -> nat {
    popcount(m.0[0]) + popcount(m.0[1]) + popcount(m.0[2]) + popcount(m.0[3])
}

impl Mask {
    /// No texel is covered.
    pub fn empty() -> (r: Mask)
        ensures
            r.0@ == seq![0u64, 0u64, 0u64, 0u64],
    {
        Mask([0u64; 4])
    }

    /// Every texel is covered.
    pub fn full() -> (r: Mask)
        ensures
            r.0@ == seq![u64::MAX, u64::MAX, u64::MAX, u64::MAX],
    {
        Mask([u64::MAX; 4])
    }

    /// The quadrant from 0,0 to 8,8.
    pub fn q00() -> (r: Mask)
        ensures
            r.0@ == seq![0xFF00_FF00_FF00_FF00u64, 0xFF00_FF00_FF00_FF00u64, 0u64, 0u64],
    {
        Mask([0xFF00_FF00_FF00_FF00, 0xFF00_FF00_FF00_FF00, 0x0, 0x0])
    }

    /// The quadrant from 8,0 to 16,8.
    pub fn q10() -> (r: Mask)
        ensures
            r.0@ == seq![0x00FF_00FF_00FF_00FFu64, 0x00FF_00FF_00FF_00FFu64, 0u64, 0u64],
    {
        Mask([0x00FF_00FF_00FF_00FF, 0x00FF_00FF_00FF_00FF, 0x0, 0x0])
    }

    /// The quadrant from 0,8 to 8,16.
    pub fn q01() -> (r: Mask)
        ensures
            r.0@ == seq![0u64, 0u64, 0xFF00_FF00_FF00_FF00u64, 0xFF00_FF00_FF00_FF00u64],
    {
        Mask([0x0, 0x0, 0xFF00_FF00_FF00_FF00, 0xFF00_FF00_FF00_FF00])
    }

    /// The quadrant from 8,8 to 16,16.
    pub fn q11() -> (r: Mask)
        ensures
            r.0@ == seq![0u64, 0u64, 0x00FF_00FF_00FF_00FFu64, 0x00FF_00FF_00FF_00FFu64],
    {
        Mask([0x0, 0x0, 0x00FF_00FF_00FF_00FF, 0x00FF_00FF_00FF_00FF])
    }

    pub fn is_full(&self) -> (r: bool)
        ensures
            r == (self.0[0] == u64::MAX && self.0[1] == u64::MAX && self.0[2] == u64::MAX
                && self.0[3] == u64::MAX),
    {
        self.0[0] == u64::MAX && self.0[1] == u64::MAX && self.0[2] == u64::MAX && self.0[3]
            == u64::MAX
    }

    pub fn is_empty(&self) -> (r: bool)
        ensures
            r == (self.0[0] == 0 && self.0[1] == 0 && self.0[2] == 0 && self.0[3] == 0),
    {
        self.0[0] == 0 && self.0[1] == 0 && self.0[2] == 0 && self.0[3] == 0
    }

    /// Some, but not all, texels are covered.
    pub fn is_partial(&self) -> (r: bool)
        ensures
            r == (0 < mask_count(*self) < 256),
    {
        let sum = self.num_covered();
        sum > 0 && sum < 256
    }

    /// Every texel covered by self is covered by other.
    pub fn is_covered_by(&self, other: &Mask) -> (r: bool)
        ensures
            r == (self.0[0] & !other.0[0] == 0 && self.0[1] & !other.0[1] == 0 && self.0[2]
                & !other.0[2] == 0 && self.0[3] & !other.0[3] == 0),
    {
        self.0[0] & !other.0[0] == 0 && self.0[1] & !other.0[1] == 0 && self.0[2] & !other.0[2] == 0
            && self.0[3] & !other.0[3] == 0
    }

    /// The number of covered texels, in 0..=256.
    pub fn num_covered(&self) -> (r: u16)
        ensures
            r == mask_count(*self),
            r <= 256,
    {
        (count_ones(self.0[0]) + count_ones(self.0[1]) + count_ones(self.0[2]) + count_ones(
            self.0[3],
        )) as u16
    }
}

/// The coverage of one face of a block.
#[derive(Copy, Clone)]
pub struct Coverage {
    /// Texels of the face that are covered.
    pub mask: Mask,
    /// Number of covered texels, in 0..=256.
    pub num_bits: u16,
    /// The texture of the face. 0 is an opaque or air face.
    pub texture: u16,
}

impl Coverage {
    /// The coverage of a face with this mask and texture.
    pub fn new(mask: Mask, texture: u16) -> (r: Coverage)
        ensures
            r.mask == mask,
            r.num_bits == mask_count(mask),
            r.texture == texture,
    {
        Coverage { mask, num_bits: mask.num_covered(), texture }
    }

    /// Whether self is covered by other. An empty face is never covered.
    pub fn is_covered_by(&self, other: &Coverage) -> (r: bool)
        ensures
            r == (if self.num_bits > other.num_bits || self.num_bits == 0 {
                false
            } else if other.num_bits == 256 {
                self.texture == other.texture
            } else if self.texture == other.texture {
                self.mask.0[0] & !other.mask.0[0] == 0 && self.mask.0[1] & !other.mask.0[1] == 0
                    && self.mask.0[2] & !other.mask.0[2] == 0 && self.mask.0[3] & !other.mask.0[3]
                    == 0
            } else {
                self.texture == 0 && self.mask.0[0] & !other.mask.0[0] == 0 && self.mask.0[1]
                    & !other.mask.0[1] == 0 && self.mask.0[2] & !other.mask.0[2] == 0
                    && self.mask.0[3] & !other.mask.0[3] == 0
            }),
    {
        if self.num_bits > other.num_bits || self.num_bits == 0 {
            false
        } else if other.num_bits == 256 {
            self.texture == other.texture
        } else if self.texture == other.texture {
            self.mask.is_covered_by(&other.mask)
        } else {
            self.is_opaque() && self.mask.is_covered_by(&other.mask)
        }
    }

    pub fn is_opaque(&self) -> (r: bool)
        ensures
            r == (self.texture == 0),
    {
        self.texture == 0
    }

    pub fn is_transparent(&self) -> (r: bool)
        ensures
            r == (self.texture != 0),
    {
        self.texture != 0
    }
}

/// Every mask is covered by itself.
pub proof fn lemma_mask_covered_by_self(m: Mask)
    ensures
        m.0[0] & !m.0[0] == 0 && m.0[1] & !m.0[1] == 0 && m.0[2] & !m.0[2] == 0 && m.0[3] & !m.0[3]
            == 0,
{
    lemma_word_bits(m.0[0], m.0[0], m.0[0]);
    lemma_word_bits(m.0[1], m.0[1], m.0[1]);
    lemma_word_bits(m.0[2], m.0[2], m.0[2]);
    lemma_word_bits(m.0[3], m.0[3], m.0[3]);
}

/// A mask is full exactly where it covers 256 texels, empty exactly where it covers none, and
/// partial otherwise: exactly one of the three holds.
pub proof fn lemma_mask_states(m: Mask)
    ensures
        mask_count(m) <= 256,
        (m.0[0] == u64::MAX && m.0[1] == u64::MAX && m.0[2] == u64::MAX && m.0[3] == u64::MAX)
            <==> mask_count(m) == 256,
        (m.0[0] == 0 && m.0[1] == 0 && m.0[2] == 0 && m.0[3] == 0) <==> mask_count(m) == 0,
{
    lemma_popcount_word(m.0[0]);
    lemma_popcount_word(m.0[1]);
    lemma_popcount_word(m.0[2]);
    lemma_popcount_word(m.0[3]);
}

/// Covering is transitive, the empty mask is covered by every mask, every mask is covered by
/// the full one, and a covered mask covers no more texels than the mask covering it.
pub proof fn lemma_mask_cover(a: Mask, b: Mask, c: Mask)
    ensures
        mask_covers(a, b) && mask_covers(b, c) ==> mask_covers(a, c),
        (a.0[0] == 0 && a.0[1] == 0 && a.0[2] == 0 && a.0[3] == 0) ==> mask_covers(a, b),
        (b.0[0] == u64::MAX && b.0[1] == u64::MAX && b.0[2] == u64::MAX && b.0[3] == u64::MAX)
            ==> mask_covers(a, b),
        mask_covers(a, b) ==> mask_count(a) <= mask_count(b),
{
    lemma_word_bits(a.0[0], b.0[0], c.0[0]);
    lemma_word_bits(a.0[1], b.0[1], c.0[1]);
    lemma_word_bits(a.0[2], b.0[2], c.0[2]);
    lemma_word_bits(a.0[3], b.0[3], c.0[3]);
    if mask_covers(a, b) {
        lemma_popcount_mono(a.0[0], b.0[0]);
        lemma_popcount_mono(a.0[1], b.0[1]);
        lemma_popcount_mono(a.0[2], b.0[2]);
        lemma_popcount_mono(a.0[3], b.0[3]);
    }
}


/// Every texel covered by m is covered by other.
pub open spec fn mask_covers(m: Mask, other: Mask) -> bool {
    m.0[0] & !other.0[0] == 0 && m.0[1] & !other.0[1] == 0 && m.0[2] & !other.0[2] == 0 && m.0[3]
        & !other.0[3] == 0
}

/// Whether a face, with its mask, number of covered texels and texture, is covered by the face
/// of another block that it touches. An empty face is never covered.
pub open spec fn face_covered_by(m: Mask, bits: u16, texture: u16, om: Mask, obits: u16, otexture: u16) -> bool {
    if bits > obits || bits == 0 {
        false
    } else if obits == 256 {
        texture == otexture
    } else if texture == otexture {
        mask_covers(m, om)
    } else {
        texture == 0 && mask_covers(m, om)
    }
}

/// How textures decide whether a face is hidden by a partial face it touches that has at least
/// as many covered texels: under a face of the same texture, or as an opaque face (texture 0)
/// under a face of any texture, exactly where the other's mask covers its own; a textured face
/// under a face of another texture, never. So the other's texture counts only through whether
/// it equals this face's. Under a full face, a face is hidden exactly where the textures match.
pub proof fn lemma_face_cover_textures(m: Mask, bits: u16, om: Mask, obits: u16)
    requires
        0 < bits <= obits,
    ensures
        obits < 256 ==> forall|ot: u16| #[trigger] face_covered_by(m, bits, 0, om, obits, ot)
            == mask_covers(m, om),
        obits < 256 ==> forall|t: u16| #[trigger] face_covered_by(m, bits, t, om, obits, t)
            == mask_covers(m, om),
        obits < 256 ==> forall|t: u16, ot: u16|
            t != 0 && t != ot ==> !#[trigger] face_covered_by(m, bits, t, om, obits, ot),
        forall|t: u16, ot1: u16, ot2: u16|
            t != ot1 && t != ot2 ==> #[trigger] face_covered_by(m, bits, t, om, obits, ot1)
                == #[trigger] face_covered_by(m, bits, t, om, obits, ot2),
        obits == 256 ==> forall|t: u16, ot: u16| #[trigger] face_covered_by(m, bits, t, om, obits, ot)
            == (t == ot),
{
}

/// The coverage of each face of a block.
#[derive(Copy, Clone)]
pub struct Coverages {
    /// (number of covered texels, texture) of each face.
    data: AxisArray<(u16, u16)>,
    /// The mask of each face.
    masks: AxisArray<Mask>,
}

impl Coverages {
    /// The number of covered texels of a face.
    pub closed spec fn count(&self, axis: Axis) -> u16 {
        self.data@[axis_index(axis) as int].0
    }

    /// The texture of a face.
    pub closed spec fn texture(&self, axis: Axis) -> u16 {
        self.data@[axis_index(axis) as int].1
    }

    /// The mask of a face.
    pub closed spec fn mask(&self, axis: Axis) -> Mask {
        self.masks@[axis_index(axis) as int]
    }

    /// The coverage of each face, from its texture and mask.
    pub fn new(textures: AxisArray<u16>, masks: AxisArray<Mask>) -> (r: Coverages)
        ensures
            forall|a: Axis| #[trigger] r.count(a) == mask_count(masks@[axis_index(a) as int]),
            forall|a: Axis| #[trigger] r.texture(a) == textures@[axis_index(a) as int],
            forall|a: Axis| #[trigger] r.mask(a) == masks@[axis_index(a) as int],
    {
        proof {
            textures.lemma_len();
            masks.lemma_len();
        }
        let data = AxisArray::new(
            [
                (masks.index(Axis::PosX).num_covered(), *textures.index(Axis::PosX)),
                (masks.index(Axis::NegX).num_covered(), *textures.index(Axis::NegX)),
                (masks.index(Axis::PosY).num_covered(), *textures.index(Axis::PosY)),
                (masks.index(Axis::NegY).num_covered(), *textures.index(Axis::NegY)),
                (masks.index(Axis::PosZ).num_covered(), *textures.index(Axis::PosZ)),
                (masks.index(Axis::NegZ).num_covered(), *textures.index(Axis::NegZ)),
            ],
        );
        let r = Coverages { data, masks };
        proof {
            assert forall|a: Axis| #[trigger] r.count(a) == mask_count(masks@[axis_index(a) as int]) by {
                match a {
                    Axis::PosX => {},
                    Axis::NegX => {},
                    Axis::PosY => {},
                    Axis::NegY => {},
                    Axis::PosZ => {},
                    Axis::NegZ => {},
                }
            }
            assert forall|a: Axis| #[trigger] r.texture(a) == textures@[axis_index(a) as int] by {
                match a {
                    Axis::PosX => {},
                    Axis::NegX => {},
                    Axis::PosY => {},
                    Axis::NegY => {},
                    Axis::PosZ => {},
                    Axis::NegZ => {},
                }
            }
        }
        r
    }

    /// Whether the face of self on this axis is covered by the face of other that it touches.
    pub fn is_covered_by(&self, other: &Coverages, axis: Axis) -> (r: bool)
        ensures
            r == face_covered_by(
                self.mask(axis),
                self.count(axis),
                self.texture(axis),
                other.mask(axis_inverse(axis)),
                other.count(axis_inverse(axis)),
                other.texture(axis_inverse(axis)),
            ),
    {
        proof {
            self.data.lemma_len();
            other.data.lemma_len();
        }
        let rhs_axis = axis.invert();
        let (lhs_num_bits, lhs_texture) = *self.data.index(axis);
        let (rhs_num_bits, rhs_texture) = *other.data.index(rhs_axis);
        if lhs_num_bits > rhs_num_bits || lhs_num_bits == 0 {
            // self has more covered texels than other, so other cannot cover it; or self is
            // empty and does not touch the boundary at all
            false
        } else if rhs_num_bits == 256 {
            // other is full: self is covered where the textures match
            lhs_texture == rhs_texture
        } else if lhs_texture == rhs_texture {
            // both are partial and neither is empty
            self.masks.index(axis).is_covered_by(other.masks.index(rhs_axis))
        } else {
            // both are partial, and they are not both opaque
            lhs_texture == 0 && self.masks.index(axis).is_covered_by(other.masks.index(rhs_axis))
        }
    }

    /// Whether the face on this axis is full and has this texture.
    pub fn is_full_and_texture(&self, axis: Axis, texture: u16) -> (r: bool)
        ensures
            r == (self.count(axis) == 256 && self.texture(axis) == texture),
    {
        let (rhs_num_bits, rhs_texture) = *self.data.index(axis);
        rhs_num_bits == 256 && rhs_texture == texture
    }
}

} // verus!
