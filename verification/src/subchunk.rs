use vstd::prelude::*;

use crate::format::{subchunk_header_bytes, SubchunkHeader};
use crate::palette::{min_cap, pal_bytes, states_valid};
use crate::voxels::bits_for_cap;
use crate::words::indices_of;
use crate::words::words_bytes;
use crate::zip::Zipper;
use crate::lights::Lights;
use crate::palette::EMPTY_STATE;
use crate::region::{to_voxel_index_wrapping, voxel_index};
use crate::space::IVec3;
use crate::voxel::{Light, Voxel, VoxelState};
use crate::voxels::Voxels;

verus! {

/// The number of bytes that pad a palette of this many entries to an 8-byte boundary.
pub open spec fn palette_padding(palette_len: nat) -> nat {
    ((8 - (2 * palette_len) % 8) % 8) as nat
}

/// A 32x32x32 volume of voxels. Voxels are indexed y-major: y + 32 * x + 1024 * z.
pub struct Subchunk {
    /// 32x32x32 array of voxel values.
    voxels: Voxels,
    /// 32x32x32 array of voxel light values.
    lights: Lights,
    /// Minimum coordinate contained by this subchunk.
    origin: IVec3,
}

impl Subchunk {
    /// The value of each voxel, by voxel index.
    pub closed spec fn voxels_view(&self) -> Seq<u16> {
        self.voxels@
    }

    /// The light of each voxel, by voxel index.
    pub closed spec fn lights_view(&self) -> Seq<Light> {
        self.lights@
    }

    /// The states of the palette that the voxels are stored with.
    pub closed spec fn palette_view(&self) -> Seq<u16> {
        self.voxels.palette_view()
    }

    /// The bits per index that the voxels are stored with.
    pub closed spec fn bits(&self) -> nat {
        self.voxels.bits()
    }

    pub closed spec fn origin_spec(&self) -> IVec3 {
        self.origin
    }

    pub closed spec fn wf(&self) -> bool {
        &&& self.voxels.wf()
        &&& self.lights.wf()
    }

    /// Whether v can be stored: it is not the palette's empty marker, and it is in the palette or
    /// the palette has room for it.
    pub open spec fn can_store(&self, v: u16) -> bool {
        &&& v != EMPTY_STATE
        &&& (self.palette_view().contains(v) || self.palette_view().len() < 32768)
    }

    /// The state of the voxel at index i.
    pub open spec fn state_at(&self, i: int) -> VoxelState {
        VoxelState { voxel: Voxel(self.voxels_view()[i]), light: self.lights_view()[i] }
    }

    /// There is one value and one light per voxel.
    pub proof fn lemma_len(&self)
        requires
            self.wf(),
        ensures
            self.voxels_view().len() == 32768,
            self.lights_view().len() == 32768,
    {
        self.voxels.lemma_len();
        self.lights.lemma_len();
    }

    /// A subchunk that is all air with full ambient light.
    pub fn new(origin: IVec3) -> (r: Subchunk)
        ensures
            r.wf(),
            r.origin_spec() == origin,
            r.voxels_view() == Seq::new(32768, |i: int| 0u16),
            r.lights_view() == Seq::new(32768, |i: int| Light { intensity: 0xF }),
            r.palette_view() == seq![0u16],
    {
        Subchunk { voxels: Voxels::empty(), lights: Lights::new(Light::ambient_full()), origin }
    }

    /// The minimum coordinate contained by the subchunk.
    pub fn origin(&self) -> (r: IVec3)
        ensures
            r == self.origin_spec(),
    {
        self.origin
    }

    /// The header that starts the subchunk's section of encoded chunk data.
    pub fn header(&self) -> (r: SubchunkHeader)
        requires
            self.wf(),
        ensures
            r.y_origin == self.origin_spec().y,
            r.palette_len == self.palette_view().len() as u16,
            r.padding_size == palette_padding(self.palette_view().len()),
            r.bpi == self.bits(),
    {
        let len = self.voxels.palette_len();
        let padding = (8 - (len % 4) * 2) % 8;
        assert((2 * len) % 8 == (len % 4) * 2) by (nonlinear_arith);
        SubchunkHeader {
            y_origin: self.origin.y,
            palette_len: len as u16,
            padding_size: padding as u8,
            bpi: self.voxels.bpi(),
        }
    }

    /// The state of the voxel at this position. This operation is wrapping and cannot fail.
    pub fn get_state(&self, pos: IVec3) -> (r: VoxelState)
        requires
            self.wf(),
        ensures
            r == self.state_at(voxel_index(pos)),
    {
        let i = to_voxel_index_wrapping(pos);
        VoxelState { voxel: Voxel(self.voxels.get(i)), light: self.lights.get(i) }
    }

    /// Assign the state of the voxel at this position. This operation is wrapping and cannot
    /// fail.
    pub fn set_state(&mut self, pos: IVec3, state: VoxelState)
        requires
            old(self).wf(),
            old(self).can_store(state.voxel.0),
        ensures
            final(self).wf(),
            final(self).voxels_view() == old(self).voxels_view().update(
                voxel_index(pos),
                state.voxel.0,
            ),
            final(self).lights_view() == old(self).lights_view().update(
                voxel_index(pos),
                state.light,
            ),
            final(self).origin_spec() == old(self).origin_spec(),
            old(self).palette_view().is_prefix_of(final(self).palette_view()),
    {
        let i = to_voxel_index_wrapping(pos);
        self.voxels.set(i, state.voxel.0);
        self.lights.set(i, state.light);
    }

    /// Assign the state of the voxel at this position, returning the previous state.
    /// This operation is wrapping and cannot fail.
    pub fn replace_state(&mut self, pos: IVec3, state: VoxelState) -> (r: VoxelState)
        requires
            old(self).wf(),
            old(self).can_store(state.voxel.0),
        ensures
            r == old(self).state_at(voxel_index(pos)),
            final(self).wf(),
            final(self).voxels_view() == old(self).voxels_view().update(
                voxel_index(pos),
                state.voxel.0,
            ),
            final(self).lights_view() == old(self).lights_view().update(
                voxel_index(pos),
                state.light,
            ),
            final(self).origin_spec() == old(self).origin_spec(),
            old(self).palette_view().is_prefix_of(final(self).palette_view()),
    {
        let i = to_voxel_index_wrapping(pos);
        let voxel = Voxel(self.voxels.replace(i, state.voxel.0));
        let light = self.lights.replace(i, state.light);
        VoxelState { voxel, light }
    }

    /// The value of the voxel at this position. This operation is wrapping and cannot fail.
    pub fn get_voxel(&self, pos: IVec3) -> (r: Voxel)
        requires
            self.wf(),
        ensures
            r.0 == self.voxels_view()[voxel_index(pos)],
    {
        Voxel(self.voxels.get(to_voxel_index_wrapping(pos)))
    }

    /// Assign the value of the voxel at this position. This operation is wrapping and cannot
    /// fail.
    pub fn set_voxel(&mut self, pos: IVec3, v: Voxel)
        requires
            old(self).wf(),
            old(self).can_store(v.0),
        ensures
            final(self).wf(),
            final(self).voxels_view() == old(self).voxels_view().update(voxel_index(pos), v.0),
            final(self).lights_view() == old(self).lights_view(),
            final(self).origin_spec() == old(self).origin_spec(),
            old(self).palette_view().is_prefix_of(final(self).palette_view()),
    {
        self.voxels.set(to_voxel_index_wrapping(pos), v.0)
    }

    /// Assign the value of the voxel at this position, returning the previous value.
    /// This operation is wrapping and cannot fail.
    pub fn replace_voxel(&mut self, pos: IVec3, v: Voxel) -> (r: Voxel)
        requires
            old(self).wf(),
            old(self).can_store(v.0),
        ensures
            r.0 == old(self).voxels_view()[voxel_index(pos)],
            final(self).wf(),
            final(self).voxels_view() == old(self).voxels_view().update(voxel_index(pos), v.0),
            final(self).lights_view() == old(self).lights_view(),
            final(self).origin_spec() == old(self).origin_spec(),
            old(self).palette_view().is_prefix_of(final(self).palette_view()),
    {
        Voxel(self.voxels.replace(to_voxel_index_wrapping(pos), v.0))
    }

    /// The light value of the voxel at this position. This operation is wrapping and cannot
    /// fail.
    pub fn get_light(&self, pos: IVec3) -> (r: Light)
        requires
            self.wf(),
        ensures
            r == self.lights_view()[voxel_index(pos)],
    {
        self.lights.get(to_voxel_index_wrapping(pos))
    }

    /// Assign the light value of the voxel at this position. This operation is wrapping and
    /// cannot fail.
    pub fn set_light(&mut self, pos: IVec3, v: Light)
        requires
            old(self).wf(),
        ensures
            final(self).wf(),
            final(self).lights_view() == old(self).lights_view().update(voxel_index(pos), v),
            final(self).voxels_view() == old(self).voxels_view(),
            final(self).palette_view() == old(self).palette_view(),
            final(self).bits() == old(self).bits(),
            final(self).origin_spec() == old(self).origin_spec(),
    {
        self.lights.set(to_voxel_index_wrapping(pos), v)
    }

    /// Assign the light value of the voxel at this position, returning the previous value.
    /// This operation is wrapping and cannot fail.
    pub fn replace_light(&mut self, pos: IVec3, v: Light) -> (r: Light)
        requires
            old(self).wf(),
        ensures
            r == old(self).lights_view()[voxel_index(pos)],
            final(self).wf(),
            final(self).lights_view() == old(self).lights_view().update(voxel_index(pos), v),
            final(self).voxels_view() == old(self).voxels_view(),
            final(self).palette_view() == old(self).palette_view(),
            final(self).bits() == old(self).bits(),
            final(self).origin_spec() == old(self).origin_spec(),
    {
        self.lights.replace(to_voxel_index_wrapping(pos), v)
    }

    /// Whether every voxel is air, which holds when the palette holds only air.
    pub fn is_empty(&self) -> (r: bool)
        requires
            self.wf(),
        ensures
            r == (self.palette_view().len() == 1),
            r ==> self.voxels_view() == Seq::new(32768, |i: int| 0u16),
    {
        self.voxels.is_empty()
    }

    /// Assign air to all voxels in the subchunk.
    pub fn fill_air(&mut self)
        requires
            old(self).wf(),
        ensures
            final(self).wf(),
            final(self).voxels_view() == Seq::new(32768, |i: int| 0u16),
            final(self).palette_view() == seq![0u16],
            final(self).bits() == 0,
            final(self).lights_view() == old(self).lights_view(),
            final(self).origin_spec() == old(self).origin_spec(),
    {
        self.voxels.set_empty();
    }

    /// The number of bytes the subchunk's palette and words take once encoded: 0 for an empty
    /// subchunk.
    pub fn get_size_estimate(&self) -> (r: usize)
        requires
            self.wf(),
        ensures
            self.palette_view().len() == 1 ==> r == 0,
            self.palette_view().len() != 1 ==> r == 2 * self.palette_view().len() + (if self.bits()
                == 0 {
                0
            } else {
                8 * crate::words::spec_words_len(self.bits())
            }),
    {
        proof {
            self.voxels.lemma_shape();
        }
        if self.is_empty() {
            0
        } else {
            let p = self.voxels.palette_as_bytes();
            let w = self.voxels.words_as_bytes();
            p.len() + w.len()
        }
    }

    /// The raw words that the voxel indices are stored in.
    pub closed spec fn words_raw(&self) -> Seq<u64> {
        self.voxels.words_raw()
    }

    /// Store these voxels in the subchunk; its lights and origin stay.
    pub fn assign_voxels(&mut self, voxels: Voxels)
        requires
            old(self).wf(),
            voxels.wf(),
        ensures
            final(self).wf(),
            final(self).voxels_view() == voxels@,
            final(self).palette_view() == voxels.palette_view(),
            final(self).bits() == voxels.bits(),
            final(self).words_raw() == voxels.words_raw(),
            final(self).lights_view() == old(self).lights_view(),
            final(self).origin_spec() == old(self).origin_spec(),
    {
        self.voxels = voxels;
    }

    /// Write the subchunk's section of encoded chunk data: its header, its palette, zeros that
    /// pad the palette to an 8-byte boundary, and its words. Only subchunks that are not empty
    /// are written.
    pub fn zip<Z: Zipper>(&self, zipper: &mut Z)
        requires
            self.wf(),
            self.palette_view().len() != 1,
            old(zipper).wf(),
            old(zipper).input().len() + section_bytes(*self).len() <= usize::MAX,
        ensures
            final(zipper).wf(),
            final(zipper).input() == old(zipper).input() + section_bytes(*self),
            final(zipper).config() == old(zipper).config(),
            final(zipper).first_put() == if old(zipper).first_put() == 0 {
                8
            } else {
                old(zipper).first_put()
            },
    {
        proof {
            self.voxels.lemma_shape();
            lemma_section_len(*self);
            reveal(section_bytes);
        }
        let header = self.header();
        let hb = header.to_bytes();
        zipper.put(hb.as_slice());
        let ghost first = zipper.first_put();
        assert(hb@.len() == 8);
        let pb = self.voxels.palette_as_bytes();
        zipper.put(pb.as_slice());
        let mut k: u8 = 0;
        let zero: Vec<u8> = vec![0u8];
        assert(zero@ =~= seq![0u8]);
        while k < header.padding_size
            invariant
                k <= header.padding_size,
                header.padding_size <= 7,
                zipper.wf(),
                zipper.config() == old(zipper).config(),
                zipper.input() == old(zipper).input() + subchunk_header_bytes(header) + pal_bytes(
                    self.palette_view(),
                ) + Seq::new(k as nat, |i: int| 0u8),
                old(zipper).input().len() + section_bytes(*self).len() <= usize::MAX,
                section_bytes(*self).len() == 8 + 2 * self.palette_view().len() + header.padding_size
                    + 8 * crate::words::spec_words_len(self.bits()),
                header == header_of(*self),
                subchunk_header_bytes(header).len() == 8,
                pal_bytes(self.palette_view()).len() == 2 * self.palette_view().len(),
                zero@ == seq![0u8],
                zipper.first_put() == first,
                first == if old(zipper).first_put() == 0 { 8 } else { old(zipper).first_put() },
            decreases header.padding_size - k,
        {
            zipper.put(zero.as_slice());
            k = k + 1;
            assert(zipper.input() =~= old(zipper).input() + subchunk_header_bytes(header) + pal_bytes(
                self.palette_view(),
            ) + Seq::new(k as nat, |i: int| 0u8));
        }
        let wb = self.voxels.words_as_bytes();
        zipper.put(wb.as_slice());
        proof {
            reveal(section_bytes);
        }
        assert(zipper.input() =~= old(zipper).input() + section_bytes(*self));
    }
}

/// The header of a subchunk's section of encoded chunk data.
pub open spec fn header_of(s: Subchunk) -> SubchunkHeader {
    SubchunkHeader {
        y_origin: s.origin_spec().y,
        palette_len: s.palette_view().len() as u16,
        padding_size: palette_padding(s.palette_view().len()) as u8,
        bpi: s.bits() as u8,
    }
}

/// A subchunk's section of encoded chunk data.
#[verifier::opaque]
pub open spec fn section_bytes(s: Subchunk) -> Seq<u8> {
    subchunk_header_bytes(header_of(s)) + pal_bytes(s.palette_view()) + Seq::new(
        palette_padding(s.palette_view().len()),
        |i: int| 0u8,
    ) + words_bytes(s.words_raw())
}

/// How a well-formed subchunk stores its voxels; see `Voxels::lemma_storage`.
pub proof fn lemma_subchunk_storage(s: Subchunk)
    requires
        s.wf(),
    ensures
        states_valid(s.palette_view()),
        s.palette_view().len() <= 32768,
        s.bits() == bits_for_cap(min_cap(s.palette_view().len())),
        s.words_raw().len() == crate::words::spec_words_len(s.bits()),
        s.bits() == 0 || s.bits() == 4 || s.bits() == 8 || s.bits() == 16,
        s.bits() == 0 ==> s.palette_view().len() == 1,
        forall|i: int| 0 <= i < 32768 ==> #[trigger] indices_of(s.bits(), s.words_raw())[i] < s.palette_view().len(),
        s.voxels_view() == Seq::new(32768, |i: int| s.palette_view()[indices_of(s.bits(), s.words_raw())[i] as int]),
        s.palette_view().len() == 1 ==> s.voxels_view() == Seq::new(32768, |i: int| 0u16),
{
    s.voxels.lemma_storage();
    s.voxels.lemma_shape();
}

/// The length of a section of a subchunk that is not empty.
pub proof fn lemma_section_len(s: Subchunk)
    requires
        s.wf(),
        s.palette_view().len() != 1,
    ensures
        section_bytes(s).len() == 8 + 2 * s.palette_view().len() + palette_padding(s.palette_view().len())
            + 8 * crate::words::spec_words_len(s.bits()),
        section_bytes(s).len() <= 131087,
        palette_padding(s.palette_view().len()) <= 7,
{
    reveal(section_bytes);
    s.voxels.lemma_shape();
    crate::format::lemma_subchunk_header_roundtrip(header_of(s), Seq::empty());
    crate::palette::lemma_pal_bytes(s.palette_view());
    crate::words::lemma_words_bytes(s.words_raw());
    s.voxels.lemma_words_len();
}

} // verus!
