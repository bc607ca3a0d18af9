use vstd::prelude::*;

use crate::chunk::Chunk;
use crate::format::{
    chunk_header_of, read_chunk_from_span_v1, region_loadable, span_read_outcome, ChunkFormat,
    ChunkHeader, ChunkReadError, ChunkReadSuccess, UnzippedChunk,
};
use crate::zip::UnzippedSpan;
use crate::region::{region_id_of, voxel_index, RegionId};
use crate::resolver::{distinct, indexes, lemma_swap_remove, region_keys, OwnedResolver};
use crate::space::{ivec2, ivec3, IVec2, IVec3};
use crate::subchunk::Subchunk;
use crate::voxel::{Light, Voxel, VoxelState};

verus! {

/// Where a position lies in a region with this origin and height: the index of its chunk,
/// x-major, and of its subchunk in that chunk, bottom up.
pub open spec fn region_slot(origin: IVec3, height: i32, pos: IVec3) -> Option<(int, int)> {
    let ox = pos.x - origin.x;
    let oy = pos.y - origin.y;
    let oz = pos.z - origin.z;
    if 0 <= ox < 512 && 0 <= oz < 512 && 0 <= oy < height {
        Some((ox / 32 + 16 * (oz / 32), oy / 32))
    } else {
        None
    }
}

/// A 512xHx512 volume of voxels where H is a multiple of 32: a 16x16 array of 32xHx32 chunks,
/// x-major.
pub struct Region {
    chunks: Vec<Chunk>,
    /// The minimum point contained by the Region. Its components are multiples of 32.
    origin: IVec3,
    /// The distance from origin to limit on the Y axis.
    height: i32,
}

impl Region {
    pub closed spec fn chunks_view(&self) -> Seq<Chunk> {
        self.chunks@
    }

    pub closed spec fn origin_spec(&self) -> IVec3 {
        self.origin
    }

    pub closed spec fn height_spec(&self) -> i32 {
        self.height
    }

    /// Where pos lies in the region, if it does.
    pub open spec fn slot(&self, pos: IVec3) -> Option<(int, int)> {
        region_slot(self.origin_spec(), self.height_spec(), pos)
    }

    /// The subchunk at a slot.
    pub open spec fn subchunk_at(&self, slot: (int, int)) -> Subchunk {
        self.chunks_view()[slot.0].subchunks_view()[slot.1]
    }

    pub closed spec fn wf(&self) -> bool {
        &&& self.chunks@.len() == 256
        &&& self.origin.x % 32 == 0
        &&& self.origin.y % 32 == 0
        &&& self.origin.z % 32 == 0
        &&& self.height > 0
        &&& self.height % 32 == 0
        &&& self.origin.y + self.height <= i32::MAX - 1024
        &&& self.origin.x <= i32::MAX - 512
        &&& self.origin.z <= i32::MAX - 512
        &&& forall|i: int|
            0 <= i < 256 ==> {
                &&& (#[trigger] self.chunks@[i]).wf()
                &&& self.chunks@[i].origin_spec() == (IVec3 {
                    x: (self.origin.x + 32 * (i % 16)) as i32,
                    y: self.origin.y,
                    z: (self.origin.z + 32 * (i / 16)) as i32,
                })
                &&& self.chunks@[i].height_spec() == self.height
            }
    }

    /// Whether v can be stored at pos: the region holds pos and the subchunk there can store v.
    pub open spec fn can_store(&self, pos: IVec3, v: u16) -> bool {
        self.slot(pos) matches Some(s) ==> self.subchunk_at(s).can_store(v)
    }

    /// Every subchunk but the one at slot s is the same in self as in old_region.
    pub open spec fn others_unchanged(&self, old_region: Region, s: (int, int)) -> bool {
        &&& self.origin_spec() == old_region.origin_spec()
        &&& self.height_spec() == old_region.height_spec()
        &&& self.chunks_view().len() == old_region.chunks_view().len()
        &&& forall|i: int|
            0 <= i < self.chunks_view().len() && i != s.0 ==> #[trigger] self.chunks_view()[i]
                == old_region.chunks_view()[i]
        &&& self.chunks_view()[s.0].others_unchanged(old_region.chunks_view()[s.0], s.1 as nat)
    }

    /// A region of air with full ambient light. The origin's components must be multiples of
    /// 32, and the height a positive multiple of 32.
    pub fn new(origin: IVec3, height: i32) -> (r: Region)
        requires
            origin.x % 32 == 0,
            origin.y % 32 == 0,
            origin.z % 32 == 0,
            height > 0,
            height % 32 == 0,
            origin.y + height <= i32::MAX - 1024,
            origin.x <= i32::MAX - 512,
            origin.z <= i32::MAX - 512,
        ensures
            r.wf(),
            r.origin_spec() == origin,
            r.height_spec() == height,
            forall|i: int, k: int|
                0 <= i < 256 && 0 <= k < height / 32 ==> (#[trigger] r.chunks_view()[i].subchunks_view()[k]).voxels_view()
                    == Seq::new(32768, |j: int| 0u16),
            forall|i: int| 0 <= i < 256 ==> (#[trigger] r.chunks_view()[i]).is_fresh(),
    {
        let mut chunks: Vec<Chunk> = Vec::new();
        let mut z: i32 = 0;
        while z < 16
            invariant
                0 <= z <= 16,
                chunks@.len() == 16 * z,
                height > 0,
                height % 32 == 0,
                origin.y + height <= i32::MAX - 1024,
                origin.x <= i32::MAX - 512,
                origin.z <= i32::MAX - 512,
                forall|i: int|
                    0 <= i < chunks@.len() ==> {
                        &&& (#[trigger] chunks@[i]).wf()
                        &&& chunks@[i].origin_spec() == (IVec3 {
                            x: (origin.x + 32 * (i % 16)) as i32,
                            y: origin.y,
                            z: (origin.z + 32 * (i / 16)) as i32,
                        })
                        &&& chunks@[i].height_spec() == height
                        &&& forall|k: int|
                            0 <= k < height / 32 ==> (#[trigger] chunks@[i].subchunks_view()[k]).voxels_view()
                                == Seq::new(32768, |j: int| 0u16)
                        &&& chunks@[i].is_fresh()
                    },
            decreases 16 - z,
        {
            let mut x: i32 = 0;
            while x < 16
                invariant
                    0 <= z < 16,
                    0 <= x <= 16,
                    chunks@.len() == 16 * z + x,
                    height > 0,
                    height % 32 == 0,
                    origin.y + height <= i32::MAX - 1024,
                    origin.x <= i32::MAX - 512,
                    origin.z <= i32::MAX - 512,
                    forall|i: int|
                        0 <= i < chunks@.len() ==> {
                            &&& (#[trigger] chunks@[i]).wf()
                            &&& chunks@[i].origin_spec() == (IVec3 {
                                x: (origin.x + 32 * (i % 16)) as i32,
                                y: origin.y,
                                z: (origin.z + 32 * (i / 16)) as i32,
                            })
                            &&& chunks@[i].height_spec() == height
                            &&& forall|k: int|
                                0 <= k < height / 32 ==> (#[trigger] chunks@[i].subchunks_view()[k]).voxels_view()
                                    == Seq::new(32768, |j: int| 0u16)
                            &&& chunks@[i].is_fresh()
                        },
                decreases 16 - x,
            {
                let ghost i = chunks@.len() as int;
                assert(i % 16 == x as int && i / 16 == z as int);
                chunks.push(Chunk::new(ivec3(origin.x + x * 32, origin.y, origin.z + z * 32), height));
                x = x + 1;
            }
            z = z + 1;
        }
        Region { chunks, origin, height }
    }

    /// The id of the region.
    pub fn id(&self) -> (r: RegionId)
        ensures
            r.0 == region_id_of(ivec2_spec(self.origin_spec().x, self.origin_spec().z)),
    {
        RegionId::new(ivec2(self.origin.x, self.origin.z))
    }

    /// The minimum point contained by this Region.
    pub fn origin(&self) -> (r: IVec3)
        ensures
            r == self.origin_spec(),
    {
        self.origin
    }

    /// The point one past the maximum point contained by the Region.
    pub fn limit(&self) -> (r: IVec3)
        requires
            self.wf(),
        ensures
            r.x == self.origin_spec().x + 512,
            r.y == self.origin_spec().y + self.height_spec(),
            r.z == self.origin_spec().z + 512,
    {
        ivec3(self.origin.x + 512, self.origin.y + self.height, self.origin.z + 512)
    }

    /// The distance from origin to limit on the Y axis.
    pub fn height(&self) -> (r: i32)
        ensures
            r == self.height_spec(),
    {
        self.height
    }

    /// The offset of xz from the origin, if the region holds it.
    fn offset_xz(&self, xz: IVec2) -> (r: Option<(usize, usize)>)
        ensures
            match r {
                Some((ox, oz)) => ox == xz.x - self.origin_spec().x && oz == xz.y
                    - self.origin_spec().z && ox < 512 && oz < 512,
                None => !(0 <= xz.x - self.origin_spec().x < 512 && 0 <= xz.y - self.origin_spec().z
                    < 512),
            },
    {
        let ox: i64 = xz.x as i64 - self.origin.x as i64;
        let oz: i64 = xz.y as i64 - self.origin.z as i64;
        if 0 <= ox && ox < 512 && 0 <= oz && oz < 512 {
            Some((ox as usize, oz as usize))
        } else {
            None
        }
    }

    /// Where pos lies in the region, if it does.
    fn locate(&self, pos: IVec3) -> (r: Option<(usize, usize)>)
        ensures
            match r {
                Some((c, k)) => self.slot(pos) == Some((c as int, k as int)),
                None => self.slot(pos) is None,
            },
    {
        match self.offset_xz(ivec2(pos.x, pos.z)) {
            Some((ox, oz)) => {
                let oy: i64 = pos.y as i64 - self.origin.y as i64;
                if 0 <= oy && oy < self.height as i64 {
                    Some((ox / 32 + 16 * (oz / 32), (oy / 32) as usize))
                } else {
                    None
                }
            },
            None => None,
        }
    }

    /// Whether the region holds the XZ coordinate.
    pub fn contains_xz(&self, xz: IVec2) -> (r: bool)
        ensures
            r == (0 <= xz.x - self.origin_spec().x < 512 && 0 <= xz.y - self.origin_spec().z < 512),
    {
        self.offset_xz(xz).is_some()
    }

    /// Whether the region holds the XYZ coordinate.
    pub fn contains(&self, pos: IVec3) -> (r: bool)
        ensures
            r == self.slot(pos) is Some,
    {
        self.locate(pos).is_some()
    }

    /// The chunk that holds xz, wrapping around the region.
    pub fn get_chunk_wrapping(&self, xz: IVec2) -> (r: &Chunk)
        requires
            self.wf(),
        ensures
            *r == self.chunks_view()[crate::region::chunk_index(xz)],
    {
        &self.chunks[crate::region::to_chunk_index_wrapping(xz)]
    }

    /// The chunk that holds xz, wrapping around the region, mutably.
    pub fn get_chunk_mut_wrapping(&mut self, xz: IVec2) -> (r: &mut Chunk)
        requires
            old(self).wf(),
        ensures
            *r == old(self).chunks_view()[crate::region::chunk_index(xz)],
            final(self).chunks_view() == old(self).chunks_view().update(
                crate::region::chunk_index(xz),
                *final(r),
            ),
            final(self).origin_spec() == old(self).origin_spec(),
            final(self).height_spec() == old(self).height_spec(),
    {
        let i = crate::region::to_chunk_index_wrapping(xz);
        &mut self.chunks[i]
    }

    /// The chunk that holds xz, if the region holds it.
    pub fn get_chunk(&self, xz: IVec2) -> (r: Option<&Chunk>)
        requires
            self.wf(),
        ensures
            match r {
                Some(c) => 0 <= xz.x - self.origin_spec().x < 512 && 0 <= xz.y - self.origin_spec().z
                    < 512 && *c == self.chunks_view()[(xz.x - self.origin_spec().x) / 32 + 16 * ((xz.y
                    - self.origin_spec().z) / 32)],
                None => !(0 <= xz.x - self.origin_spec().x < 512 && 0 <= xz.y - self.origin_spec().z
                    < 512),
            },
    {
        match self.offset_xz(xz) {
            Some((ox, oz)) => Some(&self.chunks[ox / 32 + 16 * (oz / 32)]),
            None => None,
        }
    }

    /// The chunks, x-major.
    pub fn chunks(&self) -> (r: &[Chunk])
        ensures
            r@ == self.chunks_view(),
    {
        self.chunks.as_slice()
    }

    /// Whether self is old_region with the subchunk at slot s replaced by sub.
    pub open spec fn subchunk_replaced(&self, old_region: Region, s: (int, int), sub: Subchunk) -> bool {
        &&& self.origin_spec() == old_region.origin_spec()
        &&& self.height_spec() == old_region.height_spec()
        &&& self.chunks_view().len() == old_region.chunks_view().len()
        &&& forall|i: int|
            0 <= i < self.chunks_view().len() && i != s.0 ==> #[trigger] self.chunks_view()[i]
                == old_region.chunks_view()[i]
        &&& self.chunks_view()[s.0].subchunk_replaced(old_region.chunks_view()[s.0], s.1, sub)
    }

    /// The subchunk that holds pos, if the region holds it, mutably.
    pub fn get_subchunk_mut(&mut self, pos: IVec3) -> (r: Option<&mut Subchunk>)
        requires
            old(self).wf(),
        ensures
            match old(self).slot(pos) {
                Some(s) => r matches Some(sub) && *sub == old(self).subchunk_at(s)
                    && final(self).subchunk_replaced(*old(self), s, *final(sub)),
                None => r is None && *final(self) == *old(self),
            },
    {
        match self.locate(pos) {
            Some((c, k)) => {
                proof {
                    self.lemma_slot_in_chunk(pos);
                }
                let chunk = &mut self.chunks[c];
                Some(chunk.subchunk_mut(k))
            },
            None => None,
        }
    }

    /// The subchunk that holds pos, if the region holds it.
    pub fn get_subchunk(&self, pos: IVec3) -> (r: Option<&Subchunk>)
        requires
            self.wf(),
        ensures
            match self.slot(pos) {
                Some(s) => r matches Some(sub) && *sub == self.subchunk_at(s),
                None => r is None,
            },
    {
        match self.locate(pos) {
            Some((c, k)) => {
                proof {
                    self.lemma_slot_in_chunk(pos);
                }
                Some(self.chunks[c].subchunk(k))
            },
            None => None,
        }
    }

    /// Where the region holds pos, the chunk there holds its height in the same subchunk.
    proof fn lemma_slot_in_chunk(&self, pos: IVec3)
        requires
            self.wf(),
            self.slot(pos) is Some,
        ensures
            ({
                let (c, k) = self.slot(pos).unwrap();
                &&& 0 <= c < 256
                &&& self.chunks_view()[c].slot(pos.y) == Some(k as nat)
                &&& 0 <= k < self.chunks_view()[c].subchunks_view().len()
            }),
    {
        let (c, k) = self.slot(pos).unwrap();
        assert(self.chunks@[c].wf());
        self.chunks@[c].lemma_len_of_height();
    }

    /// The state of the voxel at pos, if the region holds it.
    pub fn get_state(&self, pos: IVec3) -> (r: Option<VoxelState>)
        requires
            self.wf(),
        ensures
            match self.slot(pos) {
                Some(s) => r == Some(self.subchunk_at(s).state_at(voxel_index(pos))),
                None => r is None,
            },
    {
        match self.locate(pos) {
            Some((c, k)) => {
                proof {
                    self.lemma_slot_in_chunk(pos);
                }
                self.chunks[c].get_state(pos)
            },
            None => None,
        }
    }

    /// The value of the voxel at pos, if the region holds it.
    pub fn get_voxel(&self, pos: IVec3) -> (r: Option<Voxel>)
        requires
            self.wf(),
        ensures
            match self.slot(pos) {
                Some(s) => r == Some(Voxel(self.subchunk_at(s).voxels_view()[voxel_index(pos)])),
                None => r is None,
            },
    {
        match self.locate(pos) {
            Some((c, k)) => {
                proof {
                    self.lemma_slot_in_chunk(pos);
                }
                self.chunks[c].get_voxel(pos)
            },
            None => None,
        }
    }

    /// The light of the voxel at pos, if the region holds it.
    pub fn get_light(&self, pos: IVec3) -> (r: Option<Light>)
        requires
            self.wf(),
        ensures
            match self.slot(pos) {
                Some(s) => r == Some(self.subchunk_at(s).lights_view()[voxel_index(pos)]),
                None => r is None,
            },
    {
        match self.locate(pos) {
            Some((c, k)) => {
                proof {
                    self.lemma_slot_in_chunk(pos);
                }
                self.chunks[c].get_light(pos)
            },
            None => None,
        }
    }
}

impl Region {
    /// After chunk c changed into a well-formed chunk with the same origin and height, the
    /// region is still well-formed.
    proof fn lemma_chunk_update(&self, old_chunks: Seq<Chunk>, c: int)
        requires
            0 <= c < old_chunks.len(),
            old_chunks.len() == 256,
            self.chunks@.len() == 256,
            forall|i: int| 0 <= i < 256 && i != c ==> #[trigger] self.chunks@[i] == old_chunks[i],
            self.chunks@[c].wf(),
            self.chunks@[c].origin_spec() == old_chunks[c].origin_spec(),
            self.chunks@[c].height_spec() == old_chunks[c].height_spec(),
            self.origin.x % 32 == 0,
            self.origin.y % 32 == 0,
            self.origin.z % 32 == 0,
            self.height > 0,
            self.height % 32 == 0,
            self.origin.y + self.height <= i32::MAX - 1024,
            self.origin.x <= i32::MAX - 512,
            self.origin.z <= i32::MAX - 512,
            forall|i: int|
                0 <= i < 256 ==> {
                    &&& (#[trigger] old_chunks[i]).wf()
                    &&& old_chunks[i].origin_spec() == (IVec3 {
                        x: (self.origin.x + 32 * (i % 16)) as i32,
                        y: self.origin.y,
                        z: (self.origin.z + 32 * (i / 16)) as i32,
                    })
                    &&& old_chunks[i].height_spec() == self.height
                },
        ensures
            self.wf(),
    {
        assert forall|i: int| 0 <= i < 256 implies {
            &&& (#[trigger] self.chunks@[i]).wf()
            &&& self.chunks@[i].origin_spec() == (IVec3 {
                x: (self.origin.x + 32 * (i % 16)) as i32,
                y: self.origin.y,
                z: (self.origin.z + 32 * (i / 16)) as i32,
            })
            &&& self.chunks@[i].height_spec() == self.height
        } by {
            if i != c {
                assert(self.chunks@[i] == old_chunks[i]);
            }
        }
    }

    /// Assign the state of the voxel at pos. Returns "false" if the region does not hold pos.
    pub fn set_state(&mut self, pos: IVec3, state: VoxelState) -> (r: bool)
        requires
            old(self).wf(),
            old(self).can_store(pos, state.voxel.0),
        ensures
            final(self).wf(),
            r == old(self).slot(pos) is Some,
            match old(self).slot(pos) {
                Some(s) => {
                    let (o, n) = (old(self).subchunk_at(s), final(self).subchunk_at(s));
                    &&& final(self).others_unchanged(*old(self), s)
                    &&& n.voxels_view() == o.voxels_view().update(voxel_index(pos), state.voxel.0)
                    &&& n.lights_view() == o.lights_view().update(voxel_index(pos), state.light)
                    &&& o.palette_view().is_prefix_of(n.palette_view())
                },
                None => *final(self) == *old(self),
            },
    {
        match self.locate(pos) {
            Some((c, k)) => {
                proof {
                    self.lemma_slot_in_chunk(pos);
                }
                let ghost old_chunks = self.chunks@;
                let chunk = &mut self.chunks[c];
                let r = chunk.set_state(pos, state);
                proof {
                    self.lemma_chunk_update(old_chunks, c as int);
                }
                r
            },
            None => false,
        }
    }

    /// Assign the state of the voxel at pos, returning the previous state. Returns "None" if
    /// the region does not hold pos.
    pub fn replace_state(&mut self, pos: IVec3, state: VoxelState) -> (r: Option<VoxelState>)
        requires
            old(self).wf(),
            old(self).can_store(pos, state.voxel.0),
        ensures
            final(self).wf(),
            match old(self).slot(pos) {
                Some(s) => {
                    let (o, n) = (old(self).subchunk_at(s), final(self).subchunk_at(s));
                    &&& r == Some(o.state_at(voxel_index(pos)))
                    &&& final(self).others_unchanged(*old(self), s)
                    &&& n.voxels_view() == o.voxels_view().update(voxel_index(pos), state.voxel.0)
                    &&& n.lights_view() == o.lights_view().update(voxel_index(pos), state.light)
                    &&& o.palette_view().is_prefix_of(n.palette_view())
                },
                None => r is None && *final(self) == *old(self),
            },
    {
        match self.locate(pos) {
            Some((c, k)) => {
                proof {
                    self.lemma_slot_in_chunk(pos);
                }
                let ghost old_chunks = self.chunks@;
                let chunk = &mut self.chunks[c];
                let r = chunk.replace_state(pos, state);
                proof {
                    self.lemma_chunk_update(old_chunks, c as int);
                }
                r
            },
            None => None,
        }
    }

    /// Assign the value of the voxel at pos. Returns "false" if the region does not hold pos.
    pub fn set_voxel(&mut self, pos: IVec3, v: Voxel) -> (r: bool)
        requires
            old(self).wf(),
            old(self).can_store(pos, v.0),
        ensures
            final(self).wf(),
            r == old(self).slot(pos) is Some,
            match old(self).slot(pos) {
                Some(s) => {
                    let (o, n) = (old(self).subchunk_at(s), final(self).subchunk_at(s));
                    &&& final(self).others_unchanged(*old(self), s)
                    &&& n.voxels_view() == o.voxels_view().update(voxel_index(pos), v.0)
                    &&& n.lights_view() == o.lights_view()
                    &&& o.palette_view().is_prefix_of(n.palette_view())
                },
                None => *final(self) == *old(self),
            },
    {
        match self.locate(pos) {
            Some((c, k)) => {
                proof {
                    self.lemma_slot_in_chunk(pos);
                }
                let ghost old_chunks = self.chunks@;
                let chunk = &mut self.chunks[c];
                let r = chunk.set_voxel(pos, v);
                proof {
                    self.lemma_chunk_update(old_chunks, c as int);
                }
                r
            },
            None => false,
        }
    }

    /// Assign the value of the voxel at pos, returning the previous value. Returns "None" if
    /// the region does not hold pos.
    pub fn replace_voxel(&mut self, pos: IVec3, v: Voxel) -> (r: Option<Voxel>)
        requires
            old(self).wf(),
            old(self).can_store(pos, v.0),
        ensures
            final(self).wf(),
            match old(self).slot(pos) {
                Some(s) => {
                    let (o, n) = (old(self).subchunk_at(s), final(self).subchunk_at(s));
                    &&& r == Some(Voxel(o.voxels_view()[voxel_index(pos)]))
                    &&& final(self).others_unchanged(*old(self), s)
                    &&& n.voxels_view() == o.voxels_view().update(voxel_index(pos), v.0)
                    &&& n.lights_view() == o.lights_view()
                    &&& o.palette_view().is_prefix_of(n.palette_view())
                },
                None => r is None && *final(self) == *old(self),
            },
    {
        match self.locate(pos) {
            Some((c, k)) => {
                proof {
                    self.lemma_slot_in_chunk(pos);
                }
                let ghost old_chunks = self.chunks@;
                let chunk = &mut self.chunks[c];
                let r = chunk.replace_voxel(pos, v);
                proof {
                    self.lemma_chunk_update(old_chunks, c as int);
                }
                r
            },
            None => None,
        }
    }

    /// Assign the light of the voxel at pos. Returns "false" if the region does not hold pos.
    pub fn set_light(&mut self, pos: IVec3, v: Light) -> (r: bool)
        requires
            old(self).wf(),
        ensures
            final(self).wf(),
            r == old(self).slot(pos) is Some,
            match old(self).slot(pos) {
                Some(s) => {
                    let (o, n) = (old(self).subchunk_at(s), final(self).subchunk_at(s));
                    &&& final(self).others_unchanged(*old(self), s)
                    &&& n.lights_view() == o.lights_view().update(voxel_index(pos), v)
                    &&& n.voxels_view() == o.voxels_view()
                    &&& n.palette_view() == o.palette_view()
                },
                None => *final(self) == *old(self),
            },
    {
        match self.locate(pos) {
            Some((c, k)) => {
                proof {
                    self.lemma_slot_in_chunk(pos);
                }
                let ghost old_chunks = self.chunks@;
                let chunk = &mut self.chunks[c];
                let r = chunk.set_light(pos, v);
                proof {
                    self.lemma_chunk_update(old_chunks, c as int);
                }
                r
            },
            None => false,
        }
    }

    /// Assign the light of the voxel at pos, returning the previous light. Returns "None" if
    /// the region does not hold pos.
    pub fn replace_light(&mut self, pos: IVec3, v: Light) -> (r: Option<Light>)
        requires
            old(self).wf(),
        ensures
            final(self).wf(),
            match old(self).slot(pos) {
                Some(s) => {
                    let (o, n) = (old(self).subchunk_at(s), final(self).subchunk_at(s));
                    &&& r == Some(o.lights_view()[voxel_index(pos)])
                    &&& final(self).others_unchanged(*old(self), s)
                    &&& n.lights_view() == o.lights_view().update(voxel_index(pos), v)
                    &&& n.voxels_view() == o.voxels_view()
                    &&& n.palette_view() == o.palette_view()
                },
                None => r is None && *final(self) == *old(self),
            },
    {
        match self.locate(pos) {
            Some((c, k)) => {
                proof {
                    self.lemma_slot_in_chunk(pos);
                }
                let ghost old_chunks = self.chunks@;
                let chunk = &mut self.chunks[c];
                let r = chunk.replace_light(pos, v);
                proof {
                    self.lemma_chunk_update(old_chunks, c as int);
                }
                r
            },
            None => None,
        }
    }
}

/// The id of the region with this origin.
pub open spec fn region_id_at(origin: IVec3) -> u64 {
    region_id_of(ivec2_spec(origin.x, origin.z))
}

/// The index of the region with this id, if there is one.
pub open spec fn find_region(regions: Seq<Region>, id: u64) -> Option<int> {
    if exists|i: int| 0 <= i < regions.len() && region_id_at((#[trigger] regions[i]).origin_spec()) == id {
        Some(choose|i: int| 0 <= i < regions.len() && region_id_at((#[trigger] regions[i]).origin_spec()) == id)
    } else {
        None
    }
}

/// Every region of a world, each with a distinct id, and a resolver that finds a region's
/// index from its id.
pub struct World {
    regions: Vec<Region>,
    resolver: OwnedResolver,
    max_y: i32,
    min_y: i32,
}

impl World {
    pub closed spec fn regions_view(&self) -> Seq<Region> {
        self.regions@
    }

    pub closed spec fn min_y_spec(&self) -> i32 {
        self.min_y
    }

    pub closed spec fn max_y_spec(&self) -> i32 {
        self.max_y
    }

    /// The index of the region that holds the column of pos, if the world has it.
    pub open spec fn region_of(&self, pos: IVec3) -> Option<int> {
        find_region(self.regions_view(), region_id_of(ivec2_spec(pos.x, pos.z)))
    }

    pub closed spec fn wf(&self) -> bool {
        &&& self.min_y % 32 == 0
        &&& self.max_y % 32 == 0
        &&& self.min_y < self.max_y
        &&& self.max_y <= i32::MAX - 1024
        &&& self.max_y - self.min_y <= i32::MAX
        &&& forall|i: int|
            0 <= i < self.regions@.len() ==> {
                &&& (#[trigger] self.regions@[i]).wf()
                &&& self.regions@[i].origin_spec().y == self.min_y
                &&& self.regions@[i].height_spec() == self.max_y - self.min_y
            }
        &&& forall|i: int, j: int|
            0 <= i < j < self.regions@.len() ==> region_id_at((#[trigger] self.regions@[i]).origin_spec())
                != region_id_at((#[trigger] self.regions@[j]).origin_spec())
        &&& self.resolver.wf()
        &&& self.resolver.complete_spec() ==> indexes(self.resolver@, region_keys(self.regions@))
    }

    /// An empty world spanning heights from min_y up to max_y. Both must be multiples of 32.
    pub fn new(max_y: i32, min_y: i32) -> (r: World)
        requires
            max_y % 32 == 0,
            min_y % 32 == 0,
            max_y > min_y,
            max_y <= i32::MAX - 1024,
            max_y - min_y <= i32::MAX,
        ensures
            r.wf(),
            r.regions_view() == Seq::<Region>::empty(),
            r.min_y_spec() == min_y,
            r.max_y_spec() == max_y,
    {
        let w = World { regions: Vec::new(), resolver: OwnedResolver::new(), max_y, min_y };
        assert(region_keys(w.regions@) =~= Seq::<u64>::empty());
        w
    }

    pub fn min_y(&self) -> (r: i32)
        ensures
            r == self.min_y_spec(),
    {
        self.min_y
    }

    pub fn max_y(&self) -> (r: i32)
        ensures
            r == self.max_y_spec(),
    {
        self.max_y
    }

    /// The height of the world.
    pub fn height(&self) -> (r: i32)
        requires
            self.wf(),
        ensures
            r == self.max_y_spec() - self.min_y_spec(),
    {
        self.max_y - self.min_y
    }

    /// The index of the region with this id: from the resolver in one step while it indexes
    /// every region, else by looking at each region in turn.
    fn index_of(&self, id: RegionId) -> (r: Option<usize>)
        requires
            self.wf(),
        ensures
            match r {
                Some(i) => find_region(self.regions_view(), id.0) == Some(i as int),
                None => find_region(self.regions_view(), id.0) is None,
            },
    {
        if self.resolver.is_complete() {
            let found = self.resolver.get(id.0);
            proof {
                let keys = region_keys(self.regions@);
                let regions = self.regions@;
                match found {
                    Some(i) => {
                        let k = i as int;
                        assert(self.resolver@.contains_key(id.0));
                        let v = self.resolver@[id.0];
                        assert(v < keys.len() && keys[v as int] == id.0);
                        assert(keys.len() == self.regions.len());
                        assert(found == Some(v as usize));
                        assert(k == v);
                        assert(keys[k] == id.0);
                        assert(region_id_at(regions[k].origin_spec()) == id.0);
                        let c = choose|c: int| 0 <= c < regions.len() && region_id_at((#[trigger] regions[c]).origin_spec()) == id.0;
                        if c != k {
                            if c < k {
                                assert(region_id_at(regions[c].origin_spec()) != region_id_at(regions[k].origin_spec()));
                            } else {
                                assert(region_id_at(regions[k].origin_spec()) != region_id_at(regions[c].origin_spec()));
                            }
                        }
                    },
                    None => {
                        assert forall|j: int| 0 <= j < regions.len() implies region_id_at((#[trigger] regions[j]).origin_spec()) != id.0 by {
                            assert(keys[j] == region_id_at(regions[j].origin_spec()));
                        }
                    },
                }
            }
            return found;
        }
        let mut i: usize = 0;
        while i < self.regions.len()
            invariant
                self.wf(),
                i <= self.regions@.len(),
                forall|j: int| 0 <= j < i ==> region_id_at((#[trigger] self.regions@[j]).origin_spec()) != id.0,
            decreases self.regions@.len() - i,
        {
            if self.regions[i].id() == id {
                let ghost regions = self.regions@;
                assert(exists|k: int| 0 <= k < regions.len() && region_id_at((#[trigger] regions[k]).origin_spec()) == id.0);
                let ghost c = choose|k: int| 0 <= k < regions.len() && region_id_at((#[trigger] regions[k]).origin_spec()) == id.0;
                assert(c == i) by {
                    if c != i {
                        if c < i {
                            assert(region_id_at(regions[c].origin_spec()) != id.0);
                        } else {
                            assert(region_id_at(regions[i as int].origin_spec()) != region_id_at(regions[c].origin_spec()));
                        }
                    }
                }
                return Some(i);
            }
            i = i + 1;
        }
        None
    }

    /// Whether the world has the region with this id.
    pub fn has_region(&self, id: RegionId) -> (r: bool)
        requires
            self.wf(),
        ensures
            r == find_region(self.regions_view(), id.0) is Some,
    {
        self.index_of(id).is_some()
    }

    /// The region with this id, if the world has it.
    pub fn get_region(&self, id: RegionId) -> (r: Option<&Region>)
        requires
            self.wf(),
        ensures
            match find_region(self.regions_view(), id.0) {
                Some(i) => r matches Some(reg) && *reg == self.regions_view()[i],
                None => r is None,
            },
    {
        match self.index_of(id) {
            Some(i) => Some(&self.regions[i]),
            None => None,
        }
    }

    /// Insert a region. Its origin must be a multiple of 512 on X and Z, it must span the
    /// world's heights, and the world must not have a region with its id yet.
    pub fn insert(&mut self, region: Region)
        requires
            old(self).wf(),
            region.wf(),
            region.origin_spec().x % 512 == 0,
            region.origin_spec().z % 512 == 0,
            region.origin_spec().y == old(self).min_y_spec(),
            region.origin_spec().y + region.height_spec() == old(self).max_y_spec(),
            find_region(old(self).regions_view(), region_id_at(region.origin_spec())) is None,
        ensures
            final(self).wf(),
            final(self).regions_view() == old(self).regions_view().push(region),
            final(self).min_y_spec() == old(self).min_y_spec(),
            final(self).max_y_spec() == old(self).max_y_spec(),
    {
        let ghost old_regions = self.regions@;
        self.regions.push(region);
        assert(self.regions@.drop_last() =~= old_regions);
        self.resolver.insert_and_rebuild_if_needed(self.regions.as_slice());
        assert forall|i: int, j: int| 0 <= i < j < self.regions@.len() implies region_id_at(
            (#[trigger] self.regions@[i]).origin_spec(),
        ) != region_id_at((#[trigger] self.regions@[j]).origin_spec()) by {
            if j == old_regions.len() {
                if region_id_at(self.regions@[i].origin_spec()) == region_id_at(region.origin_spec()) {
                    assert(exists|k: int| 0 <= k < old_regions.len() && region_id_at((#[trigger] old_regions[k]).origin_spec())
                        == region_id_at(region.origin_spec())) by {
                        assert(old_regions[i] == self.regions@[i]);
                    }
                }
            } else {
                assert(old_regions[i] == self.regions@[i]);
                assert(old_regions[j] == self.regions@[j]);
            }
        }
    }

    /// Remove the region with this id, returning it.
    #[verifier::spinoff_prover]
    pub fn remove(&mut self, id: RegionId) -> (r: Option<Region>)
        requires
            old(self).wf(),
        ensures
            final(self).wf(),
            final(self).min_y_spec() == old(self).min_y_spec(),
            final(self).max_y_spec() == old(self).max_y_spec(),
            match find_region(old(self).regions_view(), id.0) {
                Some(i) => r == Some(old(self).regions_view()[i]) && final(self).regions_view()
                    == old(self).regions_view().update(i, old(self).regions_view().last()).drop_last()
                    && find_region(final(self).regions_view(), id.0) is None,
                None => r is None && final(self).regions_view() == old(self).regions_view(),
            },
    {
        match self.index_of(id) {
            Some(i) => {
                let ghost old_regions = self.regions@;
                let region = self.regions.swap_remove(i);
                proof {
                    let n = old_regions.len() as int;
                    let ghost f = |p: int| if p == i { n - 1 } else { p };
                    assert forall|p: int| 0 <= p < self.regions@.len() implies #[trigger] self.regions@[p]
                        == old_regions[f(p)] by {}
                    assert forall|p: int, q: int| 0 <= p < q < self.regions@.len() implies region_id_at(
                        (#[trigger] self.regions@[p]).origin_spec(),
                    ) != region_id_at((#[trigger] self.regions@[q]).origin_spec()) by {
                        assert(self.regions@[p] == old_regions[f(p)]);
                        assert(self.regions@[q] == old_regions[f(q)]);
                        if f(p) < f(q) {
                            assert(region_id_at(old_regions[f(p)].origin_spec()) != region_id_at(old_regions[f(q)].origin_spec()));
                        } else {
                            assert(region_id_at(old_regions[f(q)].origin_spec()) != region_id_at(old_regions[f(p)].origin_spec()));
                        }
                    }
                    assert forall|p: int| 0 <= p < self.regions@.len() implies {
                        &&& (#[trigger] self.regions@[p]).wf()
                        &&& self.regions@[p].origin_spec().y == self.min_y
                        &&& self.regions@[p].height_spec() == self.max_y - self.min_y
                    } by {
                        assert(self.regions@[p] == old_regions[f(p)]);
                    }
                    if exists|k: int| 0 <= k < self.regions@.len() && region_id_at((#[trigger] self.regions@[k]).origin_spec()) == id.0 {
                        let k = choose|k: int| 0 <= k < self.regions@.len() && region_id_at((#[trigger] self.regions@[k]).origin_spec()) == id.0;
                        assert(self.regions@[k] == old_regions[f(k)]);
                        assert(region_id_at(old_regions[i as int].origin_spec()) == id.0);
                        if f(k) < i {
                            assert(region_id_at(old_regions[f(k)].origin_spec()) != region_id_at(old_regions[i as int].origin_spec()));
                        } else {
                            assert(region_id_at(old_regions[i as int].origin_spec()) != region_id_at(old_regions[f(k)].origin_spec()));
                        }
                    }
                }
                if self.resolver.is_complete() {
                    proof {
                        let keys = region_keys(old_regions);
                        assert forall|p: int, q: int| 0 <= p < q < keys.len() implies keys[p] != keys[q] by {
                            assert(region_id_at(old_regions[p].origin_spec()) != region_id_at(old_regions[q].origin_spec()));
                        }
                        assert(distinct(keys));
                        lemma_swap_remove(self.resolver@, keys, i as int);
                        self.resolver.lemma_indexes_fit();
                        assert(keys[i as int] == id.0);
                        assert(self.resolver@.contains_key(keys[i as int]));
                        assert(region_keys(self.regions@) =~= keys.update(i as int, keys.last()).drop_last());
                        if (i as int) < keys.len() - 1 {
                            assert(keys.last() != keys[i as int]);
                        }
                    }
                    let ghost r0 = self.resolver@;
                    let _ = self.resolver.remove(id.0);
                    if i < self.regions.len() {
                        let moved = self.regions[i].id().0;
                        proof {
                            let keys = region_keys(old_regions);
                            assert(self.regions@[i as int] == old_regions[keys.len() - 1]);
                            assert(moved == keys.last());
                        }
                        self.resolver.set_bucket_index(moved, i);
                    }
                    proof {
                        let keys = region_keys(old_regions);
                        let after = keys.update(i as int, keys.last()).drop_last();
                        assert(region_keys(self.regions@) =~= after);
                        if (i as int) < keys.len() - 1 {
                            assert(self.resolver@ == r0.remove(keys[i as int]).insert(keys.last(), i as nat));
                            assert(indexes(self.resolver@, after));
                        } else {
                            assert(self.resolver@ == r0.remove(keys[i as int]));
                            assert(after =~= keys.drop_last());
                            assert(indexes(self.resolver@, after));
                        }
                    }
                }
                Some(region)
            },
            None => None,
        }
    }
}

impl World {
    /// The region with this id, if the world has it, mutably.
    pub fn get_region_mut(&mut self, id: RegionId) -> (r: Option<&mut Region>)
        requires
            old(self).wf(),
        ensures
            match find_region(old(self).regions_view(), id.0) {
                Some(i) => r matches Some(reg) && *reg == old(self).regions_view()[i]
                    && final(self).regions_view() == old(self).regions_view().update(i, *final(reg))
                    && final(self).min_y_spec() == old(self).min_y_spec()
                    && final(self).max_y_spec() == old(self).max_y_spec(),
                None => r is None && *final(self) == *old(self),
            },
    {
        match self.index_of(id) {
            Some(i) => Some(&mut self.regions[i]),
            None => None,
        }
    }

    /// The region with this id, inserting a region of air first if the world does not have
    /// it. The id must name the origin of a region: multiples of 512, with room for the region
    /// below the largest coordinate.
    #[verifier::spinoff_prover]
    #[verifier::rlimit(40)]
    pub fn get_or_insert_region(&mut self, id: RegionId) -> (r: &mut Region)
        requires
            old(self).wf(),
            crate::region::id_x(id.0) % 512 == 0,
            crate::region::id_z(id.0) % 512 == 0,
            crate::region::id_x(id.0) <= i32::MAX - 512,
            crate::region::id_z(id.0) <= i32::MAX - 512,
            region_id_of(ivec2_spec(crate::region::id_x(id.0), crate::region::id_z(id.0))) == id.0,
        ensures
            final(self).min_y_spec() == old(self).min_y_spec(),
            final(self).max_y_spec() == old(self).max_y_spec(),
            match find_region(old(self).regions_view(), id.0) {
                Some(i) => *r == old(self).regions_view()[i] && final(self).regions_view()
                    == old(self).regions_view().update(i, *final(r)),
                None => {
                    &&& r.wf()
                    &&& r.origin_spec() == (IVec3 {
                        x: crate::region::id_x(id.0),
                        y: old(self).min_y_spec(),
                        z: crate::region::id_z(id.0),
                    })
                    &&& r.height_spec() == old(self).max_y_spec() - old(self).min_y_spec()
                    &&& final(self).regions_view() == old(self).regions_view().push(*final(r))
                },
            },
    {
        match self.index_of(id) {
            Some(i) => &mut self.regions[i],
            None => {
                let n = self.insert_new_region(id);
                &mut self.regions[n]
            },
        }
    }

    /// Inserts a region of air with this id, which the world does not have yet, and returns
    /// its index.
    #[verifier::spinoff_prover]
    #[verifier::rlimit(40)]
    fn insert_new_region(&mut self, id: RegionId) -> (r: usize)
        requires
            old(self).wf(),
            find_region(old(self).regions_view(), id.0) is None,
            crate::region::id_x(id.0) % 512 == 0,
            crate::region::id_z(id.0) % 512 == 0,
            crate::region::id_x(id.0) <= i32::MAX - 512,
            crate::region::id_z(id.0) <= i32::MAX - 512,
            region_id_of(ivec2_spec(crate::region::id_x(id.0), crate::region::id_z(id.0))) == id.0,
        ensures
            final(self).wf(),
            final(self).min_y_spec() == old(self).min_y_spec(),
            final(self).max_y_spec() == old(self).max_y_spec(),
            r == old(self).regions_view().len(),
            final(self).regions_view().len() == r + 1,
            final(self).regions_view().drop_last() == old(self).regions_view(),
            ({
                let g = final(self).regions_view()[r as int];
                &&& g.wf()
                &&& g.origin_spec() == (IVec3 {
                    x: crate::region::id_x(id.0),
                    y: old(self).min_y_spec(),
                    z: crate::region::id_z(id.0),
                })
                &&& g.height_spec() == old(self).max_y_spec() - old(self).min_y_spec()
                &&& region_id_at(g.origin_spec()) == id.0
            }),
    {
        let v2 = id.as_ivec2();
        let height = self.max_y - self.min_y;
        let region = Region::new(ivec3(v2.x, self.min_y, v2.y), height);
        assert(region_id_at(region.origin_spec()) == id.0);
        let n = self.regions.len();
        self.insert(region);
        assert(self.regions@.drop_last() =~= old(self).regions@);
        n
    }

    /// The chunk that holds xz, if the world has its region.
    pub fn get_chunk(&self, xz: IVec2) -> (r: Option<&Chunk>)
        requires
            self.wf(),
        ensures
            match find_region(self.regions_view(), region_id_of(xz)) {
                Some(i) => r matches Some(c) && *c == self.regions_view()[i].chunks_view()[crate::region::chunk_index(xz)],
                None => r is None,
            },
    {
        match self.get_region(RegionId::new(xz)) {
            Some(region) => Some(region.get_chunk_wrapping(xz)),
            None => None,
        }
    }

    /// The chunk that holds xz, if the world has its region, mutably.
    pub fn get_chunk_mut(&mut self, xz: IVec2) -> (r: Option<&mut Chunk>)
        requires
            old(self).wf(),
        ensures
            final(self).min_y_spec() == old(self).min_y_spec(),
            final(self).max_y_spec() == old(self).max_y_spec(),
            match find_region(old(self).regions_view(), region_id_of(xz)) {
                Some(i) => r matches Some(c) && *c == old(self).regions_view()[i].chunks_view()[crate::region::chunk_index(xz)]
                    && final(self).regions_view().len() == old(self).regions_view().len()
                    && (forall|j: int| 0 <= j < old(self).regions_view().len() && j != i
                        ==> #[trigger] final(self).regions_view()[j] == old(self).regions_view()[j])
                    && final(self).regions_view()[i].chunks_view() == old(self).regions_view()[i].chunks_view().update(
                        crate::region::chunk_index(xz),
                        *final(c),
                    )
                    && final(self).regions_view()[i].origin_spec() == old(self).regions_view()[i].origin_spec()
                    && final(self).regions_view()[i].height_spec() == old(self).regions_view()[i].height_spec(),
                None => r is None && *final(self) == *old(self),
            },
    {
        match self.index_of(RegionId::new(xz)) {
            Some(i) => {
                let region = &mut self.regions[i];
                Some(region.get_chunk_mut_wrapping(xz))
            },
            None => None,
        }
    }

    /// The subchunk that holds pos, if the world has its region and its height, mutably.
    pub fn get_subchunk_mut(&mut self, pos: IVec3) -> (r: Option<&mut Subchunk>)
        requires
            old(self).wf(),
        ensures
            final(self).min_y_spec() == old(self).min_y_spec(),
            final(self).max_y_spec() == old(self).max_y_spec(),
            match old(self).region_of(pos) {
                Some(i) => match old(self).regions_view()[i].slot(pos) {
                    Some(s) => r matches Some(sub) && *sub == old(self).regions_view()[i].subchunk_at(s)
                        && final(self).regions_view() == old(self).regions_view().update(
                        i,
                        final(self).regions_view()[i],
                    ) && final(self).regions_view()[i].subchunk_replaced(
                        old(self).regions_view()[i],
                        s,
                        *final(sub),
                    ),
                    None => r is None && final(self).regions_view() == old(self).regions_view(),
                },
                None => r is None && *final(self) == *old(self),
            },
    {
        match self.index_of(RegionId::new(ivec2(pos.x, pos.z))) {
            Some(i) => {
                let region = &mut self.regions[i];
                region.get_subchunk_mut(pos)
            },
            None => None,
        }
    }

    /// The subchunk that holds pos, if the world has its region and its height.
    pub fn get_subchunk(&self, pos: IVec3) -> (r: Option<&Subchunk>)
        requires
            self.wf(),
        ensures
            match self.region_of(pos) {
                Some(i) => match self.regions_view()[i].slot(pos) {
                    Some(s) => r matches Some(sub) && *sub == self.regions_view()[i].subchunk_at(s),
                    None => r is None,
                },
                None => r is None,
            },
    {
        match self.get_region(RegionId::new(ivec2(pos.x, pos.z))) {
            Some(region) => region.get_subchunk(pos),
            None => None,
        }
    }

    /// The state of the voxel at pos, if the world holds pos.
    pub fn get_state(&self, pos: IVec3) -> (r: Option<VoxelState>)
        requires
            self.wf(),
        ensures
            match self.region_of(pos) {
                Some(i) => match self.regions_view()[i].slot(pos) {
                    Some(s) => r == Some(self.regions_view()[i].subchunk_at(s).state_at(voxel_index(pos))),
                    None => r is None,
                },
                None => r is None,
            },
    {
        match self.get_region(RegionId::new(ivec2(pos.x, pos.z))) {
            Some(region) => region.get_state(pos),
            None => None,
        }
    }

    /// The value of the voxel at pos, if the world holds pos.
    pub fn get_voxel(&self, pos: IVec3) -> (r: Option<Voxel>)
        requires
            self.wf(),
        ensures
            match self.region_of(pos) {
                Some(i) => match self.regions_view()[i].slot(pos) {
                    Some(s) => r == Some(Voxel(self.regions_view()[i].subchunk_at(s).voxels_view()[voxel_index(pos)])),
                    None => r is None,
                },
                None => r is None,
            },
    {
        match self.get_region(RegionId::new(ivec2(pos.x, pos.z))) {
            Some(region) => region.get_voxel(pos),
            None => None,
        }
    }

    /// The light of the voxel at pos, if the world holds pos.
    pub fn get_light(&self, pos: IVec3) -> (r: Option<Light>)
        requires
            self.wf(),
        ensures
            match self.region_of(pos) {
                Some(i) => match self.regions_view()[i].slot(pos) {
                    Some(s) => r == Some(self.regions_view()[i].subchunk_at(s).lights_view()[voxel_index(pos)]),
                    None => r is None,
                },
                None => r is None,
            },
    {
        match self.get_region(RegionId::new(ivec2(pos.x, pos.z))) {
            Some(region) => region.get_light(pos),
            None => None,
        }
    }

    /// Whether v can be stored at pos: where the world holds pos, the subchunk there can store
    /// v.
    pub open spec fn can_store(&self, pos: IVec3, v: u16) -> bool {
        self.region_of(pos) matches Some(i) ==> self.regions_view()[i].can_store(pos, v)
    }

    /// After region i changed into a well-formed region with the same origin and height, the
    /// world is still well-formed.
    proof fn lemma_region_update(&self, old_regions: Seq<Region>, i: int)
        requires
            0 <= i < old_regions.len(),
            self.regions@.len() == old_regions.len(),
            forall|j: int| 0 <= j < old_regions.len() && j != i ==> #[trigger] self.regions@[j] == old_regions[j],
            self.regions@[i].wf(),
            self.regions@[i].origin_spec() == old_regions[i].origin_spec(),
            self.regions@[i].height_spec() == old_regions[i].height_spec(),
            self.min_y % 32 == 0,
            self.max_y % 32 == 0,
            self.min_y < self.max_y,
            self.max_y <= i32::MAX - 1024,
            self.max_y - self.min_y <= i32::MAX,
            forall|j: int|
                0 <= j < old_regions.len() ==> {
                    &&& (#[trigger] old_regions[j]).wf()
                    &&& old_regions[j].origin_spec().y == self.min_y
                    &&& old_regions[j].height_spec() == self.max_y - self.min_y
                },
            forall|p: int, q: int|
                0 <= p < q < old_regions.len() ==> region_id_at((#[trigger] old_regions[p]).origin_spec())
                    != region_id_at((#[trigger] old_regions[q]).origin_spec()),
            self.resolver.wf(),
            self.resolver.complete_spec() ==> indexes(self.resolver@, region_keys(old_regions)),
        ensures
            self.wf(),
    {
        assert(region_keys(self.regions@) =~= region_keys(old_regions));
        assert forall|j: int| 0 <= j < self.regions@.len() implies {
            &&& (#[trigger] self.regions@[j]).wf()
            &&& self.regions@[j].origin_spec().y == self.min_y
            &&& self.regions@[j].height_spec() == self.max_y - self.min_y
        } by {
            if j != i {
                assert(self.regions@[j] == old_regions[j]);
            }
        }
        assert forall|p: int, q: int| 0 <= p < q < self.regions@.len() implies region_id_at(
            (#[trigger] self.regions@[p]).origin_spec(),
        ) != region_id_at((#[trigger] self.regions@[q]).origin_spec()) by {
            assert(self.regions@[p].origin_spec() == old_regions[p].origin_spec());
            assert(self.regions@[q].origin_spec() == old_regions[q].origin_spec());
        }
    }

    /// The region to edit for pos, if the world has it.
    fn edit_target(&self, pos: IVec3) -> (r: Option<usize>)
        requires
            self.wf(),
        ensures
            match r {
                Some(i) => self.region_of(pos) == Some(i as int) && i < self.regions_view().len(),
                None => self.region_of(pos) is None,
            },
    {
        let r = self.index_of(RegionId::new(ivec2(pos.x, pos.z)));
        proof {
            if let Some(i) = r {
                let regions = self.regions@;
                let id = region_id_of(ivec2_spec(pos.x, pos.z));
                assert(exists|k: int| 0 <= k < regions.len() && region_id_at((#[trigger] regions[k]).origin_spec()) == id);
            }
        }
        r
    }

    /// Assign the value of the voxel at pos. Returns "false" if the world does not hold pos.
    pub fn set_voxel(&mut self, pos: IVec3, v: Voxel) -> (r: bool)
        requires
            old(self).wf(),
            old(self).can_store(pos, v.0),
        ensures
            final(self).wf(),
            final(self).min_y_spec() == old(self).min_y_spec(),
            final(self).max_y_spec() == old(self).max_y_spec(),
            match old(self).region_of(pos) {
                Some(i) => {
                    let (o, n) = (old(self).regions_view()[i], final(self).regions_view()[i]);
                    &&& final(self).regions_view() == old(self).regions_view().update(i, n)
                    &&& r == o.slot(pos) is Some
                    &&& match o.slot(pos) {
                        Some(s) => {
                            &&& n.others_unchanged(o, s)
                            &&& n.subchunk_at(s).voxels_view() == o.subchunk_at(s).voxels_view().update(voxel_index(pos), v.0)
                            &&& n.subchunk_at(s).lights_view() == o.subchunk_at(s).lights_view()
                        },
                        None => n == o,
                    }
                },
                None => !r && *final(self) == *old(self),
            },
    {
        match self.edit_target(pos) {
            Some(i) => {
                let ghost old_regions = self.regions@;
                let region = &mut self.regions[i];
                let r = region.set_voxel(pos, v);
                proof {
                    self.lemma_region_update(old_regions, i as int);
                }
                r
            },
            None => false,
        }
    }

    /// Assign the value of the voxel at pos, returning the previous value. Returns "None" if
    /// the world does not hold pos.
    pub fn replace_voxel(&mut self, pos: IVec3, v: Voxel) -> (r: Option<Voxel>)
        requires
            old(self).wf(),
            old(self).can_store(pos, v.0),
        ensures
            final(self).wf(),
            final(self).min_y_spec() == old(self).min_y_spec(),
            final(self).max_y_spec() == old(self).max_y_spec(),
            match old(self).region_of(pos) {
                Some(i) => {
                    let (o, n) = (old(self).regions_view()[i], final(self).regions_view()[i]);
                    &&& final(self).regions_view() == old(self).regions_view().update(i, n)
                    &&& match o.slot(pos) {
                        Some(s) => {
                            &&& r == Some(Voxel(o.subchunk_at(s).voxels_view()[voxel_index(pos)]))
                            &&& n.others_unchanged(o, s)
                            &&& n.subchunk_at(s).voxels_view() == o.subchunk_at(s).voxels_view().update(voxel_index(pos), v.0)
                            &&& n.subchunk_at(s).lights_view() == o.subchunk_at(s).lights_view()
                        },
                        None => r is None && n == o,
                    }
                },
                None => r is None && *final(self) == *old(self),
            },
    {
        match self.edit_target(pos) {
            Some(i) => {
                let ghost old_regions = self.regions@;
                let region = &mut self.regions[i];
                let r = region.replace_voxel(pos, v);
                proof {
                    self.lemma_region_update(old_regions, i as int);
                }
                r
            },
            None => None,
        }
    }

    /// Assign the state of the voxel at pos. Returns "false" if the world does not hold pos.
    pub fn set_state(&mut self, pos: IVec3, state: VoxelState) -> (r: bool)
        requires
            old(self).wf(),
            old(self).can_store(pos, state.voxel.0),
        ensures
            final(self).wf(),
            final(self).min_y_spec() == old(self).min_y_spec(),
            final(self).max_y_spec() == old(self).max_y_spec(),
            match old(self).region_of(pos) {
                Some(i) => {
                    let (o, n) = (old(self).regions_view()[i], final(self).regions_view()[i]);
                    &&& final(self).regions_view() == old(self).regions_view().update(i, n)
                    &&& r == o.slot(pos) is Some
                    &&& match o.slot(pos) {
                        Some(s) => {
                            &&& n.others_unchanged(o, s)
                            &&& n.subchunk_at(s).voxels_view() == o.subchunk_at(s).voxels_view().update(voxel_index(pos), state.voxel.0)
                            &&& n.subchunk_at(s).lights_view() == o.subchunk_at(s).lights_view().update(voxel_index(pos), state.light)
                        },
                        None => n == o,
                    }
                },
                None => !r && *final(self) == *old(self),
            },
    {
        match self.edit_target(pos) {
            Some(i) => {
                let ghost old_regions = self.regions@;
                let region = &mut self.regions[i];
                let r = region.set_state(pos, state);
                proof {
                    self.lemma_region_update(old_regions, i as int);
                }
                r
            },
            None => false,
        }
    }

    /// Assign the state of the voxel at pos, returning the previous state. Returns "None" if
    /// the world does not hold pos.
    pub fn replace_state(&mut self, pos: IVec3, state: VoxelState) -> (r: Option<VoxelState>)
        requires
            old(self).wf(),
            old(self).can_store(pos, state.voxel.0),
        ensures
            final(self).wf(),
            final(self).min_y_spec() == old(self).min_y_spec(),
            final(self).max_y_spec() == old(self).max_y_spec(),
            match old(self).region_of(pos) {
                Some(i) => {
                    let (o, n) = (old(self).regions_view()[i], final(self).regions_view()[i]);
                    &&& final(self).regions_view() == old(self).regions_view().update(i, n)
                    &&& match o.slot(pos) {
                        Some(s) => {
                            &&& r == Some(o.subchunk_at(s).state_at(voxel_index(pos)))
                            &&& n.others_unchanged(o, s)
                            &&& n.subchunk_at(s).voxels_view() == o.subchunk_at(s).voxels_view().update(voxel_index(pos), state.voxel.0)
                            &&& n.subchunk_at(s).lights_view() == o.subchunk_at(s).lights_view().update(voxel_index(pos), state.light)
                        },
                        None => r is None && n == o,
                    }
                },
                None => r is None && *final(self) == *old(self),
            },
    {
        match self.edit_target(pos) {
            Some(i) => {
                let ghost old_regions = self.regions@;
                let region = &mut self.regions[i];
                let r = region.replace_state(pos, state);
                proof {
                    self.lemma_region_update(old_regions, i as int);
                }
                r
            },
            None => None,
        }
    }

    /// Assign the light of the voxel at pos. Returns "false" if the world does not hold pos.
    pub fn set_light(&mut self, pos: IVec3, light: Light) -> (r: bool)
        requires
            old(self).wf(),
        ensures
            final(self).wf(),
            final(self).min_y_spec() == old(self).min_y_spec(),
            final(self).max_y_spec() == old(self).max_y_spec(),
            match old(self).region_of(pos) {
                Some(i) => {
                    let (o, n) = (old(self).regions_view()[i], final(self).regions_view()[i]);
                    &&& final(self).regions_view() == old(self).regions_view().update(i, n)
                    &&& r == o.slot(pos) is Some
                    &&& match o.slot(pos) {
                        Some(s) => {
                            &&& n.others_unchanged(o, s)
                            &&& n.subchunk_at(s).lights_view() == o.subchunk_at(s).lights_view().update(voxel_index(pos), light)
                            &&& n.subchunk_at(s).voxels_view() == o.subchunk_at(s).voxels_view()
                        },
                        None => n == o,
                    }
                },
                None => !r && *final(self) == *old(self),
            },
    {
        match self.edit_target(pos) {
            Some(i) => {
                let ghost old_regions = self.regions@;
                let region = &mut self.regions[i];
                let r = region.set_light(pos, light);
                proof {
                    self.lemma_region_update(old_regions, i as int);
                }
                r
            },
            None => false,
        }
    }

    /// Assign the light of the voxel at pos, returning the previous light. Returns "None" if
    /// the world does not hold pos.
    pub fn replace_light(&mut self, pos: IVec3, light: Light) -> (r: Option<Light>)
        requires
            old(self).wf(),
        ensures
            final(self).wf(),
            final(self).min_y_spec() == old(self).min_y_spec(),
            final(self).max_y_spec() == old(self).max_y_spec(),
            match old(self).region_of(pos) {
                Some(i) => {
                    let (o, n) = (old(self).regions_view()[i], final(self).regions_view()[i]);
                    &&& final(self).regions_view() == old(self).regions_view().update(i, n)
                    &&& match o.slot(pos) {
                        Some(s) => {
                            &&& r == Some(o.subchunk_at(s).lights_view()[voxel_index(pos)])
                            &&& n.others_unchanged(o, s)
                            &&& n.subchunk_at(s).lights_view() == o.subchunk_at(s).lights_view().update(voxel_index(pos), light)
                            &&& n.subchunk_at(s).voxels_view() == o.subchunk_at(s).voxels_view()
                        },
                        None => r is None && n == o,
                    }
                },
                None => r is None && *final(self) == *old(self),
            },
    {
        match self.edit_target(pos) {
            Some(i) => {
                let ghost old_regions = self.regions@;
                let region = &mut self.regions[i];
                let r = region.replace_light(pos, light);
                proof {
                    self.lemma_region_update(old_regions, i as int);
                }
                r
            },
            None => None,
        }
    }
}

/// The value of the voxel at q in a region, if the region holds q.
pub open spec fn region_voxel(r: Region, q: IVec3) -> Option<u16> {
    match r.slot(q) {
        Some(s) => Some(r.subchunk_at(s).voxels_view()[voxel_index(q)]),
        None => None,
    }
}

/// The value of the voxel at q in a world, if the world holds q.
pub open spec fn world_voxel(w: World, q: IVec3) -> Option<u16> {
    match w.region_of(q) {
        Some(i) => region_voxel(w.regions_view()[i], q),
        None => None,
    }
}

proof fn lemma_split_coord(x: i32)
    by (bit_vector)
    ensures
        x == 32 * (x >> 5) + (x & 31i32),
        0 <= x & 31i32 < 32,
{
}

/// Within a region, a slot and a voxel index name one position.
#[verifier::spinoff_prover]
proof fn lemma_slot_injective(r: Region, p: IVec3, q: IVec3)
    requires
        r.wf(),
        r.slot(p) is Some,
        r.slot(p) == r.slot(q),
        voxel_index(p) == voxel_index(q),
    ensures
        p == q,
{
    lemma_split_coord(p.x);
    lemma_split_coord(p.y);
    lemma_split_coord(p.z);
    lemma_split_coord(q.x);
    lemma_split_coord(q.y);
    lemma_split_coord(q.z);
    let o = r.origin_spec();
    assert(o.x % 32 == 0 && o.y % 32 == 0 && o.z % 32 == 0);
    assert((p.y & 31i32) == (q.y & 31i32) && (p.x & 31i32) == (q.x & 31i32) && (p.z & 31i32) == (
    q.z & 31i32));
}

/// What a read gives back of a write, in a region: after the voxel at pos is set to v, the
/// voxel at pos is v and every other voxel is as it was.
pub proof fn lemma_region_read_after_write(old_r: Region, new_r: Region, pos: IVec3, v: u16, q: IVec3)
    requires
        old_r.wf(),
        new_r.wf(),
        old_r.slot(pos) is Some,
        new_r.others_unchanged(old_r, old_r.slot(pos).unwrap()),
        new_r.subchunk_at(old_r.slot(pos).unwrap()).voxels_view() == old_r.subchunk_at(
            old_r.slot(pos).unwrap(),
        ).voxels_view().update(voxel_index(pos), v),
    ensures
        region_voxel(new_r, q) == if q == pos {
            Some(v)
        } else {
            region_voxel(old_r, q)
        },
{
    let s = old_r.slot(pos).unwrap();
    old_r.lemma_slot_in_chunk(pos);
    let sub = old_r.subchunk_at(s);
    assert(old_r.chunks_view()[s.0].wf());
    old_r.chunks_view()[s.0].lemma_subchunk_wf(s.1);
    sub.lemma_len();
    crate::region::lemma_voxel_index_range(pos);
    crate::region::lemma_voxel_index_range(q);
    if let Some(t) = old_r.slot(q) {
        old_r.lemma_slot_in_chunk(q);
        if t == s {
            if voxel_index(q) == voxel_index(pos) {
                lemma_slot_injective(old_r, pos, q);
            }
        } else if t.0 != s.0 {
            assert(new_r.chunks_view()[t.0] == old_r.chunks_view()[t.0]);
        } else {
            assert(new_r.chunks_view()[t.0].subchunks_view()[t.1] == old_r.chunks_view()[t.0].subchunks_view()[t.1]);
        }
    }
}

/// What a read gives back of a write, in a world: after set_voxel at pos stored v, the voxel
/// at pos is v and every other voxel is as it was.
pub proof fn lemma_world_read_after_write(old_w: World, new_w: World, pos: IVec3, v: u16, q: IVec3)
    requires
        old_w.wf(),
        new_w.wf(),
        old_w.region_of(pos) is Some,
        ({
            let i = old_w.region_of(pos).unwrap();
            let (o, n) = (old_w.regions_view()[i], new_w.regions_view()[i]);
            &&& new_w.regions_view() == old_w.regions_view().update(i, n)
            &&& o.slot(pos) is Some
            &&& n.others_unchanged(o, o.slot(pos).unwrap())
            &&& n.subchunk_at(o.slot(pos).unwrap()).voxels_view() == o.subchunk_at(o.slot(pos).unwrap()).voxels_view().update(voxel_index(pos), v)
        }),
    ensures
        world_voxel(new_w, q) == if q == pos {
            Some(v)
        } else {
            world_voxel(old_w, q)
        },
{
    let i = old_w.region_of(pos).unwrap();
    let old_rs = old_w.regions_view();
    let new_rs = new_w.regions_view();
    assert(0 <= i < old_rs.len() && region_id_at(old_rs[i].origin_spec()) == region_id_of(ivec2_spec(pos.x, pos.z)));
    assert forall|k: int| 0 <= k < new_rs.len() implies #[trigger] new_rs[k].origin_spec() == old_rs[k].origin_spec() by {
        if k == i {
            assert(new_rs[k].origin_spec() == old_rs[k].origin_spec());
        }
    }
    let id = region_id_of(ivec2_spec(q.x, q.z));
    assert(find_region(new_rs, id) == find_region(old_rs, id)) by {
        if exists|k: int| 0 <= k < old_rs.len() && region_id_at((#[trigger] old_rs[k]).origin_spec()) == id {
            let k = choose|k: int| 0 <= k < old_rs.len() && region_id_at((#[trigger] old_rs[k]).origin_spec()) == id;
            assert(region_id_at(new_rs[k].origin_spec()) == id);
        }
        if exists|k: int| 0 <= k < new_rs.len() && region_id_at((#[trigger] new_rs[k]).origin_spec()) == id {
            let k = choose|k: int| 0 <= k < new_rs.len() && region_id_at((#[trigger] new_rs[k]).origin_spec()) == id;
            assert(region_id_at(old_rs[k].origin_spec()) == id);
        }
        if find_region(new_rs, id) is Some && find_region(old_rs, id) is Some {
            let a = find_region(new_rs, id).unwrap();
            let b = find_region(old_rs, id).unwrap();
            if a != b {
                assert(region_id_at(old_rs[a].origin_spec()) == id);
                if a < b {
                    assert(region_id_at(old_rs[a].origin_spec()) != region_id_at(old_rs[b].origin_spec()));
                } else {
                    assert(region_id_at(old_rs[b].origin_spec()) != region_id_at(old_rs[a].origin_spec()));
                }
            }
        }
    }
    assert(old_rs[i].wf());
    assert(new_rs[i].wf());
    lemma_region_read_after_write(old_rs[i], new_rs[i], pos, v, q);
    if let Some(k) = old_w.region_of(q) {
        if k != i {
            assert(new_rs[k] == old_rs[k]);
            if q == pos {
                assert(region_id_at(old_rs[k].origin_spec()) == region_id_at(old_rs[i].origin_spec()));
                if k < i {
                    assert(region_id_at(old_rs[k].origin_spec()) != region_id_at(old_rs[i].origin_spec()));
                } else {
                    assert(region_id_at(old_rs[i].origin_spec()) != region_id_at(old_rs[k].origin_spec()));
                }
            }
        }
    }
}

/// The 2D vector (x, y), as a spec value.
pub open spec fn ivec2_spec(x: i32, y: i32) -> IVec2 {
    IVec2 { x, y }
}

impl World {
    /// Read encoded chunk data into the world: a 32-byte header, then the sections of the
    /// chunk's subchunks. The region that holds the chunk is added first if it is missing and
    /// `allow_region_load` is set.
    pub fn read_span(&mut self, span: &UnzippedSpan, allow_region_load: bool) -> (r: Result<
        ChunkReadSuccess,
        ChunkReadError,
    >)
        requires
            old(self).wf(),
        ensures
            final(self).wf(),
            final(self).min_y_spec() == old(self).min_y_spec(),
            final(self).max_y_spec() == old(self).max_y_spec(),
            span@.len() < 32 ==> (r matches Err(ChunkReadError::UnexpectedEoi { requested, available })
                && requested == 32 && available == span@.len() && *final(self) == *old(self)),
            span@.len() >= 32 ==> {
                let hdr = chunk_header_of(span@);
                let xz = IVec2 { x: hdr.origin.x, y: hdr.origin.z };
                let id = region_id_of(xz);
                &&& (find_region(old(self).regions_view(), id) is None && !(allow_region_load
                    && region_loadable(id))) ==> (r matches Err(ChunkReadError::RegionNotExists(v)) && v
                    == xz && *final(self) == *old(self))
                &&& (find_region(old(self).regions_view(), id) is Some || (allow_region_load
                    && region_loadable(id))) ==> span_read_outcome(*final(self), span@, r)
                &&& final(self).regions_view().len() >= old(self).regions_view().len()
                &&& forall|k: int|
                    0 <= k < old(self).regions_view().len() && region_id_at(
                        old(self).regions_view()[k].origin_spec(),
                    ) != id ==> #[trigger] final(self).regions_view()[k] == old(self).regions_view()[k]
            },
    {
        let mut reader = span.reader();
        let hb = match reader.take(32) {
            Ok(s) => s,
            Err(e) => {
                return Err(ChunkReadError::UnexpectedEoi { requested: e.requested, available: e.available });
            },
        };
        assert(hb@ =~= span@.subrange(0, 32));
        let header = ChunkHeader::from_bytes(hb);
        proof {
            crate::format::lemma_chunk_header_prefix(span@);
        }
        let xz = ivec2(header.origin.x, header.origin.z);
        let id = RegionId::new(xz);
        proof {
            crate::region::lemma_region_id_origin(xz);
        }
        let i = match self.index_of(id) {
            Some(i) => i,
            None => {
                if !allow_region_load || id.x() > i32::MAX - 512 || id.z() > i32::MAX - 512 {
                    return Err(ChunkReadError::RegionNotExists(xz));
                }
                self.insert_new_region(id);
                proof {
                    let n = self.regions@.len() - 1;
                    assert(region_id_at(self.regions@[n].origin_spec()) == id.0);
                }
                match self.index_of(id) {
                    Some(i) => i,
                    None => {
                        proof {
                            let n = self.regions@.len() - 1;
                            assert(region_id_at(self.regions@[n].origin_spec()) == id.0);
                            assert(false);
                        }
                        return Err(ChunkReadError::RegionNotExists(xz));
                    },
                }
            },
        };
        let ghost mid = *self;
        let ci = crate::region::to_chunk_index_wrapping(xz);
        proof {
            assert(self.regions@[i as int].wf());
        }
        match ChunkFormat::from_u16(header.format) {
            ChunkFormat::Unknown => {
                return Err(ChunkReadError::UnsupportedFormat(header.format as u32));
            },
            ChunkFormat::V1 => {},
        }
        let ghost old_regions = self.regions@;
        let ghost old_chunks = self.regions@[i as int].chunks@;
        proof {
            assert(old_chunks[ci as int].wf());
        }
        let res = {
            let region = &mut self.regions[i];
            let chunk = &mut region.chunks[ci];
            read_chunk_from_span_v1(&mut reader, chunk, &header)
        };
        proof {
            assert(reader.consumed() >= 0);
            let reg = self.regions@[i as int];
            reg.lemma_chunk_update(old_chunks, ci as int);
            self.lemma_region_update(old_regions, i as int);
        }
        match res {
            Ok(()) => Ok(ChunkReadSuccess { origin: header.origin, format: ChunkFormat::V1 }),
            Err(e) => Err(e),
        }
    }

    /// Read unzipped chunk data into the world; see `read_chunk_from_span`.
    pub fn read_unzipped_chunk(&mut self, data: UnzippedChunk, allow_region_load: bool) -> (r: Result<
        ChunkReadSuccess,
        ChunkReadError,
    >)
        requires
            old(self).wf(),
        ensures
            final(self).wf(),
            final(self).min_y_spec() == old(self).min_y_spec(),
            final(self).max_y_spec() == old(self).max_y_spec(),
            data.0@.len() < 32 ==> (r matches Err(ChunkReadError::UnexpectedEoi { requested, available })
                && requested == 32 && available == data.0@.len() && *final(self) == *old(self)),
            data.0@.len() >= 32 ==> {
                let hdr = chunk_header_of(data.0@);
                let xz = IVec2 { x: hdr.origin.x, y: hdr.origin.z };
                let id = region_id_of(xz);
                &&& (find_region(old(self).regions_view(), id) is None && !(allow_region_load
                    && region_loadable(id))) ==> (r matches Err(ChunkReadError::RegionNotExists(v)) && v
                    == xz && *final(self) == *old(self))
                &&& (find_region(old(self).regions_view(), id) is Some || (allow_region_load
                    && region_loadable(id))) ==> span_read_outcome(*final(self), data.0@, r)
            },
    {
        crate::format::read_chunk_from_span(self, data.0, allow_region_load)
    }
}

} // verus!
