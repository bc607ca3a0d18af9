use vstd::prelude::*;

use crate::column::{ColumnData, ColumnMap};
use crate::mask::{has_bit, mask_end, mask_index, SubchunkMask};
use crate::region::column_index;
use crate::space::{ivec3, IVec2, IVec3};
use crate::format::{chunk_header_bytes, ChunkFormat, ChunkHeader};
use crate::shared::{bytes_contents, bytes_from_vec};
use crate::subchunk::{lemma_section_len, section_bytes, Subchunk};
use crate::voxels::Voxels;
use crate::zip::{lz4_zipped, zstd_level_of, zstd_zipped, Algorithm, Lz4Zipper, ZipLevel, Zipper, ZstdZipper};
use crate::voxel::{Light, Voxel, VoxelState};

verus! {

/// The index of the subchunk of a column of `len` subchunks starting at `min_y` that holds y.
pub open spec fn subchunk_slot(min_y: i32, len: nat, y: i32) -> Option<nat> {
    if min_y <= y && (y - min_y) / 32 < len {
        Some(((y - min_y) / 32) as nat)
    } else {
        None
    }
}

/// A vertical column of 32x32x32 subchunks, stacked from bottom to top.
pub struct Chunk {
    /// The subchunks, from bottom to top.
    subchunks: Vec<Subchunk>,
    /// 32x32 map of column data: biome and heightmap info.
    columns: ColumnMap,
    /// Distance from minimum to max y.
    height: i32,
    /// Version number to identify the chunk.
    /// Used to determine if clients need to be sent updates.
    revision: u64,
    /// Minimum position contained by this chunk.
    origin: IVec3,
}

impl Chunk {
    pub closed spec fn subchunks_view(&self) -> Seq<Subchunk> {
        self.subchunks@
    }

    pub closed spec fn columns_view(&self) -> Seq<ColumnData> {
        self.columns@
    }

    pub closed spec fn origin_spec(&self) -> IVec3 {
        self.origin
    }

    pub closed spec fn height_spec(&self) -> i32 {
        self.height
    }

    pub closed spec fn revision_spec(&self) -> u64 {
        self.revision
    }

    /// The slot of the subchunk that holds y, if the chunk holds y.
    pub open spec fn slot(&self, y: i32) -> Option<nat> {
        subchunk_slot(self.origin_spec().y, self.subchunks_view().len(), y)
    }

    pub closed spec fn wf(&self) -> bool {
        &&& self.columns.wf()
        &&& self.height >= 0
        &&& self.subchunks@.len() == self.height / 32
        &&& self.origin.y + self.height <= i32::MAX - 1024
        &&& forall|i: int|
            0 <= i < self.subchunks@.len() ==> {
                &&& (#[trigger] self.subchunks@[i]).wf()
                &&& self.subchunks@[i].origin_spec() == (IVec3 {
                    x: self.origin.x,
                    y: (self.origin.y + 32 * i) as i32,
                    z: self.origin.z,
                })
            }
    }

    /// Whether v can be stored at height y: the chunk holds y and the subchunk there can store v.
    pub open spec fn can_store(&self, y: i32, v: u16) -> bool {
        self.slot(y) matches Some(k) ==> self.subchunks_view()[k as int].can_store(v)
    }

    /// Everything but the subchunk in slot k is the same in self as in old_chunk.
    pub open spec fn others_unchanged(&self, old_chunk: Chunk, k: nat) -> bool {
        &&& self.subchunks_view().len() == old_chunk.subchunks_view().len()
        &&& forall|j: int|
            0 <= j < self.subchunks_view().len() && j != k ==> #[trigger] self.subchunks_view()[j]
                == old_chunk.subchunks_view()[j]
        &&& self.subchunks_view()[k as int].origin_spec() == old_chunk.subchunks_view()[k as int].origin_spec()
        &&& self.origin_spec() == old_chunk.origin_spec()
        &&& self.height_spec() == old_chunk.height_spec()
        &&& self.revision_spec() == old_chunk.revision_spec()
        &&& self.columns_view() == old_chunk.columns_view()
    }

    /// A chunk as `new` makes it: revision 0, every subchunk air with full ambient light, and
    /// every column at its default.
    pub open spec fn is_fresh(&self) -> bool {
        &&& self.revision_spec() == 0
        &&& forall|i: int|
            0 <= i < self.subchunks_view().len() ==> (#[trigger] self.subchunks_view()[i]).voxels_view()
                == Seq::new(32768, |j: int| 0u16) && self.subchunks_view()[i].lights_view()
                == Seq::new(32768, |j: int| Light { intensity: 0xF })
        &&& self.columns_view().len() == 1024
        &&& forall|i: int| 0 <= i < 1024 ==> ColumnData::is_default(#[trigger] self.columns_view()[i])
    }

    /// A chunk of air with full ambient light, height / 32 subchunks tall.
    pub fn new(origin: IVec3, height: i32) -> (r: Chunk)
        requires
            height >= 0,
            origin.y + height <= i32::MAX - 1024,
        ensures
            r.wf(),
            r.origin_spec() == origin,
            r.height_spec() == height,
            r.revision_spec() == 0,
            r.subchunks_view().len() == height / 32,
            forall|i: int|
                0 <= i < height / 32 ==> (#[trigger] r.subchunks_view()[i]).voxels_view()
                    == Seq::new(32768, |j: int| 0u16) && r.subchunks_view()[i].lights_view()
                    == Seq::new(32768, |j: int| Light { intensity: 0xF }),
            r.columns_view().len() == 1024,
            forall|i: int| 0 <= i < 1024 ==> ColumnData::is_default(#[trigger] r.columns_view()[i]),
            r.is_fresh(),
    {
        let length = (height / 32) as usize;
        let mut subchunks: Vec<Subchunk> = Vec::new();
        let mut i: usize = 0;
        while i < length
            invariant
                i <= length,
                length == height / 32,
                height >= 0,
                origin.y + height <= i32::MAX - 1024,
                subchunks@.len() == i,
                forall|j: int|
                    0 <= j < i ==> {
                        &&& (#[trigger] subchunks@[j]).wf()
                        &&& subchunks@[j].origin_spec() == (IVec3 {
                            x: origin.x,
                            y: (origin.y + 32 * j) as i32,
                            z: origin.z,
                        })
                        &&& subchunks@[j].voxels_view() == Seq::new(32768, |k: int| 0u16)
                        &&& subchunks@[j].lights_view() == Seq::new(
                            32768,
                            |k: int| Light { intensity: 0xF },
                        )
                    },
            decreases length - i,
        {
            let y = origin.y + (i as i32) * 32;
            subchunks.push(Subchunk::new(ivec3(origin.x, y, origin.z)));
            i = i + 1;
        }
        let columns = ColumnMap::new(ColumnData::default());
        Chunk {
            subchunks,
            columns,
            height,
            revision: 0,
            origin,
        }
    }

    /// A chunk holds height / 32 subchunks and fits below the top of the world.
    pub proof fn lemma_len_of_height(&self)
        requires
            self.wf(),
        ensures
            self.subchunks_view().len() == self.height_spec() / 32,
            self.height_spec() >= 0,
            self.origin_spec().y + self.height_spec() <= i32::MAX - 1024,
    {
    }

    /// Each subchunk of a well-formed chunk is well-formed and sits 32 * k above the origin.
    pub proof fn lemma_subchunk_wf(&self, k: int)
        requires
            self.wf(),
            0 <= k < self.subchunks_view().len(),
        ensures
            self.subchunks_view()[k].wf(),
            self.subchunks_view()[k].origin_spec().y == self.origin_spec().y + 32 * k,
    {
        assert(self.subchunks@[k].wf());
    }

    /// The subchunk at this index, from the bottom.
    pub fn subchunk(&self, index: usize) -> (r: &Subchunk)
        requires
            index < self.subchunks_view().len(),
        ensures
            *r == self.subchunks_view()[index as int],
    {
        &self.subchunks[index]
    }

    /// The subchunks, from bottom to top.
    pub fn subchunks(&self) -> (r: &[Subchunk])
        ensures
            r@ == self.subchunks_view(),
    {
        self.subchunks.as_slice()
    }

    /// The minimum coordinate contained by this chunk.
    pub fn origin(&self) -> (r: IVec3)
        ensures
            r == self.origin_spec(),
    {
        self.origin
    }

    /// The number of voxels tall the chunk is.
    pub fn height(&self) -> (r: i32)
        ensures
            r == self.height_spec(),
    {
        self.height
    }

    /// The number of subchunks in the chunk.
    pub fn length(&self) -> (r: usize)
        ensures
            r == self.subchunks_view().len(),
    {
        self.subchunks.len()
    }

    /// The version number of the chunk.
    pub fn revision(&self) -> (r: u64)
        ensures
            r == self.revision_spec(),
    {
        self.revision
    }

    /// The max y value contained by this chunk.
    pub fn max_y(&self) -> (r: i32)
        requires
            self.wf(),
        ensures
            r == self.origin_spec().y + self.height_spec(),
    {
        self.origin.y + self.height
    }

    /// The min y value contained by this chunk.
    pub fn min_y(&self) -> (r: i32)
        ensures
            r == self.origin_spec().y,
    {
        self.origin.y
    }

    /// The column data of this column. This operation is wrapping.
    pub fn get_column(&self, xz: IVec2) -> (r: ColumnData)
        requires
            self.wf(),
        ensures
            r == self.columns_view()[column_index(xz)],
    {
        self.columns.get(xz)
    }

    /// Assign the column data of this column. This operation is wrapping.
    pub fn set_column(&mut self, xz: IVec2, value: ColumnData)
        requires
            old(self).wf(),
        ensures
            final(self).wf(),
            final(self).columns_view() == old(self).columns_view().update(column_index(xz), value),
            final(self).subchunks_view() == old(self).subchunks_view(),
            final(self).origin_spec() == old(self).origin_spec(),
            final(self).height_spec() == old(self).height_spec(),
            final(self).revision_spec() == old(self).revision_spec(),
    {
        self.columns.set(xz, value)
    }

    /// The slot of the subchunk that holds y.
    fn subchunk_index(&self, y: i32) -> (r: Option<usize>)
        ensures
            r matches Some(k) ==> self.slot(y) == Some(k as nat),
            r is None ==> self.slot(y) is None,
    {
        let d: i64 = (y as i64) - (self.origin.y as i64);
        if d < 0 {
            None
        } else {
            let oy: u64 = (d as u64) / 32;
            if oy < self.subchunks.len() as u64 {
                Some(oy as usize)
            } else {
                None
            }
        }
    }

    /// Whether self is old_chunk with subchunk k replaced by sub.
    pub open spec fn subchunk_replaced(&self, old_chunk: Chunk, k: int, sub: Subchunk) -> bool {
        &&& self.subchunks_view() == old_chunk.subchunks_view().update(k, sub)
        &&& self.origin_spec() == old_chunk.origin_spec()
        &&& self.height_spec() == old_chunk.height_spec()
        &&& self.revision_spec() == old_chunk.revision_spec()
        &&& self.columns_view() == old_chunk.columns_view()
    }

    /// The subchunk at this index, from the bottom, mutably.
    pub fn subchunk_mut(&mut self, index: usize) -> (r: &mut Subchunk)
        requires
            index < old(self).subchunks_view().len(),
        ensures
            *r == old(self).subchunks_view()[index as int],
            final(self).subchunk_replaced(*old(self), index as int, *final(r)),
    {
        &mut self.subchunks[index]
    }

    /// The subchunk containing this Y coordinate within the chunk, mutably.
    pub fn get_subchunk_mut(&mut self, y: i32) -> (r: Option<&mut Subchunk>)
        ensures
            match old(self).slot(y) {
                Some(k) => r matches Some(s) && *s == old(self).subchunks_view()[k as int]
                    && final(self).subchunk_replaced(*old(self), k as int, *final(s)),
                None => r is None && *final(self) == *old(self),
            },
    {
        match self.subchunk_index(y) {
            Some(i) => Some(&mut self.subchunks[i]),
            None => None,
        }
    }

    /// The subchunk containing this Y coordinate within the chunk.
    pub fn get_subchunk(&self, y: i32) -> (r: Option<&Subchunk>)
        ensures
            r matches Some(s) ==> self.slot(y) matches Some(k) && *s == self.subchunks_view()[k as int],
            r is None ==> self.slot(y) is None,
    {
        match self.subchunk_index(y) {
            Some(i) => Some(&self.subchunks[i]),
            None => None,
        }
    }

    /// The state of the voxel at this position, if the chunk holds its height.
    /// X and Z components wrap.
    pub fn get_state(&self, pos: IVec3) -> (r: Option<VoxelState>)
        requires
            self.wf(),
        ensures
            match self.slot(pos.y) {
                Some(k) => r == Some(
                    self.subchunks_view()[k as int].state_at(crate::region::voxel_index(pos)),
                ),
                None => r is None,
            },
    {
        match self.subchunk_index(pos.y) {
            Some(i) => Some(self.subchunks[i].get_state(pos)),
            None => None,
        }
    }

    /// The value of the voxel at this position, if the chunk holds its height.
    /// X and Z components wrap.
    pub fn get_voxel(&self, pos: IVec3) -> (r: Option<Voxel>)
        requires
            self.wf(),
        ensures
            match self.slot(pos.y) {
                Some(k) => r == Some(
                    Voxel(
                        self.subchunks_view()[k as int].voxels_view()[crate::region::voxel_index(
                            pos,
                        )],
                    ),
                ),
                None => r is None,
            },
    {
        match self.subchunk_index(pos.y) {
            Some(i) => Some(self.subchunks[i].get_voxel(pos)),
            None => None,
        }
    }

    /// The light value of the voxel at this position, if the chunk holds its height.
    /// X and Z components wrap.
    pub fn get_light(&self, pos: IVec3) -> (r: Option<Light>)
        requires
            self.wf(),
        ensures
            match self.slot(pos.y) {
                Some(k) => r == Some(
                    self.subchunks_view()[k as int].lights_view()[crate::region::voxel_index(pos)],
                ),
                None => r is None,
            },
    {
        match self.subchunk_index(pos.y) {
            Some(i) => Some(self.subchunks[i].get_light(pos)),
            None => None,
        }
    }
}

impl Chunk {
    /// Assign the state of the voxel at this position.
    /// Returns "false" if the chunk does not hold its height. X and Z components wrap.
    pub fn set_state(&mut self, pos: IVec3, state: VoxelState) -> (r: bool)
        requires
            old(self).wf(),
            old(self).can_store(pos.y, state.voxel.0),
        ensures
            final(self).wf(),
            r == old(self).slot(pos.y) is Some,
            match old(self).slot(pos.y) {
                Some(k) => {
                    let (o, n) = (old(self).subchunks_view()[k as int], final(self).subchunks_view()[k as int]);
                    &&& final(self).others_unchanged(*old(self), k)
                    &&& n.voxels_view() == o.voxels_view().update(
                        crate::region::voxel_index(pos),
                        state.voxel.0,
                    )
                    &&& n.lights_view() == o.lights_view().update(
                        crate::region::voxel_index(pos),
                        state.light,
                    )
                    &&& o.palette_view().is_prefix_of(n.palette_view())
                },
                None => *final(self) == *old(self),
            },
    {
        match self.subchunk_index(pos.y) {
            Some(i) => {
                let ghost old_subs = self.subchunks@;
                let sub = &mut self.subchunks[i];
                sub.set_state(pos, state);
                proof {
                    self.lemma_slot_update(old_subs, i as int);
                }
                true
            },
            None => false,
        }
    }

    /// Assign the state of the voxel at this position, returning the previous state.
    /// Returns "None" if the chunk does not hold its height. X and Z components wrap.
    pub fn replace_state(&mut self, pos: IVec3, state: VoxelState) -> (r: Option<VoxelState>)
        requires
            old(self).wf(),
            old(self).can_store(pos.y, state.voxel.0),
        ensures
            final(self).wf(),
            match old(self).slot(pos.y) {
                Some(k) => {
                    let (o, n) = (old(self).subchunks_view()[k as int], final(self).subchunks_view()[k as int]);
                    &&& r == Some(o.state_at(crate::region::voxel_index(pos)))
                    &&& final(self).others_unchanged(*old(self), k)
                    &&& n.voxels_view() == o.voxels_view().update(
                        crate::region::voxel_index(pos),
                        state.voxel.0,
                    )
                    &&& n.lights_view() == o.lights_view().update(
                        crate::region::voxel_index(pos),
                        state.light,
                    )
                    &&& o.palette_view().is_prefix_of(n.palette_view())
                },
                None => r is None && *final(self) == *old(self),
            },
    {
        match self.subchunk_index(pos.y) {
            Some(i) => {
                let ghost old_subs = self.subchunks@;
                let sub = &mut self.subchunks[i];
                let prev = sub.replace_state(pos, state);
                proof {
                    self.lemma_slot_update(old_subs, i as int);
                }
                Some(prev)
            },
            None => None,
        }
    }

    /// Assign the value of the voxel at this position.
    /// Returns "false" if the chunk does not hold its height. X and Z components wrap.
    pub fn set_voxel(&mut self, pos: IVec3, v: Voxel) -> (r: bool)
        requires
            old(self).wf(),
            old(self).can_store(pos.y, v.0),
        ensures
            final(self).wf(),
            r == old(self).slot(pos.y) is Some,
            match old(self).slot(pos.y) {
                Some(k) => {
                    let (o, n) = (old(self).subchunks_view()[k as int], final(self).subchunks_view()[k as int]);
                    &&& final(self).others_unchanged(*old(self), k)
                    &&& n.voxels_view() == o.voxels_view().update(crate::region::voxel_index(pos), v.0)
                    &&& n.lights_view() == o.lights_view()
                    &&& o.palette_view().is_prefix_of(n.palette_view())
                },
                None => *final(self) == *old(self),
            },
    {
        match self.subchunk_index(pos.y) {
            Some(i) => {
                let ghost old_subs = self.subchunks@;
                let sub = &mut self.subchunks[i];
                sub.set_voxel(pos, v);
                proof {
                    self.lemma_slot_update(old_subs, i as int);
                }
                true
            },
            None => false,
        }
    }

    /// Assign the value of the voxel at this position, returning the previous value.
    /// Returns "None" if the chunk does not hold its height. X and Z components wrap.
    pub fn replace_voxel(&mut self, pos: IVec3, v: Voxel) -> (r: Option<Voxel>)
        requires
            old(self).wf(),
            old(self).can_store(pos.y, v.0),
        ensures
            final(self).wf(),
            match old(self).slot(pos.y) {
                Some(k) => {
                    let (o, n) = (old(self).subchunks_view()[k as int], final(self).subchunks_view()[k as int]);
                    &&& r == Some(Voxel(o.voxels_view()[crate::region::voxel_index(pos)]))
                    &&& final(self).others_unchanged(*old(self), k)
                    &&& n.voxels_view() == o.voxels_view().update(crate::region::voxel_index(pos), v.0)
                    &&& n.lights_view() == o.lights_view()
                    &&& o.palette_view().is_prefix_of(n.palette_view())
                },
                None => r is None && *final(self) == *old(self),
            },
    {
        match self.subchunk_index(pos.y) {
            Some(i) => {
                let ghost old_subs = self.subchunks@;
                let sub = &mut self.subchunks[i];
                let prev = sub.replace_voxel(pos, v);
                proof {
                    self.lemma_slot_update(old_subs, i as int);
                }
                Some(prev)
            },
            None => None,
        }
    }

    /// Assign the light value of the voxel at this position.
    /// Returns "false" if the chunk does not hold its height. X and Z components wrap.
    pub fn set_light(&mut self, pos: IVec3, v: Light) -> (r: bool)
        requires
            old(self).wf(),
        ensures
            final(self).wf(),
            r == old(self).slot(pos.y) is Some,
            match old(self).slot(pos.y) {
                Some(k) => {
                    let (o, n) = (old(self).subchunks_view()[k as int], final(self).subchunks_view()[k as int]);
                    &&& final(self).others_unchanged(*old(self), k)
                    &&& n.lights_view() == o.lights_view().update(crate::region::voxel_index(pos), v)
                    &&& n.voxels_view() == o.voxels_view()
                    &&& n.palette_view() == o.palette_view()
                },
                None => *final(self) == *old(self),
            },
    {
        match self.subchunk_index(pos.y) {
            Some(i) => {
                let ghost old_subs = self.subchunks@;
                let sub = &mut self.subchunks[i];
                sub.set_light(pos, v);
                proof {
                    self.lemma_slot_update(old_subs, i as int);
                }
                true
            },
            None => false,
        }
    }

    /// Assign the light value of the voxel at this position, returning the previous value.
    /// Returns "None" if the chunk does not hold its height. X and Z components wrap.
    pub fn replace_light(&mut self, pos: IVec3, v: Light) -> (r: Option<Light>)
        requires
            old(self).wf(),
        ensures
            final(self).wf(),
            match old(self).slot(pos.y) {
                Some(k) => {
                    let (o, n) = (old(self).subchunks_view()[k as int], final(self).subchunks_view()[k as int]);
                    &&& r == Some(o.lights_view()[crate::region::voxel_index(pos)])
                    &&& final(self).others_unchanged(*old(self), k)
                    &&& n.lights_view() == o.lights_view().update(crate::region::voxel_index(pos), v)
                    &&& n.voxels_view() == o.voxels_view()
                    &&& n.palette_view() == o.palette_view()
                },
                None => r is None && *final(self) == *old(self),
            },
    {
        match self.subchunk_index(pos.y) {
            Some(i) => {
                let ghost old_subs = self.subchunks@;
                let sub = &mut self.subchunks[i];
                let prev = sub.replace_light(pos, v);
                proof {
                    self.lemma_slot_update(old_subs, i as int);
                }
                Some(prev)
            },
            None => None,
        }
    }

    /// After slot i of the subchunks changed into a well-formed subchunk with the same origin,
    /// the chunk is still well-formed.
    proof fn lemma_slot_update(&self, old_subs: Seq<Subchunk>, i: int)
        requires
            0 <= i < old_subs.len(),
            self.subchunks@.len() == old_subs.len(),
            forall|j: int| 0 <= j < old_subs.len() && j != i ==> #[trigger] self.subchunks@[j] == old_subs[j],
            self.subchunks@[i].wf(),
            self.subchunks@[i].origin_spec() == old_subs[i].origin_spec(),
            self.columns.wf(),
            self.height >= 0,
            old_subs.len() == self.height / 32,
            self.origin.y + self.height <= i32::MAX - 1024,
            forall|j: int|
                0 <= j < old_subs.len() ==> {
                    &&& (#[trigger] old_subs[j]).wf()
                    &&& old_subs[j].origin_spec() == (IVec3 {
                        x: self.origin.x,
                        y: (self.origin.y + 32 * j) as i32,
                        z: self.origin.z,
                    })
                },
        ensures
            self.wf(),
    {
        assert forall|j: int| 0 <= j < self.subchunks@.len() implies {
            &&& (#[trigger] self.subchunks@[j]).wf()
            &&& self.subchunks@[j].origin_spec() == (IVec3 {
                x: self.origin.x,
                y: (self.origin.y + 32 * j) as i32,
                z: self.origin.z,
            })
        } by {
            if j != i {
                assert(self.subchunks@[j] == old_subs[j]);
            }
        }
    }
}

impl Chunk {
    /// Whether some subchunk among the first n is not empty and lies on bit k of a mask.
    pub open spec fn non_empty_on_bit(&self, n: int, k: u64) -> bool {
        exists|i: int|
            0 <= i < n && (#[trigger] self.subchunks_view()[i]).palette_view().len() != 1
                && mask_index(self.subchunks_view()[i].origin_spec().y) == k
    }

    /// The mask of the subchunks that hold a voxel other than air.
    pub fn non_empty_mask(&self) -> (r: SubchunkMask)
        requires
            self.wf(),
        ensures
            forall|k: u64|
                k < 64 ==> (#[trigger] has_bit(r.0, k) <==> self.non_empty_on_bit(
                    self.subchunks_view().len() as int,
                    k,
                )),
    {
        let mut mask = SubchunkMask::empty();
        let mut i: usize = 0;
        assert forall|k: u64| k < 64 implies !#[trigger] has_bit(mask.0, k) by {
            assert((0u64 >> k) & 1u64 == 0u64) by (bit_vector);
        }
        while i < self.subchunks.len()
            invariant
                self.wf(),
                i <= self.subchunks@.len(),
                forall|k: u64|
                    k < 64 ==> (#[trigger] has_bit(mask.0, k) <==> self.non_empty_on_bit(
                        i as int,
                        k,
                    )),
            decreases self.subchunks@.len() - i,
        {
            let sub = &self.subchunks[i];
            let ghost before = mask;
            if !sub.is_empty() {
                let y = sub.origin().y;
                mask.set(y);
                assert forall|k: u64| k < 64 implies (#[trigger] has_bit(mask.0, k)
                    <==> self.non_empty_on_bit(i + 1, k)) by {
                    if has_bit(mask.0, k) && !has_bit(before.0, k) {
                        assert(self.subchunks_view()[i as int].palette_view().len() != 1);
                    }
                    if self.non_empty_on_bit(i + 1, k) && !self.non_empty_on_bit(i as int, k) {
                        let w = choose|w: int|
                            0 <= w < i + 1 && (#[trigger] self.subchunks_view()[w]).palette_view().len()
                                != 1 && mask_index(self.subchunks_view()[w].origin_spec().y) == k;
                        assert(w == i);
                    }
                }
            } else {
                assert forall|k: u64| k < 64 implies (#[trigger] has_bit(mask.0, k)
                    <==> self.non_empty_on_bit(i + 1, k)) by {
                    if self.non_empty_on_bit(i + 1, k) && !self.non_empty_on_bit(i as int, k) {
                        let w = choose|w: int|
                            0 <= w < i + 1 && (#[trigger] self.subchunks_view()[w]).palette_view().len()
                                != 1 && mask_index(self.subchunks_view()[w].origin_spec().y) == k;
                        assert(w == i);
                    }
                }
            }
            i = i + 1;
        }
        mask
    }

    /// Make every voxel of the chunk air.
    pub fn fill_air(&mut self)
        requires
            old(self).wf(),
        ensures
            final(self).wf(),
            final(self).subchunks_view().len() == old(self).subchunks_view().len(),
            forall|i: int|
                0 <= i < final(self).subchunks_view().len() ==> {
                    &&& (#[trigger] final(self).subchunks_view()[i]).voxels_view() == Seq::new(
                        32768,
                        |j: int| 0u16,
                    )
                    &&& final(self).subchunks_view()[i].palette_view() == seq![0u16]
                    &&& final(self).subchunks_view()[i].bits() == 0
                    &&& final(self).subchunks_view()[i].lights_view()
                        == old(self).subchunks_view()[i].lights_view()
                    &&& final(self).subchunks_view()[i].origin_spec()
                        == old(self).subchunks_view()[i].origin_spec()
                },
            final(self).origin_spec() == old(self).origin_spec(),
            final(self).height_spec() == old(self).height_spec(),
            final(self).revision_spec() == old(self).revision_spec(),
            final(self).columns_view() == old(self).columns_view(),
    {
        let n = self.subchunks.len();
        let mut i: usize = 0;
        while i < n
            invariant
                self.wf(),
                n == self.subchunks@.len(),
                n == old(self).subchunks@.len(),
                i <= n,
                self.origin == old(self).origin,
                self.height == old(self).height,
                self.revision == old(self).revision,
                self.columns@ == old(self).columns@,
                forall|j: int|
                    0 <= j < i ==> {
                        &&& (#[trigger] self.subchunks@[j]).voxels_view() == Seq::new(
                            32768,
                            |k: int| 0u16,
                        )
                        &&& self.subchunks@[j].palette_view() == seq![0u16]
                        &&& self.subchunks@[j].bits() == 0
                        &&& self.subchunks@[j].lights_view() == old(self).subchunks@[j].lights_view()
                        &&& self.subchunks@[j].origin_spec() == old(self).subchunks@[j].origin_spec()
                    },
                forall|j: int| i <= j < n ==> #[trigger] self.subchunks@[j] == old(self).subchunks@[j],
            decreases n - i,
        {
            let ghost old_subs = self.subchunks@;
            let sub = &mut self.subchunks[i];
            sub.fill_air();
            proof {
                self.lemma_slot_update(old_subs, i as int);
            }
            i = i + 1;
        }
    }

    /// The mask of the subchunks of the chunk.
    pub fn mask(&self) -> (r: SubchunkMask)
        requires
            self.wf(),
        ensures
            forall|k: u64|
                k < 64 ==> (#[trigger] has_bit(r.0, k) <==> mask_end(self.origin_spec().y) <= k
                    < mask_end((self.origin_spec().y + self.height_spec()) as i32)),
    {
        SubchunkMask::between_y_values(self.min_y(), self.max_y())
    }

    /// Store these voxels in the subchunk at this index; everything else stays.
    pub fn assign_subchunk_voxels(&mut self, index: usize, voxels: Voxels)
        requires
            old(self).wf(),
            index < old(self).subchunks_view().len(),
            voxels.wf(),
        ensures
            final(self).wf(),
            final(self).subchunks_view().len() == old(self).subchunks_view().len(),
            forall|j: int|
                0 <= j < old(self).subchunks_view().len() && j != index ==> #[trigger] final(self).subchunks_view()[j]
                    == old(self).subchunks_view()[j],
            final(self).subchunks_view()[index as int].voxels_view() == voxels@,
            final(self).subchunks_view()[index as int].palette_view() == voxels.palette_view(),
            final(self).subchunks_view()[index as int].bits() == voxels.bits(),
            final(self).subchunks_view()[index as int].words_raw() == voxels.words_raw(),
            final(self).subchunks_view()[index as int].lights_view() == old(self).subchunks_view()[index as int].lights_view(),
            final(self).subchunks_view()[index as int].origin_spec() == old(self).subchunks_view()[index as int].origin_spec(),
            final(self).origin_spec() == old(self).origin_spec(),
            final(self).height_spec() == old(self).height_spec(),
            final(self).revision_spec() == old(self).revision_spec(),
            final(self).columns_view() == old(self).columns_view(),
    {
        let ghost old_subs = self.subchunks@;
        proof {
            self.lemma_subchunk_wf(index as int);
        }
        let sub = &mut self.subchunks[index];
        sub.assign_voxels(voxels);
        proof {
            self.lemma_slot_update(old_subs, index as int);
        }
    }

    /// Set the chunk's revision; everything else stays.
    pub fn set_revision(&mut self, revision: u64)
        ensures
            final(self).revision_spec() == revision,
            final(self).subchunks_view() == old(self).subchunks_view(),
            final(self).origin_spec() == old(self).origin_spec(),
            final(self).height_spec() == old(self).height_spec(),
            final(self).columns_view() == old(self).columns_view(),
            old(self).wf() ==> final(self).wf(),
    {
        self.revision = revision;
    }

    /// The header that starts the chunk's encoded data.
    pub fn zip_header(&self) -> (r: ChunkHeader)
        requires
            self.wf(),
            self.subchunks_view().len() <= 64,
        ensures
            r == zip_header_of(*self),
    {
        let n = self.count_non_empty();
        ChunkHeader {
            origin: self.origin,
            height: self.height,
            state: 0,
            format: ChunkFormat::latest().as_u16(),
            length: n as u16,
            unused: 0,
            revision: self.revision,
        }
    }

    /// The number of subchunks that hold a voxel other than air.
    fn count_non_empty(&self) -> (r: usize)
        requires
            self.wf(),
        ensures
            r == count_non_empty(self.subchunks_view(), self.subchunks_view().len()),
    {
        let mut n: usize = 0;
        let mut i: usize = 0;
        while i < self.subchunks.len()
            invariant
                self.wf(),
                i <= self.subchunks@.len(),
                n == count_non_empty(self.subchunks@, i as nat),
                n <= i,
            decreases self.subchunks@.len() - i,
        {
            proof {
                self.lemma_subchunk_wf(i as int);
            }
            if !self.subchunks[i].is_empty() {
                n = n + 1;
            }
            i = i + 1;
        }
        n
    }

    /// Write the chunk's encoded data: its header, then the section of each subchunk that is not
    /// empty, from the bottom up. The format's subchunk mask spans 64 subchunks, so a chunk is
    /// at most that tall.
    pub fn zip_into<Z: Zipper>(&self, zipper: &mut Z)
        requires
            self.wf(),
            self.subchunks_view().len() <= 64,
            old(zipper).wf(),
            old(zipper).input().len() + chunk_bytes(*self).len() <= usize::MAX,
        ensures
            final(zipper).wf(),
            final(zipper).input() == old(zipper).input() + chunk_bytes(*self),
            final(zipper).config() == old(zipper).config(),
            final(zipper).first_put() == if old(zipper).first_put() == 0 {
                32
            } else {
                old(zipper).first_put()
            },
    {
        proof {
            reveal(chunk_bytes);
        }
        let header = self.zip_header();
        let hb = header.to_bytes();
        zipper.put(hb.as_slice());
        let ghost first = zipper.first_put();
        let ghost subs = self.subchunks@;
        proof {
            lemma_sections_len(subs, subs.len());
            lemma_sections_len_mono(subs, subs.len());
        }
        let mut i: usize = 0;
        while i < self.subchunks.len()
            invariant
                self.wf(),
                subs == self.subchunks@,
                i <= subs.len(),
                subs.len() <= 64,
                zipper.wf(),
                zipper.config() == old(zipper).config(),
                zipper.first_put() == first,
                first == if old(zipper).first_put() == 0 { 32 } else { old(zipper).first_put() },
                zipper.input() == old(zipper).input() + chunk_header_bytes(header) + sections(subs, i as nat),
                old(zipper).input().len() + chunk_bytes(*self).len() <= usize::MAX,
                chunk_bytes(*self) == chunk_header_bytes(header) + sections(subs, subs.len()),
                forall|j: nat| j <= subs.len() ==> #[trigger] sections(subs, j).len() <= sections(subs, subs.len()).len(),
                forall|j: int| 0 <= j < subs.len() ==> (#[trigger] subs[j]).wf(),
            decreases subs.len() - i,
        {
            let sub = &self.subchunks[i];
            if !sub.is_empty() {
                proof {
                    lemma_section_len(subs[i as int]);
                    assert(sections(subs, (i + 1) as nat) == sections(subs, i as nat) + section_bytes(subs[i as int]));
                }
                sub.zip(zipper);
            }
            i = i + 1;
            assert(zipper.input() =~= old(zipper).input() + chunk_header_bytes(header) + sections(subs, i as nat));
        }
    }

    /// The chunk's encoded data, zipped with an algorithm at a level.
    pub fn zip(&self, alg: Algorithm, level: ZipLevel) -> (r: ZippedChunk)
        requires
            self.wf(),
            self.subchunks_view().len() <= 64,
        ensures
            alg == Algorithm::Zstd ==> bytes_contents(r.0) == zstd_zipped(chunk_bytes(*self), zstd_level_of(level)),
            alg == Algorithm::Lz4 ==> bytes_contents(r.0) == lz4_zipped(chunk_bytes(*self), 32),
    {
        proof {
            lemma_chunk_bytes_len(*self);
        }
        let result = match alg {
            Algorithm::Zstd => {
                let mut zipper = ZstdZipper::init(Vec::new(), level);
                self.zip_into(&mut zipper);
                zipper.finish()
            },
            Algorithm::Lz4 => {
                let mut zipper = Lz4Zipper::init(Vec::new(), level);
                self.zip_into(&mut zipper);
                zipper.finish()
            },
        };
        ZippedChunk(bytes_from_vec(result))
    }
}

/// Zipped chunk data.
pub struct ZippedChunk(pub bytes::Bytes);

/// The number of the first n subchunks that hold a voxel other than air.
pub open spec fn count_non_empty(subs: Seq<Subchunk>, n: nat) -> nat
    decreases n,
{
    if n == 0 {
        0
    } else {
        count_non_empty(subs, (n - 1) as nat) + if subs[n - 1].palette_view().len() != 1 {
            1nat
        } else {
            0nat
        }
    }
}

/// The sections of the first n subchunks that hold a voxel other than air, in order.
pub open spec fn sections(subs: Seq<Subchunk>, n: nat) -> Seq<u8>
    decreases n,
{
    if n == 0 {
        Seq::empty()
    } else if subs[n - 1].palette_view().len() != 1 {
        sections(subs, (n - 1) as nat) + section_bytes(subs[n - 1])
    } else {
        sections(subs, (n - 1) as nat)
    }
}

/// The header of a chunk's encoded data.
pub open spec fn zip_header_of(c: Chunk) -> ChunkHeader {
    ChunkHeader {
        origin: c.origin_spec(),
        height: c.height_spec(),
        state: 0,
        format: 1,
        length: count_non_empty(c.subchunks_view(), c.subchunks_view().len()) as u16,
        unused: 0,
        revision: c.revision_spec(),
    }
}

/// A chunk's encoded data: its header and the sections of its subchunks that are not empty.
#[verifier::opaque]
pub open spec fn chunk_bytes(c: Chunk) -> Seq<u8> {
    chunk_header_bytes(zip_header_of(c)) + sections(c.subchunks_view(), c.subchunks_view().len())
}

/// The header at the front of a chunk's encoded data, read back, gives the chunk's own
/// origin, height and revision, the current format, and the number of sections that follow.
pub proof fn lemma_chunk_bytes_header(c: Chunk)
    ensures
        chunk_bytes(c).len() >= 32,
        crate::format::chunk_header_of(chunk_bytes(c)).revision == c.revision_spec(),
        crate::format::chunk_header_of(chunk_bytes(c)).origin == c.origin_spec(),
        crate::format::chunk_header_of(chunk_bytes(c)).height == c.height_spec(),
        crate::format::chunk_header_of(chunk_bytes(c)).format == 1,
        crate::format::chunk_header_of(chunk_bytes(c)).length == count_non_empty(
            c.subchunks_view(),
            c.subchunks_view().len(),
        ) as u16,
{
    reveal(chunk_bytes);
    crate::format::lemma_chunk_header_roundtrip(
        zip_header_of(c),
        sections(c.subchunks_view(), c.subchunks_view().len()),
    );
}

/// The sections of well-formed subchunks take at most 131087 bytes each.
pub proof fn lemma_sections_len(subs: Seq<Subchunk>, n: nat)
    requires
        n <= subs.len(),
        forall|j: int| 0 <= j < subs.len() ==> (#[trigger] subs[j]).wf(),
    ensures
        sections(subs, n).len() <= 131087 * n,
    decreases n,
{
    if n > 0 {
        lemma_sections_len(subs, (n - 1) as nat);
        if subs[n - 1].palette_view().len() != 1 {
            lemma_section_len(subs[n - 1]);
        }
    }
}

/// The sections of fewer subchunks are no longer.
pub proof fn lemma_sections_len_mono(subs: Seq<Subchunk>, n: nat)
    ensures
        forall|j: nat| j <= n ==> #[trigger] sections(subs, j).len() <= sections(subs, n).len(),
    decreases n,
{
    if n > 0 {
        lemma_sections_len_mono(subs, (n - 1) as nat);
    }
}

/// A chunk of at most 64 subchunks encodes to at most 32 + 64 * 131087 bytes.
pub proof fn lemma_chunk_bytes_len(c: Chunk)
    requires
        c.wf(),
        c.subchunks_view().len() <= 64,
    ensures
        chunk_bytes(c).len() <= 32 + 131087 * 64,
{
    reveal(chunk_bytes);
    crate::format::lemma_chunk_header_roundtrip(zip_header_of(c), Seq::empty());
    assert forall|j: int| 0 <= j < c.subchunks_view().len() implies (#[trigger] c.subchunks_view()[j]).wf() by {
        c.lemma_subchunk_wf(j);
    }
    lemma_sections_len(c.subchunks_view(), c.subchunks_view().len());
    assert(131087 * c.subchunks_view().len() <= 131087 * 64) by (nonlinear_arith)
        requires
            c.subchunks_view().len() <= 64,
    ;
}

} // verus!
