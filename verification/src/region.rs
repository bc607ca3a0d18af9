use vstd::prelude::*;

use crate::space::{ivec2, ivec3, IArea, IVec2, IVec3};

verus! {

/// The chunk of a region that holds x and z, wrapping: (x / 32) % 16 + 16 * ((z / 32) % 16).
pub open spec fn chunk_index(xz: IVec2) -> int {
    ((xz.x >> 5) & 15i32) + 16 * ((xz.y >> 5) & 15i32)
}

/// The column of a chunk that holds x and z, wrapping: x % 32 + 32 * (z % 32).
pub open spec fn column_index(xz: IVec2) -> int {
    (xz.x & 31i32) + 32 * (xz.y & 31i32)
}

/// The voxel of a subchunk that holds a position, wrapping: y % 32 + 32 * (x % 32) + 1024 * (z % 32).
pub open spec fn voxel_index(pos: IVec3) -> int {
    (pos.y & 31i32) + 32 * (pos.x & 31i32) + 1024 * (pos.z & 31i32)
}

/// Facts about the low and high bits of a coordinate.
proof fn lemma_coord_bits(v: i32)
    by (bit_vector)
    ensures
        0 <= v & 31i32 <= 31,
        0 <= (v >> 5) & 15i32 <= 15,
        0 <= v & 511i32 <= 511,
        (v & !511i32) as u32 as i32 == v & !511i32,
        (v & !511i32) & !511i32 == v & !511i32,
        v & !511i32 <= v,
        v - (v & !511i32) < 512,
        (v & !511i32) & 511i32 == 0,
        (v & !511i32) % 512i32 == 0,
{
}

/// Packing small fields side by side with `|` and shifts adds them.
proof fn lemma_pack_bits(a: i32, b: i32, c: i32, hz: u32, hx: u32, m: i32)
    by (bit_vector)
    ensures
        0 <= a < 16 && 0 <= b < 16 ==> a | (b << 4) == a + 16 * b,
        0 <= a < 32 && 0 <= b < 32 ==> a | (b << 5) == a + 32 * b,
        0 <= a < 32 && 0 <= b < 32 && 0 <= c < 32 ==> a | (b << 5) | (c << 10) == a + 32 * b
            + 1024 * c,
        0 <= m <= 511 ==> (m as u32) >> 5 == (m / 32) as u32,
        (((hz as u64) << 32u64) | (hx as u64)) & 0xFFFF_FFFFu64 == hx as u64,
        (((hz as u64) << 32u64) | (hx as u64)) >> 32u64 == hz as u64,
{
}

/// Chunk indices lie in 0..256.
pub proof fn lemma_chunk_index_range(xz: IVec2)
    ensures
        0 <= chunk_index(xz) < 256,
{
    lemma_coord_bits(xz.x);
    lemma_coord_bits(xz.y);
}

/// Voxel indices lie in 0..32768.
pub proof fn lemma_voxel_index_range(pos: IVec3)
    ensures
        0 <= voxel_index(pos) < 32768,
{
    lemma_coord_bits(pos.x);
    lemma_coord_bits(pos.y);
    lemma_coord_bits(pos.z);
}

/// i = ((x / 32) % 16) + ((z / 32) % 16) * 16
pub fn to_chunk_index_wrapping(xz: IVec2) -> (r: usize)
    ensures
        r == chunk_index(xz),
        r < 256,
{
    proof {
        lemma_coord_bits(xz.x);
        lemma_coord_bits(xz.y);
    }
    let a: i32 = (xz.x >> 5) & 0xF;
    let b: i32 = (xz.y >> 5) & 0xF;
    proof {
        lemma_pack_bits(a, b, 0, 0, 0, 0);
    }
    (a | (b << 4)) as usize
}

/// i = (x & 31) + ((z & 31) << 5)
pub fn to_column_index_wrapping(xz: IVec2) -> (r: usize)
    ensures
        r == column_index(xz),
        r < 1024,
{
    proof {
        lemma_coord_bits(xz.x);
        lemma_coord_bits(xz.y);
    }
    let a: i32 = xz.x & 31;
    let b: i32 = xz.y & 31;
    proof {
        lemma_pack_bits(a, b, 0, 0, 0, 0);
    }
    (a | (b << 5)) as usize
}

/// Convert a world position to an index in a subchunk, in [0,32768), by wrapping.
/// i = (y % 32) | ((x % 32) * 32) | ((z % 32) * 1024)
pub fn to_voxel_index_wrapping(pos: IVec3) -> (r: usize)
    ensures
        r == voxel_index(pos),
        r < 32768,
{
    proof {
        lemma_coord_bits(pos.x);
        lemma_coord_bits(pos.y);
        lemma_coord_bits(pos.z);
    }
    let a: i32 = pos.y & 31;
    let b: i32 = pos.x & 31;
    let c: i32 = pos.z & 31;
    proof {
        lemma_pack_bits(a, b, c, 0, 0, 0);
    }
    (a | (b << 5) | (c << 10)) as usize
}

/// Whether the chunk holding a position lies on the border of its region, so that some of its
/// neighbouring chunks are in another region.
pub fn chunk_is_fully_contained(xz: IVec2) -> (r: bool)
    ensures
        r == ((xz.x & 511i32) / 32 == 0 || (xz.x & 511i32) / 32 == 15 || (xz.y & 511i32) / 32 == 0
            || (xz.y & 511i32) / 32 == 15),
{
    let xm: i32 = xz.x & 511;
    let ym: i32 = xz.y & 511;
    proof {
        lemma_coord_bits(xz.x);
        lemma_coord_bits(xz.y);
        lemma_pack_bits(0, 0, 0, 0, 0, xm);
        lemma_pack_bits(0, 0, 0, 0, 0, ym);
    }
    let x: u32 = (xm as u32) >> 5;
    let y: u32 = (ym as u32) >> 5;
    x == 0 || x == 15 || y == 0 || y == 15
}

/// The lowest multiple of 512 that is not above v.
pub open spec fn region_floor(v: i32) -> i32 {
    v & !511i32
}

/// The x coordinate held in the low 32 bits of a region id.
pub open spec fn id_x(id: u64) -> i32 {
    (id & 0xFFFF_FFFFu64) as u32 as i32
}

/// The z coordinate held in the high 32 bits of a region id.
pub open spec fn id_z(id: u64) -> i32 {
    (id >> 32u64) as u32 as i32
}

/// The id of the region holding xz: its origin's z in the high 32 bits, its x in the low ones.
pub open spec fn region_id_of(xz: IVec2) -> u64 {
    ((region_floor(xz.y) as u32 as u64) << 32u64) | (region_floor(xz.x) as u32 as u64)
}

/// A unique identifier for a Region, based on its XZ origin.
#[derive(Copy, Clone, Eq, PartialEq, Debug, Ord, PartialOrd, Hash, Default, Structural)]
pub struct RegionId(pub u64);

impl RegionId {
    /// The largest id.
    pub fn max() -> (r: RegionId)
        ensures
            r.0 == u64::MAX,
    {
        RegionId(u64::MAX)
    }

    /// The id of the region that contains xz.
    pub fn new(xz: IVec2) -> (r: RegionId)
        ensures
            r.0 == region_id_of(xz),
            id_x(r.0) == region_floor(xz.x),
            id_z(r.0) == region_floor(xz.y),
    {
        let hz: u32 = (xz.y & !511) as u32;
        let hx: u32 = (xz.x & !511) as u32;
        let v: u64 = ((hz as u64) << 32) | (hx as u64);
        proof {
            lemma_pack_bits(0, 0, 0, hz, hx, 0);
            lemma_coord_bits(xz.x);
            lemma_coord_bits(xz.y);
        }
        RegionId(v)
    }

    /// The id of the region that contains pos.
    pub fn from_ivec3(pos: IVec3) -> (r: RegionId)
        ensures
            id_x(r.0) == region_floor(pos.x),
            id_z(r.0) == region_floor(pos.z),
    {
        RegionId::new(pos.xz())
    }

    /// The x coordinate of the region's origin.
    pub fn x(self) -> (r: i32)
        ensures
            r == id_x(self.0),
    {
        (self.0 & 0xFFFFFFFF) as u32 as i32
    }

    /// The z coordinate of the region's origin.
    pub fn z(self) -> (r: i32)
        ensures
            r == id_z(self.0),
    {
        (self.0 >> 32) as u32 as i32
    }

    pub fn as_ivec2(&self) -> (r: IVec2)
        ensures
            r.x == id_x(self.0),
            r.y == id_z(self.0),
    {
        ivec2(self.x(), self.z())
    }

    pub fn as_ivec3(&self, y: i32) -> (r: IVec3)
        ensures
            r.x == id_x(self.0),
            r.y == y,
            r.z == id_z(self.0),
    {
        ivec3(self.x(), y, self.z())
    }

    /// The 512x512 area covered by the region.
    pub fn area(&self) -> (r: IArea)
        requires
            id_x(self.0) <= i32::MAX - 512,
            id_z(self.0) <= i32::MAX - 512,
        ensures
            r.min.x == id_x(self.0),
            r.min.y == id_z(self.0),
            r.max.x == id_x(self.0) + 512,
            r.max.y == id_z(self.0) + 512,
    {
        let min = self.as_ivec2();
        IArea { min, max: ivec2(min.x + 512, min.y + 512) }
    }
}

impl From<IVec2> for RegionId {
    fn from(value: IVec2) -> (r: RegionId) {
        RegionId::new(value)
    }
}

impl vstd::std_specs::convert::FromSpecImpl<IVec2> for RegionId {
    open spec fn obeys_from_spec() -> bool {
        true
    }

    open spec fn from_spec(v: IVec2) -> RegionId {
        RegionId(region_id_of(v))
    }
}

/// The id of the region holding a point names that region again: rounding to the region is
/// idempotent.
pub proof fn lemma_region_id_idempotent(xz: IVec2)
    ensures
        region_floor(region_floor(xz.x)) == region_floor(xz.x),
        region_floor(region_floor(xz.y)) == region_floor(xz.y),
{
    lemma_coord_bits(xz.x);
    lemma_coord_bits(xz.y);
}

/// The id of a position names a region origin that gives the same id back, on multiples of
/// 512.
pub proof fn lemma_region_id_origin(xz: IVec2)
    ensures
        id_x(region_id_of(xz)) == region_floor(xz.x),
        id_z(region_id_of(xz)) == region_floor(xz.y),
        region_floor(xz.x) % 512 == 0,
        region_floor(xz.y) % 512 == 0,
        region_id_of(IVec2 { x: region_floor(xz.x), y: region_floor(xz.y) }) == region_id_of(xz),
{
    lemma_coord_bits(xz.x);
    lemma_coord_bits(xz.y);
    let hz = region_floor(xz.y) as u32;
    let hx = region_floor(xz.x) as u32;
    lemma_pack_bits(0, 0, 0, hz, hx, 0);
}

/// The region floor of v is a multiple of 512 within 512 below v.
pub proof fn lemma_region_floor_bounds(v: i32)
    ensures
        region_floor(v) <= v,
        v - region_floor(v) < 512,
        region_floor(v) & 511i32 == 0,
{
    lemma_coord_bits(v);
}

} // verus!
