use vstd::prelude::*;

use crate::region::{chunk_index, lemma_chunk_index_range, to_chunk_index_wrapping};
use crate::space::{IArea, IVec2};

verus! {

/// 256 bits, one per chunk of a region, x-major.
#[verifier::external_body]
#[derive(Copy)]
pub struct ChunkBits {
    bits: bitvec::array::BitArray<[u64; 4]>,
}

impl Clone for ChunkBits {
    /// Copies the bit array (`BitArray` is `Copy`): the same bits.
    #[verifier::external_body]
    fn clone(&self) -> (r: ChunkBits)
        ensures
            chunk_bits(r) == chunk_bits(*self),
    {
        ChunkBits { bits: self.bits }
    }
}

/// The bits of a chunk bit array, by index.
pub uninterp spec fn chunk_bits(b: ChunkBits) -> Seq<bool>;

/// Calls `bitvec::array::BitArray::ZERO`: all 256 bits clear.
#[verifier::external_body]
fn bits_zero() -> (r: ChunkBits)
    ensures
        chunk_bits(r) == Seq::new(256, |i: int| false),
{
    ChunkBits { bits: bitvec::array::BitArray::ZERO }
}

/// Calls `Index::index` on the bit array: the bit at index i.
#[verifier::external_body]
fn bits_get(b: &ChunkBits, i: usize) -> (r: bool)
    requires
        i < 256,
    ensures
        r == chunk_bits(*b)[i as int],
{
    b.bits[i]
}

/// Calls `BitSlice::set`: the bit at index i becomes v, the others stay.
#[verifier::external_body]
fn bits_set(b: &mut ChunkBits, i: usize, v: bool)
    requires
        i < 256,
        chunk_bits(*old(b)).len() == 256,
    ensures
        chunk_bits(*final(b)) == chunk_bits(*old(b)).update(i as int, v),
{
    b.bits.set(i, v)
}

/// Calls `BitAnd::bitand` on two bit arrays: each bit is set where both are.
#[verifier::external_body]
fn bits_and(a: &ChunkBits, b: &ChunkBits) -> (r: ChunkBits)
    ensures
        chunk_bits(r) == Seq::new(256, |i: int| chunk_bits(*a)[i] && chunk_bits(*b)[i]),
{
    ChunkBits { bits: a.bits & b.bits }
}

/// Calls `BitOr::bitor` on two bit arrays: each bit is set where either is.
#[verifier::external_body]
fn bits_or(a: &ChunkBits, b: &ChunkBits) -> (r: ChunkBits)
    ensures
        chunk_bits(r) == Seq::new(256, |i: int| chunk_bits(*a)[i] || chunk_bits(*b)[i]),
{
    ChunkBits { bits: a.bits | b.bits }
}

/// Calls `Not::not` on a bit array: each bit flips.
#[verifier::external_body]
fn bits_not(a: &ChunkBits) -> (r: ChunkBits)
    ensures
        chunk_bits(r) == Seq::new(256, |i: int| !chunk_bits(*a)[i]),
{
    ChunkBits { bits: !a.bits }
}

/// Calls `BitSlice::iter_ones` and collects it: the indices of the set bits, ascending.
#[verifier::external_body]
fn bits_ones(b: &ChunkBits) -> (r: Vec<usize>)
    requires
        chunk_bits(*b).len() == 256,
    ensures
        r@.map_values(|i: usize| i as int) == ones(chunk_bits(*b), 256),
{
    b.bits.iter_ones().collect()
}

/// The indices below j whose bit is set, ascending.
pub open spec fn ones(bits: Seq<bool>, j: nat) -> Seq<int>
    decreases j,
{
    if j == 0 {
        Seq::empty()
    } else if bits[j - 1] {
        ones(bits, (j - 1) as nat).push(j - 1)
    } else {
        ones(bits, (j - 1) as nat)
    }
}

/// The origin of the chunk with index i, relative to its region.
pub open spec fn chunk_origin(i: int) -> IVec2 {
    IVec2 { x: ((i % 16) * 32) as i32, y: ((i / 16) * 32) as i32 }
}

/// Whether (x, y) is the minimum of one of the 32x32 cells that an iteration over the cells of
/// the aligned area r yields: x-major rows from r.min, the first cell of each row always, the
/// others while they start before r.max.x, and rows while they start before r.max.y.
pub open spec fn is_cell_min(r: IArea, x: int, y: int) -> bool {
    &&& r.min.x <= x
    &&& (x == r.min.x || x < r.max.x)
    &&& r.min.y <= y < r.max.y
    &&& (x - r.min.x) % 32 == 0
    &&& (y - r.min.y) % 32 == 0
}

/// Whether a cell of the aligned area r lies in the chunk with index i of its region.
pub open spec fn covers_chunk(r: IArea, i: int) -> bool {
    exists|x: i32, y: i32| #[trigger] is_cell_min(r, x as int, y as int) && chunk_index(IVec2 { x, y }) == i
}

/// The cells of r before the position `next` of an iteration over them.
spec fn cell_visited(r: IArea, next: IVec2, x: int, y: int) -> bool {
    is_cell_min(r, x, y) && (y < next.y || (y == next.y && x < next.x))
}

/// Whether a cell of r before `next` lies in the chunk with index i.
spec fn visited_chunk(r: IArea, next: IVec2, i: int) -> bool {
    exists|x: i32, y: i32| #[trigger] cell_visited(r, next, x as int, y as int) && chunk_index(IVec2 { x, y }) == i
}

/// Flags that describe chunks within a Region. Has the same layout as the chunks of a region,
/// x-major, and a fixed length of 256.
#[derive(Clone, Copy)]
pub struct ChunkMask(ChunkBits);

impl ChunkMask {
    /// The flag of each chunk, by index.
    pub closed spec fn view(&self) -> Seq<bool> {
        chunk_bits(self.0)
    }

    pub closed spec fn wf(&self) -> bool {
        chunk_bits(self.0).len() == 256
    }

    /// No chunk is flagged.
    pub fn new() -> (r: ChunkMask)
        ensures
            r.wf(),
            r@ == Seq::new(256, |i: int| false),
    {
        ChunkMask(bits_zero())
    }

    /// The chunks that the area overlaps: one flag for each 32x32 cell that covers the area
    /// rounded out to multiples of 32. The area is meant to lie within one region, as the
    /// intersection of some area with the region's own; a larger one wraps.
    pub fn from_area(area: &IArea) -> (r: ChunkMask)
        requires
            area.max.x + 63 <= i32::MAX + 1,
            area.max.y + 63 <= i32::MAX + 1,
            area.min.x - 64 >= i32::MIN,
            area.min.y - 64 >= i32::MIN,
            area.min.x + 32 <= i32::MAX,
            area.min.y + 32 <= i32::MAX,
            area.max.x - 33 >= i32::MIN,
            area.max.y - 33 >= i32::MIN,
        ensures
            r.wf(),
            r@ == Seq::new(256, |i: int| covers_chunk(area.rounded_up_to_pow2_spec(32), i)),
    {
        let mut mask = ChunkMask::new();
        let mut cells = area.cells_pow2(32);
        let ghost rr = area.rounded_up_to_pow2_spec(32);
        proof {
            assert forall|i: int| 0 <= i < 256 implies !visited_chunk(rr, cells.next, i) by {
                if visited_chunk(rr, cells.next, i) {
                    let (x, y) = choose|x: i32, y: i32| #[trigger] cell_visited(rr, cells.next, x as int, y as int)
                        && chunk_index(IVec2 { x, y }) == i;
                    assert(cell_visited(rr, cells.next, x as int, y as int));
                }
            }
            assert(mask@ =~= Seq::new(256, |i: int| visited_chunk(rr, cells.next, i)));
        }
        loop
            invariant
                cells.wf(),
                cells.area == rr,
                cells.stride == 32,
                rr.min.x <= cells.next.x,
                rr.min.y <= cells.next.y,
                (cells.next.x - rr.min.x) % 32 == 0,
                (cells.next.y - rr.min.y) % 32 == 0,
                mask.wf(),
                mask@ == Seq::new(256, |i: int| visited_chunk(rr, cells.next, i)),
            ensures
                mask.wf(),
                mask@ == Seq::new(256, |i: int| covers_chunk(rr, i)),
            decreases rr.max.y + 32 - cells.next.y, rr.max.x + 32 - cells.next.x,
        {
            let ghost before = cells.next;
            match cells.next() {
                Some(cell) => {
                    let ghost old_mask = mask@;
                    mask.set(cell.min, true);
                    proof {
                        lemma_chunk_index_range(before);
                        lemma_visit_step(rr, before, cells.next);
                        assert forall|i: int| 0 <= i < 256 implies mask@[i] == visited_chunk(rr, cells.next, i) by {
                            if visited_chunk(rr, cells.next, i) {
                                let (x, y) = choose|x: i32, y: i32| #[trigger] cell_visited(rr, cells.next, x as int, y as int)
                                    && chunk_index(IVec2 { x, y }) == i;
                                if !(x == before.x && y == before.y) {
                                    assert(cell_visited(rr, before, x as int, y as int));
                                }
                            }
                            if old_mask[i] {
                                let (x, y) = choose|x: i32, y: i32| #[trigger] cell_visited(rr, before, x as int, y as int)
                                    && chunk_index(IVec2 { x, y }) == i;
                                assert(cell_visited(rr, cells.next, x as int, y as int));
                            }
                            if i == chunk_index(before) {
                                assert(cell_visited(rr, cells.next, before.x as int, before.y as int));
                            }
                        }
                        assert(mask@ =~= Seq::new(256, |i: int| visited_chunk(rr, cells.next, i)));
                    }
                },
                None => {
                    proof {
                        assert forall|i: int| 0 <= i < 256 implies mask@[i] == covers_chunk(rr, i) by {
                            if covers_chunk(rr, i) {
                                let (x, y) = choose|x: i32, y: i32| #[trigger] is_cell_min(rr, x as int, y as int)
                                    && chunk_index(IVec2 { x, y }) == i;
                                assert(cell_visited(rr, cells.next, x as int, y as int));
                            }
                            if mask@[i] {
                                let (x, y) = choose|x: i32, y: i32| #[trigger] cell_visited(rr, cells.next, x as int, y as int)
                                    && chunk_index(IVec2 { x, y }) == i;
                                assert(is_cell_min(rr, x as int, y as int));
                            }
                        }
                        assert(mask@ =~= Seq::new(256, |i: int| covers_chunk(rr, i)));
                    }
                    break;
                },
            }
        }
        mask
    }

    /// Clear every flag.
    pub fn clear(&mut self)
        ensures
            final(self).wf(),
            final(self)@ == Seq::new(256, |i: int| false),
    {
        self.0 = bits_zero();
    }

    /// The flag of the chunk holding xz, wrapping, so xz may lie anywhere in the region.
    pub fn get(&self, xz: IVec2) -> (r: bool)
        requires
            self.wf(),
        ensures
            r == self@[chunk_index(xz)],
    {
        bits_get(&self.0, to_chunk_index_wrapping(xz))
    }

    /// Set the flag of the chunk holding xz, wrapping.
    pub fn set(&mut self, xz: IVec2, v: bool)
        requires
            old(self).wf(),
        ensures
            final(self).wf(),
            final(self)@ == old(self)@.update(chunk_index(xz), v),
    {
        let i = to_chunk_index_wrapping(xz);
        bits_set(&mut self.0, i, v)
    }

    /// The flag of the chunk with index i.
    pub fn index(&self, i: usize) -> (r: bool)
        requires
            self.wf(),
            i < 256,
        ensures
            r == self@[i as int],
    {
        bits_get(&self.0, i)
    }

    /// Set the flag of the chunk with index i.
    pub fn set_index(&mut self, i: usize, v: bool)
        requires
            old(self).wf(),
            i < 256,
        ensures
            final(self).wf(),
            final(self)@ == old(self)@.update(i as int, v),
    {
        bits_set(&mut self.0, i, v)
    }

    /// The chunks flagged in both self and rhs.
    pub fn intersection(&self, rhs: &ChunkMask) -> (r: ChunkMask)
        ensures
            r.wf(),
            r@ == Seq::new(256, |i: int| self@[i] && rhs@[i]),
    {
        ChunkMask(bits_and(&self.0, &rhs.0))
    }

    /// The chunks flagged in both self and rhs.
    pub fn bitand(self, rhs: ChunkMask) -> (r: ChunkMask)
        ensures
            r.wf(),
            r@ == Seq::new(256, |i: int| self@[i] && rhs@[i]),
    {
        ChunkMask(bits_and(&self.0, &rhs.0))
    }

    /// The chunks flagged in self or rhs.
    pub fn bitor(self, rhs: ChunkMask) -> (r: ChunkMask)
        ensures
            r.wf(),
            r@ == Seq::new(256, |i: int| self@[i] || rhs@[i]),
    {
        ChunkMask(bits_or(&self.0, &rhs.0))
    }

    /// Flag the chunks flagged in rhs too.
    pub fn bitor_assign(&mut self, rhs: ChunkMask)
        ensures
            final(self).wf(),
            final(self)@ == Seq::new(256, |i: int| old(self)@[i] || rhs@[i]),
    {
        self.0 = bits_or(&self.0, &rhs.0);
    }

    /// The chunks not flagged in self.
    pub fn not(self) -> (r: ChunkMask)
        ensures
            r.wf(),
            r@ == Seq::new(256, |i: int| !self@[i]),
    {
        ChunkMask(bits_not(&self.0))
    }

    /// The origins of the flagged chunks, relative to the region, by ascending index.
    pub fn iter_ones(&self) -> (r: Vec<IVec2>)
        requires
            self.wf(),
        ensures
            r@ == ones(self@, 256).map_values(|i: int| chunk_origin(i)),
    {
        let idx = bits_ones(&self.0);
        let mut out: Vec<IVec2> = Vec::new();
        let mut k: usize = 0;
        proof {
            lemma_ones_range(self@, 256);
        }
        while k < idx.len()
            invariant
                k <= idx@.len(),
                idx@.map_values(|i: usize| i as int) == ones(self@, 256),
                forall|j: int| 0 <= j < idx@.len() ==> 0 <= #[trigger] ones(self@, 256)[j] < 256,
                out@ == ones(self@, 256).subrange(0, k as int).map_values(|i: int| chunk_origin(i)),
            decreases idx@.len() - k,
        {
            let i = idx[k];
            assert(idx@.map_values(|i: usize| i as int)[k as int] == i);
            let x = ((i & 0xF) << 5) as i32;
            let y = ((i >> 4) << 5) as i32;
            assert(i < 256 ==> ((i & 0xF) << 5) == (i % 16) * 32 && ((i >> 4) << 5) == (i / 16) * 32)
                by (bit_vector);
            out.push(IVec2 { x, y });
            k = k + 1;
            assert(out@ =~= ones(self@, 256).subrange(0, k as int).map_values(|i: int| chunk_origin(i)));
        }
        assert(ones(self@, 256).subrange(0, k as int) =~= ones(self@, 256));
        out
    }
}

impl Default for ChunkMask {
    fn default() -> (r: ChunkMask)
        ensures
            r.wf(),
            r@ == Seq::new(256, |i: int| false),
    {
        ChunkMask::new()
    }
}

proof fn lemma_ones_range(bits: Seq<bool>, j: nat)
    ensures
        forall|k: int| 0 <= k < ones(bits, j).len() ==> 0 <= #[trigger] ones(bits, j)[k] < j,
    decreases j,
{
    if j > 0 {
        lemma_ones_range(bits, (j - 1) as nat);
        let prev = ones(bits, (j - 1) as nat);
        assert forall|k: int| 0 <= k < ones(bits, j).len() implies 0 <= #[trigger] ones(bits, j)[k] < j by {
            if k < prev.len() {
                assert(ones(bits, j)[k] == prev[k]);
            }
        }
    }
}

/// One step of an iteration over the cells of r, from `cur` to `next`, adds exactly the cell at
/// `cur` to the cells visited.
proof fn lemma_visit_step(r: IArea, cur: IVec2, next: IVec2)
    requires
        r.min.x <= cur.x,
        (cur.x == r.min.x || cur.x < r.max.x),
        r.min.y <= cur.y < r.max.y,
        cur.y + 32 <= i32::MAX,
        (cur.x - r.min.x) % 32 == 0,
        (cur.y - r.min.y) % 32 == 0,
        next == (if cur.x + 32 >= r.max.x {
            IVec2 { x: r.min.x, y: (cur.y + 32) as i32 }
        } else {
            IVec2 { x: (cur.x + 32) as i32, y: cur.y }
        }),
    ensures
        forall|x: int, y: int| #[trigger] cell_visited(r, next, x, y) <==> (cell_visited(r, cur, x, y)
            || (x == cur.x && y == cur.y)),
        is_cell_min(r, cur.x as int, cur.y as int),
        r.min.x <= next.x,
        r.min.y <= next.y,
        (next.x - r.min.x) % 32 == 0,
        (next.y - r.min.y) % 32 == 0,
{
    let b = (cur.y - r.min.y) / 32;
    let a = (cur.x - r.min.x) / 32;
    assert forall|x: int, y: int| #[trigger] cell_visited(r, next, x, y) <==> (cell_visited(r, cur, x, y)
        || (x == cur.x && y == cur.y)) by {
        if is_cell_min(r, x, y) {
            let c = (x - r.min.x) / 32;
            let d = (y - r.min.y) / 32;
            assert(x == r.min.x + 32 * c);
            assert(y == r.min.y + 32 * d);
        }
    }
}

} // verus!
