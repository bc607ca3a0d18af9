use vstd::prelude::*;

use crate::axis::{axis_index, axis_ivec3, Axis, AxisArray};

verus! {

/// A corner of a block face: a position in sixteenths of a block, and a texture.
#[derive(Copy, Clone, Eq, PartialEq, Debug)]
pub struct Vertex {
    pub pos: [i16; 3],
    pub texture: i16,
}

/// Whether the sums of a position and an offset fit in i16.
pub open spec fn offset_fits(pos: [i16; 3], offs: [i16; 3]) -> bool {
    &&& i16::MIN <= pos@[0] + offs@[0] <= i16::MAX
    &&& i16::MIN <= pos@[1] + offs@[1] <= i16::MAX
    &&& i16::MIN <= pos@[2] + offs@[2] <= i16::MAX
}

/// Whether q is p moved by offs.
pub open spec fn moved(p: [i16; 3], offs: [i16; 3], q: [i16; 3]) -> bool {
    &&& q@[0] == p@[0] + offs@[0]
    &&& q@[1] == p@[1] + offs@[1]
    &&& q@[2] == p@[2] + offs@[2]
}

impl Vertex {
    pub fn new(pos: [i16; 3], texture: i16) -> (r: Vertex)
        ensures
            r.pos == pos,
            r.texture == texture,
    {
        Vertex { pos, texture }
    }

    /// The vertex moved by an offset.
    pub fn offset(self, offs: [i16; 3]) -> (r: Vertex)
        requires
            offset_fits(self.pos, offs),
        ensures
            moved(self.pos, offs, r.pos),
            r.texture == self.texture,
    {
        Vertex {
            pos: [self.pos[0] + offs[0], self.pos[1] + offs[1], self.pos[2] + offs[2]],
            texture: self.texture,
        }
    }

    /// The vertex moved by an offset, with another texture.
    pub fn offset_with_texture(self, offs: [i16; 3], texture: i16) -> (r: Vertex)
        requires
            offset_fits(self.pos, offs),
        ensures
            moved(self.pos, offs, r.pos),
            r.texture == texture,
    {
        Vertex { pos: [self.pos[0] + offs[0], self.pos[1] + offs[1], self.pos[2] + offs[2]], texture }
    }
}

/// The four corners of a block face.
#[derive(Copy, Clone, Eq, PartialEq)]
pub struct Quad(pub [Vertex; 4]);

/// The corners of the full face of a block on each axis, by axis number.
pub open spec fn face_corners(i: int) -> Seq<Seq<i16>> {
    if i == 0 {
        seq![seq![16, 16, 0], seq![16, 16, 16], seq![16, 0, 16], seq![16, 0, 0]]
    } else if i == 1 {
        seq![seq![0, 16, 16], seq![0, 16, 0], seq![0, 0, 0], seq![0, 0, 16]]
    } else if i == 2 {
        seq![seq![0, 16, 16], seq![16, 16, 16], seq![16, 16, 0], seq![0, 16, 0]]
    } else if i == 3 {
        seq![seq![16, 0, 16], seq![0, 0, 16], seq![0, 0, 0], seq![16, 0, 0]]
    } else if i == 4 {
        seq![seq![16, 16, 16], seq![0, 16, 16], seq![0, 0, 16], seq![16, 0, 16]]
    } else {
        seq![seq![0, 16, 0], seq![16, 16, 0], seq![16, 0, 0], seq![0, 0, 0]]
    }
}

/// The corners of the full face on an axis.
fn corners(axis: Axis) -> (r: [[i16; 3]; 4])
    ensures
        forall|k: int, j: int| 0 <= k < 4 && 0 <= j < 3 ==> #[trigger] r@[k]@[j] == face_corners(
            axis_index(axis) as int,
        )[k][j],
{
    match axis {
        Axis::PosX => [[16, 16, 0], [16, 16, 16], [16, 0, 16], [16, 0, 0]],
        Axis::NegX => [[0, 16, 16], [0, 16, 0], [0, 0, 0], [0, 0, 16]],
        Axis::PosY => [[0, 16, 16], [16, 16, 16], [16, 16, 0], [0, 16, 0]],
        Axis::NegY => [[16, 0, 16], [0, 0, 16], [0, 0, 0], [16, 0, 0]],
        Axis::PosZ => [[16, 16, 16], [0, 16, 16], [0, 0, 16], [16, 0, 16]],
        Axis::NegZ => [[0, 16, 0], [16, 16, 0], [16, 0, 0], [0, 0, 0]],
    }
}

impl Quad {
    /// A quad with these corners, all with one texture.
    pub fn new(pos: [[i16; 3]; 4], texture: i16) -> (r: Quad)
        ensures
            forall|k: int| 0 <= k < 4 ==> (#[trigger] r.0@[k]).pos == pos@[k] && r.0@[k].texture == texture,
    {
        Quad(
            [
                Vertex::new(pos[0], texture),
                Vertex::new(pos[1], texture),
                Vertex::new(pos[2], texture),
                Vertex::new(pos[3], texture),
            ],
        )
    }

    /// The full face of a block on an axis.
    pub fn full(axis: Axis, texture: i16) -> (r: Quad)
        ensures
            forall|k: int, j: int| 0 <= k < 4 && 0 <= j < 3 ==> #[trigger] r.0@[k].pos@[j] == face_corners(
                axis_index(axis) as int,
            )[k][j],
            forall|k: int| 0 <= k < 4 ==> (#[trigger] r.0@[k]).texture == texture,
    {
        Quad::new(corners(axis), texture)
    }

    /// The quad moved by an offset.
    pub fn offset(self, offs: [i16; 3]) -> (r: Quad)
        requires
            forall|k: int| 0 <= k < 4 ==> offset_fits(#[trigger] self.0@[k].pos, offs),
        ensures
            forall|k: int| 0 <= k < 4 ==> moved(self.0@[k].pos, offs, (#[trigger] r.0@[k]).pos)
                && r.0@[k].texture == self.0@[k].texture,
    {
        Quad([self.0[0].offset(offs), self.0[1].offset(offs), self.0[2].offset(offs), self.0[3].offset(offs)])
    }

    /// The quad moved by an offset, with another texture.
    pub fn offset_with_texture(self, offs: [i16; 3], texture: i16) -> (r: Quad)
        requires
            forall|k: int| 0 <= k < 4 ==> offset_fits(#[trigger] self.0@[k].pos, offs),
        ensures
            forall|k: int| 0 <= k < 4 ==> moved(self.0@[k].pos, offs, (#[trigger] r.0@[k]).pos)
                && r.0@[k].texture == texture,
    {
        Quad(
            [
                self.0[0].offset_with_texture(offs, texture),
                self.0[1].offset_with_texture(offs, texture),
                self.0[2].offset_with_texture(offs, texture),
                self.0[3].offset_with_texture(offs, texture),
            ],
        )
    }
}

/// The faces of a full block, each with texture 0, by axis.
pub fn full_block() -> (r: AxisArray<Quad>)
    ensures
        forall|i: int, k: int, j: int| 0 <= i < 6 && 0 <= k < 4 && 0 <= j < 3 ==> #[trigger] r@[i].0@[k].pos@[j]
            == face_corners(i)[k][j],
        forall|i: int, k: int| 0 <= i < 6 && 0 <= k < 4 ==> #[trigger] r@[i].0@[k].texture == 0,
{
    let r = AxisArray::new(
        [
            Quad::full(Axis::PosX, 0),
            Quad::full(Axis::NegX, 0),
            Quad::full(Axis::PosY, 0),
            Quad::full(Axis::NegY, 0),
            Quad::full(Axis::PosZ, 0),
            Quad::full(Axis::NegZ, 0),
        ],
    );
    proof {
        assert forall|i: int, k: int, j: int| 0 <= i < 6 && 0 <= k < 4 && 0 <= j < 3 implies #[trigger] r@[i].0@[k].pos@[j]
            == face_corners(i)[k][j] by {
            assert(i == 0 || i == 1 || i == 2 || i == 3 || i == 4 || i == 5);
        }
    }
    r
}

/// The direction a quad is facing.
#[derive(Copy, Clone, Debug)]
pub enum Normal {
    /// The face is axis-aligned.
    Aligned(Axis),
    /// The face is not axis-aligned: its direction scaled to 127.
    Unaligned([i8; 3]),
}

impl Normal {
    /// The normal as four bytes: the direction scaled to 127, then the axis number for an
    /// aligned face or 6 for another.
    pub fn to_array(self) -> (r: [i8; 4])
        ensures
            match self {
                Normal::Unaligned(v) => r@ == seq![v@[0], v@[1], v@[2], 6i8],
                Normal::Aligned(axis) => r@ == seq![
                    (127 * axis_ivec3(axis).x) as i8,
                    (127 * axis_ivec3(axis).y) as i8,
                    (127 * axis_ivec3(axis).z) as i8,
                    axis_index(axis) as i8,
                ],
            },
    {
        match self {
            Normal::Unaligned(v) => [v[0], v[1], v[2], 6],
            Normal::Aligned(axis) => {
                let d = axis.as_i8vec3();
                [d[0], d[1], d[2], axis.as_u8() as i8]
            },
        }
    }
}

} // verus!
