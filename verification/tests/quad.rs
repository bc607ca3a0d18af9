use openvoxel::axis::Axis;
use openvoxel::quad::{full_block, Normal, Quad, Vertex};

#[test]
fn vertex_offset() {
    let v = Vertex::new([1, 2, 3], 7);
    assert_eq!(v.offset([10, -2, 0]), Vertex::new([11, 0, 3], 7));
    assert_eq!(v.offset_with_texture([0, 0, 16], 9), Vertex::new([1, 2, 19], 9));
}

#[test]
fn full_faces() {
    let q = Quad::full(Axis::PosX, 4);
    assert_eq!(q.0[0], Vertex::new([16, 16, 0], 4));
    assert_eq!(q.0[3], Vertex::new([16, 0, 0], 4));
    let q = Quad::full(Axis::NegZ, 0);
    assert_eq!(q.0[1], Vertex::new([16, 16, 0], 0));
    let block = full_block();
    assert!(block.index(Axis::PosY) == &Quad::full(Axis::PosY, 0));
    assert!(block.index(Axis::NegY) == &Quad::full(Axis::NegY, 0));
}

#[test]
fn quad_offset() {
    let q = Quad::full(Axis::PosY, 1).offset([16, 0, -16]);
    assert_eq!(q.0[0], Vertex::new([16, 16, 0], 1));
    let q = Quad::full(Axis::PosY, 1).offset_with_texture([0, 1, 0], 3);
    assert_eq!(q.0[2], Vertex::new([16, 17, 0], 3));
}

#[test]
fn normal_to_array() {
    assert_eq!(Normal::Aligned(Axis::NegY).to_array(), [0, -127, 0, 3]);
    assert_eq!(Normal::Aligned(Axis::PosX).to_array(), [127, 0, 0, 0]);
    assert_eq!(Normal::Unaligned([90, 90, 0]).to_array(), [90, 90, 0, 6]);
}
