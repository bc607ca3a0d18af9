use openvoxel::axis::{Axis, AxisArray};
use openvoxel::blocks::{Block, Transparency};
use openvoxel::coverage::{Coverages, Mask};

fn solid(texture: u16) -> Coverages {
    Coverages::new(AxisArray::new([texture; 6]), AxisArray::new([Mask::full(); 6]))
}

fn half() -> Mask {
    Mask([u64::MAX, u64::MAX, 0, 0])
}

#[test]
fn full_faces_cover_each_other_with_same_texture() {
    let a = solid(0);
    let b = solid(0);
    assert!(a.is_covered_by(&b, Axis::PosX));
    assert!(a.is_full_and_texture(Axis::NegZ, 0));
    let glass = solid(3);
    // an opaque face is not hidden by a transparent neighbour
    assert!(!a.is_covered_by(&glass, Axis::PosY));
    assert!(!glass.is_covered_by(&a, Axis::PosY));
    assert!(!glass.is_full_and_texture(Axis::PosY, 0));
}

#[test]
fn partial_faces() {
    let slab = Coverages::new(AxisArray::new([0; 6]), AxisArray::new([half(); 6]));
    let block = solid(0);
    // a partial face is covered by a full opaque one
    assert!(slab.is_covered_by(&block, Axis::PosX));
    // a full face is not covered by a partial one
    assert!(!block.is_covered_by(&slab, Axis::PosX));
    // equal partial masks cover each other
    assert!(slab.is_covered_by(&slab, Axis::NegX));
    // an empty face is never covered
    let air = Coverages::new(AxisArray::new([0; 6]), AxisArray::new([Mask::empty(); 6]));
    assert!(!air.is_covered_by(&block, Axis::PosZ));
}

#[test]
fn covering_looks_at_the_opposite_face() {
    let mut masks = [Mask::empty(); 6];
    masks[1] = Mask::full(); // NegX
    let wall = Coverages::new(AxisArray::new([0; 6]), AxisArray::new(masks));
    let block = solid(0);
    // block's +x face touches wall's -x face
    assert!(block.is_covered_by(&wall, Axis::PosX));
    assert!(!block.is_covered_by(&wall, Axis::NegX));
}

#[test]
fn block_holds_its_state_range() {
    let b = Block { states: 4..9 };
    assert_eq!(b.states.len(), 5);
    assert_ne!(Transparency::Opaque, Transparency::Blend);
}

#[test]
fn mask_quadrants() {
    let quads = [Mask::q00(), Mask::q10(), Mask::q01(), Mask::q11()];
    for q in quads {
        assert_eq!(q.num_covered(), 64);
        assert!(q.is_partial());
        assert!(q.is_covered_by(&Mask::full()));
        assert!(Mask::empty().is_covered_by(&q));
    }
    assert!(!Mask::q00().is_covered_by(&Mask::q10()));
    let mut all = [0u64; 4];
    for q in quads {
        for i in 0..4 {
            assert_eq!(all[i] & q.0[i], 0);
            all[i] |= q.0[i];
        }
    }
    assert!(Mask(all).is_full());
}
