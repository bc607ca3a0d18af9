use openvoxel::attribute::ChunkMask;
use openvoxel::space::{ivec2, IArea, ICells2d};

fn count_cells(mut it: ICells2d) -> usize {
    let mut n = 0;
    while it.next().is_some() {
        n += 1;
    }
    n
}

#[test]
fn test_chunk_mask_new_is_empty() {
    let mask = ChunkMask::new();
    for y in 0..16 {
        for x in 0..16 {
            assert!(
                !mask.get(ivec2(x * 32, y * 32)),
                "New mask should have all bits false at chunk ({}, {})",
                x,
                y
            );
        }
    }
}

#[test]
fn test_chunk_mask_set_and_get() {
    let mut mask = ChunkMask::new();
    mask.set(ivec2(0, 0), true);
    mask.set(ivec2(32, 0), true);
    mask.set(ivec2(0, 32), true);
    mask.set(ivec2(480, 480), true);

    assert!(mask.get(ivec2(0, 0)));
    assert!(mask.get(ivec2(32, 0)));
    assert!(mask.get(ivec2(0, 32)));
    assert!(mask.get(ivec2(480, 480)));

    assert!(!mask.get(ivec2(64, 0)));
    assert!(!mask.get(ivec2(32, 32)));
}

#[test]
fn test_chunk_mask_wrapping_behavior() {
    let mut mask = ChunkMask::new();
    mask.set(ivec2(0, 0), true);

    assert!(mask.get(ivec2(0, 0)));
    assert!(mask.get(ivec2(15, 15)));
    assert!(mask.get(ivec2(31, 31)));

    assert!(!mask.get(ivec2(32, 0)));
}

#[test]
fn test_chunk_mask_from_area_single_chunk() {
    let area = IArea::new(ivec2(10, 10), ivec2(30, 30));
    let mask = ChunkMask::from_area(&area);

    let count = mask.iter_ones().len();
    assert_eq!(count, 1, "Single-chunk area should set exactly 1 chunk");

    assert!(mask.get(ivec2(0, 0)), "Chunk (0,0) should be set");
}

#[test]
fn test_chunk_mask_from_area_multiple_chunks() {
    let area = IArea::new(ivec2(0, 0), ivec2(64, 64));
    let mask = ChunkMask::from_area(&area);

    let count = mask.iter_ones().len();
    assert_eq!(count, 4, "2x2 chunk area should set exactly 4 chunks");

    assert!(mask.get(ivec2(0, 0)));
    assert!(mask.get(ivec2(32, 0)));
    assert!(mask.get(ivec2(0, 32)));
    assert!(mask.get(ivec2(32, 32)));
}

#[test]
fn test_chunk_mask_from_area_full_region() {
    let area = IArea::new(ivec2(0, 0), ivec2(512, 512));
    let mask = ChunkMask::from_area(&area);

    let count = mask.iter_ones().len();
    assert_eq!(count, 256, "Full region should set all 256 chunks");

    for y in 0..16 {
        for x in 0..16 {
            assert!(
                mask.get(ivec2(x * 32, y * 32)),
                "Chunk ({}, {}) should be set in full region",
                x,
                y
            );
        }
    }
}

#[test]
fn test_chunk_mask_from_area_partial_coverage() {
    let area = IArea::new(ivec2(10, 10), ivec2(100, 100));
    let mask = ChunkMask::from_area(&area);

    let count = mask.iter_ones().len();
    assert_eq!(count, 16, "Area should span 4x4 chunks");
}

#[test]
fn test_chunk_mask_iter_ones_empty() {
    let mask = ChunkMask::new();
    let chunks = mask.iter_ones();

    assert_eq!(chunks.len(), 0, "Empty mask should yield no chunks");
}

#[test]
fn test_chunk_mask_iter_ones_single() {
    let mut mask = ChunkMask::new();
    mask.set(ivec2(64, 96), true);

    let chunks = mask.iter_ones();
    assert_eq!(chunks.len(), 1);

    let chunk = chunks[0];
    assert!(mask.get(chunk));
}

#[test]
fn test_chunk_mask_iter_ones_multiple() {
    let mut mask = ChunkMask::new();

    mask.set(ivec2(0, 0), true);
    mask.set(ivec2(32, 32), true);
    mask.set(ivec2(64, 64), true);
    mask.set(ivec2(480, 480), true);

    let chunks = mask.iter_ones();
    assert_eq!(chunks.len(), 4);
}

#[test]
fn test_chunk_mask_iter_ones_consistency_with_from_area() {
    let area = IArea::new(ivec2(50, 50), ivec2(150, 150));
    let mask = ChunkMask::from_area(&area);

    let iter_chunks = mask.iter_ones();
    let area_chunks = count_cells(area.cells_pow2(32));

    assert_eq!(
        iter_chunks.len(),
        area_chunks,
        "Iterator should yield same number of chunks as area.cells_pow2"
    );
}

#[test]
fn test_chunk_mask_bitwise_operations() {
    let mut mask1 = ChunkMask::new();
    let mut mask2 = ChunkMask::new();

    mask1.set(ivec2(0, 0), true);
    mask1.set(ivec2(32, 0), true);

    mask2.set(ivec2(32, 0), true);
    mask2.set(ivec2(64, 0), true);

    let and_result = mask1.bitand(mask2);
    assert!(and_result.get(ivec2(32, 0)), "AND should include common chunk");
    assert!(!and_result.get(ivec2(0, 0)), "AND should not include mask1-only chunk");
    assert!(!and_result.get(ivec2(64, 0)), "AND should not include mask2-only chunk");

    let or_result = mask1.bitor(mask2);
    assert!(or_result.get(ivec2(0, 0)), "OR should include all chunks");
    assert!(or_result.get(ivec2(32, 0)));
    assert!(or_result.get(ivec2(64, 0)));

    let not_result = mask1.not();
    assert!(!not_result.get(ivec2(0, 0)), "NOT should invert set chunks");
    assert!(not_result.get(ivec2(64, 0)), "NOT should invert unset chunks");
}

#[test]
fn test_chunk_mask_intersection_method() {
    let mut mask1 = ChunkMask::new();
    let mut mask2 = ChunkMask::new();

    mask1.set(ivec2(0, 0), true);
    mask1.set(ivec2(32, 0), true);
    mask1.set(ivec2(64, 0), true);

    mask2.set(ivec2(32, 0), true);
    mask2.set(ivec2(64, 0), true);
    mask2.set(ivec2(96, 0), true);

    let intersection = mask1.intersection(&mask2);

    assert_eq!(intersection.iter_ones().len(), 2);
    assert!(intersection.get(ivec2(32, 0)));
    assert!(intersection.get(ivec2(64, 0)));
    assert!(!intersection.get(ivec2(0, 0)));
    assert!(!intersection.get(ivec2(96, 0)));
}

#[test]
fn test_chunk_mask_clear() {
    let mut mask = ChunkMask::new();

    mask.set(ivec2(0, 0), true);
    mask.set(ivec2(32, 32), true);
    assert_eq!(mask.iter_ones().len(), 2);

    mask.clear();
    assert_eq!(mask.iter_ones().len(), 0);
    assert!(!mask.get(ivec2(0, 0)));
    assert!(!mask.get(ivec2(32, 32)));
}

#[test]
fn test_chunk_mask_index_operations() {
    let mut mask = ChunkMask::new();

    mask.set_index(0, true);
    mask.set_index(1, true);
    mask.set_index(16, true);

    assert!(mask.index(0));
    assert!(mask.index(1));
    assert!(mask.index(16));
    assert!(!mask.index(2));

    assert!(mask.get(ivec2(0, 0)));
    assert!(mask.get(ivec2(32, 0)));
    assert!(mask.get(ivec2(0, 32)));
}

#[test]
fn test_chunk_mask_from_area_edge_cases() {
    let area = IArea::new(ivec2(480, 480), ivec2(512, 512));
    let mask = ChunkMask::from_area(&area);

    assert!(mask.get(ivec2(480, 480)));
}

#[test]
fn test_chunk_mask_from_area_with_intersection() {
    let full_area = IArea::new(ivec2(-100, -100), ivec2(600, 600));
    let region_bounds = IArea::new(ivec2(0, 0), ivec2(512, 512));

    let intersection = full_area
        .intersection(&region_bounds)
        .expect("Should have intersection");

    let mask = ChunkMask::from_area(&intersection);

    assert_eq!(
        mask.iter_ones().len(),
        256,
        "Intersection covering full region should set all chunks"
    );
}

#[test]
fn test_chunk_mask_iter_ones_order() {
    let mut mask = ChunkMask::new();

    mask.set(ivec2(0, 0), true);
    mask.set(ivec2(32, 0), true);
    mask.set(ivec2(0, 32), true);
    mask.set(ivec2(32, 32), true);

    let chunks = mask.iter_ones();

    assert_eq!(chunks.len(), 4);
    assert!(chunks.contains(&ivec2(0, 0)));
    assert!(chunks.contains(&ivec2(32, 0)));
    assert!(chunks.contains(&ivec2(0, 32)));
    assert!(chunks.contains(&ivec2(32, 32)));
}

#[test]
fn chunk_mask_iter_ones_ascending_origins() {
    let mut mask = ChunkMask::new();
    mask.set(ivec2(32, 32), true);
    mask.set(ivec2(0, 0), true);
    mask.set(ivec2(480, 0), true);
    assert_eq!(mask.iter_ones(), vec![ivec2(0, 0), ivec2(480, 0), ivec2(32, 32)]);
}

#[test]
fn chunk_mask_from_area_wide_area_wraps() {
    let area = IArea::new(ivec2(0, 0), ivec2(544, 32));
    let mask = ChunkMask::from_area(&area);
    assert_eq!(mask.iter_ones().len(), 16);
    assert!(mask.get(ivec2(0, 0)));
    assert!(!mask.get(ivec2(0, 32)));
}

#[test]
fn chunk_mask_bitor_assign_adds_flags() {
    let mut a = ChunkMask::new();
    let mut b = ChunkMask::new();
    a.set_index(3, true);
    b.set_index(200, true);
    a.bitor_assign(b);
    assert!(a.index(3));
    assert!(a.index(200));
    assert_eq!(a.iter_ones().len(), 2);
}
