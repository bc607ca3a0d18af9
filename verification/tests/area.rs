use openvoxel::space::{ivec2, IArea, IAreaIter, ICells2d, IVec2};

fn collect_points(mut it: IAreaIter) -> Vec<IVec2> {
    let mut v = Vec::new();
    while let Some(p) = it.next() {
        v.push(p);
    }
    v
}

fn collect_points_rev(mut it: IAreaIter) -> Vec<IVec2> {
    let mut v = Vec::new();
    while let Some(p) = it.next_back() {
        v.push(p);
    }
    v
}

fn collect_cells(mut it: ICells2d) -> Vec<IArea> {
    let mut v = Vec::new();
    while let Some(c) = it.next() {
        v.push(c);
    }
    v
}

#[test]
fn area_width_height() {
    let area = IArea::from_size(1);
    assert_eq!(area.width(), 3);
    assert_eq!(area.height(), 3);

    let area = IArea::from_center_extents(ivec2(50, 25), ivec2(50, 50));
    assert_eq!(area.min, ivec2(0, -25));
    assert_eq!(area.max, ivec2(101, 76));
    assert_eq!(area.width(), 101);
    assert_eq!(area.height(), 101);

    let area = IArea::from_center_extents(ivec2(-150, -190), ivec2(50, 50));
    assert_eq!(area.min, ivec2(-200, -240));
    assert_eq!(area.max, ivec2(-99, -139));
    assert_eq!(area.width(), 101);
    assert_eq!(area.height(), 101);
}

#[test]
fn area_iter() {
    let area = IArea::from_center_extents(ivec2(0, 0), ivec2(1, 1));
    let expected = vec![
        ivec2(-1, -1),
        ivec2(0, -1),
        ivec2(1, -1),
        ivec2(-1, 0),
        ivec2(0, 0),
        ivec2(1, 0),
        ivec2(-1, 1),
        ivec2(0, 1),
        ivec2(1, 1),
    ];
    assert_eq!(expected, collect_points(area.into_iter()));
}

#[test]
fn area_iter_strided() {
    let area = IArea::from_center_extents(ivec2(0, 0), ivec2(1, 1));
    let expected = vec![ivec2(-1, -1), ivec2(1, -1), ivec2(-1, 1), ivec2(1, 1)];
    assert_eq!(expected, collect_points(area.iter(2)));

    let area = IArea::from_center_extents(ivec2(0, 0), ivec2(5, 5));
    let mut expected = Vec::new();
    for y in (-5..5).step_by(3) {
        for x in (-5..5).step_by(3) {
            expected.push(ivec2(x, y));
        }
    }
    assert_eq!(expected, collect_points(area.iter(3)));
}

#[test]
fn area_iter_negative() {
    let area = IArea::from_center_extents(ivec2(-10, -5), ivec2(5, 5));
    let mut expected = Vec::new();
    for y in 0..=10 {
        for x in 0..=10 {
            expected.push(ivec2(area.min.x + x, area.min.y + y));
        }
    }
    assert_eq!(expected, collect_points(area.into_iter()));
}

#[test]
fn area_iter_negative_strided() {
    let area = IArea::from_center_extents(ivec2(-10, -5), ivec2(5, 5));
    let mut expected = Vec::new();
    for y in (0..=10).step_by(2) {
        for x in (0..=10).step_by(2) {
            expected.push(ivec2(area.min.x + x, area.min.y + y));
        }
    }
    assert_eq!(expected, collect_points(area.iter(2)));
}

#[test]
fn area_iter_rev() {
    let center = ivec2(-10, -10);
    let area = IArea::from_center_extents(center, ivec2(5, 5));
    let mut expected = Vec::new();
    for y in (-5..=5).rev() {
        for x in (-5..=5).rev() {
            expected.push(ivec2(center.x + x, center.y + y));
        }
    }
    assert_eq!(expected, collect_points_rev(area.into_iter()));
}

#[test]
fn area_round_up_to() {
    let mut area = IArea::from_size(2);
    area.round_up_to(IVec2::splat(5));
    assert_eq!(area.min, ivec2(-5, -5));
    assert_eq!(area.max, ivec2(5, 5));

    let mut area = IArea::from_size(4);
    area.round_up_to(IVec2::splat(5));
    assert_eq!(area.max, ivec2(5, 5));
}

#[test]
fn area_cells() {
    let area = IArea::from_size(2);
    let expected = vec![
        IArea::new(ivec2(-5, -5), ivec2(0, 0)),
        IArea::new(ivec2(0, -5), ivec2(5, 0)),
        IArea::new(ivec2(-5, 0), ivec2(0, 5)),
        IArea::new(ivec2(0, 0), ivec2(5, 5)),
    ];
    assert_eq!(expected, collect_cells(area.cells(5)));

    let area = IArea::from_size(4);
    let expected = vec![
        IArea::new(ivec2(-5, -5), ivec2(0, 0)),
        IArea::new(ivec2(0, -5), ivec2(5, 0)),
        IArea::new(ivec2(-5, 0), ivec2(0, 5)),
        IArea::new(ivec2(0, 0), ivec2(5, 5)),
    ];
    assert_eq!(expected, collect_cells(area.cells(5)));
}

#[test]
fn test_intersection_complete_overlap() {
    let a = IArea::new(ivec2(0, 0), ivec2(10, 10));
    let b = IArea::new(ivec2(2, 2), ivec2(8, 8));
    assert_eq!(a.intersection(&b), Some(b));
}

#[test]
fn test_intersection_partial_overlap() {
    let a = IArea::new(ivec2(0, 0), ivec2(10, 10));
    let b = IArea::new(ivec2(5, 5), ivec2(15, 15));
    assert_eq!(a.intersection(&b), Some(IArea::new(ivec2(5, 5), ivec2(10, 10))));
}

#[test]
fn test_intersection_no_overlap() {
    let a = IArea::new(ivec2(0, 0), ivec2(10, 10));
    let b = IArea::new(ivec2(20, 20), ivec2(30, 30));
    assert_eq!(a.intersection(&b), None);
}

#[test]
fn test_intersection_edge_adjacent_no_overlap() {
    let a = IArea::new(ivec2(0, 0), ivec2(10, 10));
    let b = IArea::new(ivec2(10, 0), ivec2(20, 10));
    assert_eq!(a.intersection(&b), None);
}

#[test]
fn test_intersection_corner_adjacent_no_overlap() {
    let a = IArea::new(ivec2(0, 0), ivec2(10, 10));
    let b = IArea::new(ivec2(10, 10), ivec2(20, 20));
    assert_eq!(a.intersection(&b), None);
}

#[test]
fn test_intersection_single_point() {
    let a = IArea::new(ivec2(0, 0), ivec2(10, 10));
    let b = IArea::new(ivec2(5, 5), ivec2(6, 6));
    assert_eq!(a.intersection(&b), Some(IArea::new(ivec2(5, 5), ivec2(6, 6))));
}

#[test]
fn test_intersection_commutative() {
    let a = IArea::new(ivec2(0, 0), ivec2(10, 10));
    let b = IArea::new(ivec2(5, 5), ivec2(15, 15));
    assert_eq!(a.intersection(&b), b.intersection(&a));
}

#[test]
fn test_intersection_with_negative_coords() {
    let a = IArea::new(ivec2(-10, -10), ivec2(10, 10));
    let b = IArea::new(ivec2(-5, -5), ivec2(5, 5));
    assert_eq!(a.intersection(&b), Some(IArea::new(ivec2(-5, -5), ivec2(5, 5))));
}

#[test]
fn test_intersection_x_overlap_only() {
    let a = IArea::new(ivec2(0, 0), ivec2(10, 10));
    let b = IArea::new(ivec2(5, 10), ivec2(15, 20));
    assert_eq!(a.intersection(&b), None);
}

#[test]
fn test_intersection_y_overlap_only() {
    let a = IArea::new(ivec2(0, 0), ivec2(10, 10));
    let b = IArea::new(ivec2(10, 5), ivec2(20, 15));
    assert_eq!(a.intersection(&b), None);
}

#[test]
fn test_intersects_matches_intersection() {
    let a = IArea::new(ivec2(0, 0), ivec2(10, 10));
    let b = IArea::new(ivec2(5, 5), ivec2(15, 15));
    let c = IArea::new(ivec2(20, 20), ivec2(30, 30));
    assert_eq!(a.intersects(&b), a.intersection(&b).is_some());
    assert_eq!(a.intersects(&c), a.intersection(&c).is_some());
}

#[test]
fn test_cells_pow2_all_cells_intersect_with_original_area() {
    let area = IArea::new(ivec2(0, 0), ivec2(1000, 1000));
    let cells = collect_cells(area.cells_pow2(512));
    for (i, cell) in cells.iter().enumerate() {
        assert!(
            area.intersects(cell),
            "Cell {} at {:?} does not intersect with original area {:?}",
            i,
            cell,
            area
        );
    }
}

#[test]
fn test_cells_pow2_vs_cells_produce_same_results() {
    let area = IArea::new(ivec2(0, 0), ivec2(1000, 1000));
    let cells_pow2 = collect_cells(area.cells_pow2(512));
    let cells_regular = collect_cells(area.cells(512));
    assert_eq!(cells_pow2.len(), cells_regular.len());
    for (pow2_cell, regular_cell) in cells_pow2.iter().zip(cells_regular.iter()) {
        assert_eq!(pow2_cell, regular_cell);
    }
}

#[test]
fn test_cells_pow2_boundary_case_exact_multiple() {
    let area = IArea::new(ivec2(0, 0), ivec2(1024, 1024));
    let cells = collect_cells(area.cells_pow2(512));
    assert_eq!(cells.len(), 4, "Expected 4 cells for 1024x1024 area with 512 cells");
    let expected_cells = vec![
        IArea::new(ivec2(0, 0), ivec2(512, 512)),
        IArea::new(ivec2(512, 0), ivec2(1024, 512)),
        IArea::new(ivec2(0, 512), ivec2(512, 1024)),
        IArea::new(ivec2(512, 512), ivec2(1024, 1024)),
    ];
    for (actual, expected) in cells.iter().zip(expected_cells.iter()) {
        assert_eq!(actual, expected);
    }
}

#[test]
fn test_cells_pow2_small_area_single_cell() {
    let area = IArea::new(ivec2(100, 100), ivec2(200, 200));
    let cells = collect_cells(area.cells_pow2(512));
    assert_eq!(cells.len(), 1, "Small area should produce exactly 1 cell");
    let cell = cells[0];
    assert!(cell.contains(area.min) && cell.contains(ivec2(area.max.x - 1, area.max.y - 1)));
}

#[test]
fn test_cells_pow2_negative_coordinates() {
    let area = IArea::new(ivec2(-600, -600), ivec2(600, 600));
    let cells = collect_cells(area.cells_pow2(512));
    for (i, cell) in cells.iter().enumerate() {
        assert!(area.intersects(cell), "Cell {} does not intersect with original area", i);
    }
}

#[test]
fn test_cells_pow2_coverage_complete() {
    let area = IArea::new(ivec2(0, 0), ivec2(1000, 1000));
    let rounded = area.rounded_up_to_pow2(512, 512);
    let cells = collect_cells(area.cells_pow2(512));
    for y in (rounded.min.y..rounded.max.y).step_by(512) {
        for x in (rounded.min.x..rounded.max.x).step_by(512) {
            let point = ivec2(x, y);
            let containing = cells.iter().filter(|cell| cell.contains(point)).count();
            assert_eq!(containing, 1, "Point {:?} should be in exactly 1 cell", point);
        }
    }
}

#[test]
fn test_cells_pow2_iterator_consistency() {
    let area = IArea::new(ivec2(0, 0), ivec2(1000, 1000));
    let cells1 = collect_cells(area.cells_pow2(512));
    let cells2 = collect_cells(area.cells_pow2(512));
    assert_eq!(cells1, cells2, "Multiple iterations should produce identical results");
}

#[test]
fn area_contains_is_exclusive_on_max() {
    let a = IArea::new(ivec2(-3, 2), ivec2(4, 9));
    assert!(a.contains(ivec2(-3, 2)));
    assert!(a.contains(ivec2(3, 8)));
    assert!(!a.contains(ivec2(4, 8)));
    assert!(!a.contains(ivec2(3, 9)));
}
