use openvoxel::knn::{SpatialQuery, SpatialQuery2d};
use openvoxel::region::RegionId;
use openvoxel::space::{ivec2, ivec3};

#[test]
fn spatial_query_finds_items_by_region() {
    let mut q: SpatialQuery<u32> = SpatialQuery::default();
    q.push(1, ivec3(10, 5, 10));
    q.push(2, ivec3(600, -3, 10));
    q.push(3, ivec3(511, 0, 0));
    q.push(4, ivec3(-1, 0, -1));
    // nothing is found before a rebuild
    assert!(q.in_region(RegionId::new(ivec2(0, 0))).is_empty());
    q.rebuild();
    let mut first = q.in_region(RegionId::new(ivec2(0, 0)));
    first.sort_by_key(|(item, _)| *item);
    assert_eq!(first, vec![(1, ivec3(10, 5, 10)), (3, ivec3(511, 0, 0))]);
    assert_eq!(q.in_region(RegionId::new(ivec2(512, 0))), vec![(2, ivec3(600, -3, 10))]);
    assert_eq!(q.in_region(RegionId::new(ivec2(-512, -512))), vec![(4, ivec3(-1, 0, -1))]);
    assert!(q.in_region(RegionId::new(ivec2(1024, 1024))).is_empty());
}

#[test]
fn spatial_query_rebuild_replaces_items() {
    let mut q: SpatialQuery<u32> = SpatialQuery::new();
    q.push(1, ivec3(1, 1, 1));
    q.rebuild();
    q.push(2, ivec3(2, 2, 2));
    // still the old items until the next rebuild
    assert_eq!(q.in_region(RegionId::new(ivec2(0, 0))), vec![(1, ivec3(1, 1, 1))]);
    q.rebuild();
    assert_eq!(q.in_region(RegionId::new(ivec2(0, 0))), vec![(2, ivec3(2, 2, 2))]);
    q.rebuild();
    assert!(q.in_region(RegionId::new(ivec2(0, 0))).is_empty());
}

#[test]
fn spatial_query_2d_keeps_duplicates() {
    let mut q: SpatialQuery2d<u8> = SpatialQuery2d::default();
    for _ in 0..3 {
        q.push(9, ivec2(100, 700));
    }
    q.push(8, ivec2(-600, 700));
    q.rebuild();
    assert_eq!(q.in_region(RegionId::new(ivec2(0, 512))).len(), 3);
    assert_eq!(q.in_region(RegionId::new(ivec2(-1024, 512))), vec![(8, ivec2(-600, 700))]);
}
