use openvoxel::region::RegionId;
use openvoxel::resolver::OwnedResolver;
use openvoxel::space::{ivec2, ivec3};
use openvoxel::world::{Region, World};

#[test]
fn resolver_indexes_pushed_regions() {
    let mut r = OwnedResolver::new();
    assert!(r.is_complete());
    assert_eq!(r.get(0), None);
    let a = Region::new(ivec3(0, 0, 0), 64);
    let b = Region::new(ivec3(512, 0, -512), 64);
    let (ka, kb) = (a.id().0, b.id().0);
    let mut regions = vec![a];
    r.insert_and_rebuild_if_needed(&regions);
    regions.push(b);
    r.insert_and_rebuild_if_needed(&regions);
    assert!(r.is_complete());
    assert_eq!(r.get(ka), Some(0));
    assert_eq!(r.get(kb), Some(1));
    assert_eq!(r.get(u64::MAX), None);
    assert_eq!(r.remove(ka), Some(0));
    assert_eq!(r.get(ka), None);
    assert_eq!(r.remove(ka), None);
    r.set_bucket_index(kb, 0);
    assert_eq!(r.get(kb), Some(0));
}

#[test]
fn world_finds_regions_after_inserts_and_removals() {
    let mut world = World::new(64, -32);
    let mut ids = Vec::new();
    for i in 0..6 {
        for j in 0..6 {
            let id = RegionId::new(ivec2(i * 512 - 1024, j * 512 - 1536));
            world.get_or_insert_region(id);
            ids.push((id, ivec3(i * 512 - 1024, -32, j * 512 - 1536)));
        }
    }
    for (id, origin) in &ids {
        assert!(world.has_region(*id));
        assert_eq!(world.get_region(*id).unwrap().origin(), *origin);
    }
    assert!(!world.has_region(RegionId::new(ivec2(100_000, 0))));
    let gone = [ids[0].0, ids[17].0, ids[35].0];
    for id in gone {
        assert_eq!(world.remove(id).unwrap().id(), id);
        assert!(world.remove(id).is_none());
    }
    for (id, origin) in &ids {
        if gone.contains(id) {
            assert!(!world.has_region(*id));
        } else {
            assert_eq!(world.get_region(*id).unwrap().origin(), *origin);
        }
    }
    world.get_or_insert_region(ids[17].0);
    assert_eq!(world.get_region(ids[17].0).unwrap().origin(), ids[17].1);
}

#[test]
fn resolver_stays_complete_over_many_regions() {
    let mut r = OwnedResolver::new();
    let mut regions = Vec::new();
    for i in 0..40 {
        regions.push(Region::new(ivec3((i % 8) * 512, 0, (i / 8) * 512), 64));
        r.insert_and_rebuild_if_needed(&regions);
        assert!(r.is_complete());
    }
    for (i, region) in regions.iter().enumerate() {
        assert_eq!(r.get(region.id().0), Some(i));
    }
}
