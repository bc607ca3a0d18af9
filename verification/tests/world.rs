use openvoxel::format::{ChunkFormat, ChunkReadError, UnzippedChunk};
use openvoxel::rng::BitRng;
use openvoxel::shared::bytes_as_slice;
use openvoxel::zip::{Algorithm, ZipLevel, Zipper, ZstdZipper};
use openvoxel::region::RegionId;
use openvoxel::space::{ivec2, ivec3, IVec3};
use openvoxel::voxel::Voxel;
use openvoxel::world::{Region, World};

#[test]
fn get_region() {
    let mut world = World::new(256, -128);
    world.get_or_insert_region(RegionId::new(ivec2(64, 64)));
    assert_eq!(
        world.get_region(RegionId::new(ivec2(64, 64))).unwrap().origin(),
        ivec3(0, -128, 0)
    );
    assert_eq!(
        world.get_region_mut(RegionId::new(ivec2(64, 64))).unwrap().origin(),
        ivec3(0, -128, 0)
    );
}

#[test]
fn get_chunk() {
    let mut world = World::new(256, -128);
    world.get_or_insert_region(RegionId::new(ivec2(64, 64)));
    assert_eq!(world.get_chunk(ivec2(64, 64)).unwrap().origin(), ivec3(64, -128, 64));
    assert_eq!(world.get_chunk_mut(ivec2(64, 64)).unwrap().origin(), ivec3(64, -128, 64));
}

#[test]
fn region() {
    let mut region = Region::new(ivec3(0, 0, 0), 512);
    let pos = ivec3(31, 492, 78);
    assert!(region.set_voxel(pos, Voxel(88)));
    assert_eq!(region.get_voxel(pos), Some(Voxel(88)));
    assert_eq!(region.replace_voxel(pos, Voxel(99)), Some(Voxel(88)));
}

#[test]
fn iter_subchunks_in_chunk() {
    let mut origin = ivec3(416, -32, 384);
    let region = Region::new(origin, 128);
    for subchunk in region.get_chunk(origin.xz()).unwrap().subchunks() {
        assert_eq!(subchunk.origin(), origin);
        assert!(origin.y < 96);
        origin.y += 32;
    }
    assert_eq!(origin.y, 96);
}

#[test]
fn validate_subchunk_origins() {
    let origin = IVec3 { x: -1024, y: -128, z: 512 };
    let region = Region::new(origin, 384);
    for y in (-128..256).step_by(32) {
        for z in (512..1024).step_by(32) {
            for x in (-1024..-512).step_by(32) {
                let pt = ivec3(x, y, z);
                let subchunk = region
                    .get_subchunk(pt)
                    .unwrap_or_else(|| panic!("Failed to get subchunk at point: {:?}", pt));
                assert_eq!(pt, subchunk.origin());
            }
        }
    }
}

#[test]
fn world_set_get_voxel_and_bounds() {
    let mut world = World::new(96, -32);
    let pos = ivec3(70, 10, -5);
    assert!(!world.set_voxel(pos, Voxel(3)));
    assert_eq!(world.get_voxel(pos), None);
    world.get_or_insert_region(RegionId::new(ivec2(70, -5)));
    assert_eq!(world.get_voxel(pos), Some(Voxel(0)));
    assert!(world.set_voxel(pos, Voxel(3)));
    assert_eq!(world.get_voxel(pos), Some(Voxel(3)));
    assert_eq!(world.get_voxel(ivec3(71, 10, -5)), Some(Voxel(0)));
    assert_eq!(world.get_voxel(ivec3(70, 96, -5)), None);
    assert_eq!(world.replace_voxel(pos, Voxel(4)), Some(Voxel(3)));
    assert!(world.has_region(RegionId::new(ivec2(0, -512))));
    assert!(world.remove(RegionId::new(ivec2(0, -512))).is_some());
    assert!(!world.has_region(RegionId::new(ivec2(0, -512))));
    assert_eq!(world.get_voxel(pos), None);
}

#[test]
fn region_id_roundtrip() {
    let id = RegionId::new(ivec2(-513, 1000));
    assert_eq!(id.x(), -1024);
    assert_eq!(id.z(), 512);
    assert_eq!(RegionId::new(id.as_ivec2()), id);
}

fn assert_chunks_eq(w1: &World, w2: &World, origin: IVec3) {
    let c1 = w1.get_chunk(ivec2(origin.x, origin.z)).unwrap();
    let c2 = w2.get_chunk(ivec2(origin.x, origin.z)).unwrap();
    for y in 0..128 {
        for z in 0..32 {
            for x in 0..32 {
                let pos = ivec3(origin.x + x, origin.y + y, origin.z + z);
                assert_eq!(c1.get_voxel(pos), c2.get_voxel(pos));
            }
        }
    }
}

fn zip_unzip_roundtrip(alg: Algorithm) {
    // only zstd-zipped chunks are read back: lz4 data is written as frames
    // height is equal to 128
    let mut w1 = World::new(96, -32);
    let mut w2 = World::new(96, -32);

    let origin = ivec3(64, -32, 64);
    let mut rng = BitRng::from_entropy();

    // initialize region in world1 and world2
    w1.get_or_insert_region(RegionId::new(ivec2(origin.x, origin.z)));
    w2.get_or_insert_region(RegionId::new(ivec2(origin.x, origin.z)));

    // fill chunk with some random data
    for _ in 0..32768 {
        let voxel = Voxel(rng.take(4) as u16);
        let pt = IVec3 {
            x: origin.x + rng.take(5) as i32,
            z: origin.z + rng.take(5) as i32,
            y: origin.y + rng.take(7) as i32,
        };
        w1.set_voxel(pt, voxel);
    }

    // zip chunk in world1 to bytes
    let data = w1.get_chunk(ivec2(origin.x, origin.z)).unwrap().zip(alg, ZipLevel::default());

    // unzip to span, then read into world2 at same chunk.
    let span = UnzippedChunk::unzip(bytes_as_slice(&data.0)).unwrap();
    let success = w2.read_unzipped_chunk(span, false).unwrap();
    assert_eq!(success.origin, origin);
    assert_eq!(success.format, ChunkFormat::V1);

    // check that both w1 and w2 are equal to each other.
    assert_chunks_eq(&w1, &w2, origin);
}

#[test]
fn zip_unzip_chunk_zstd() {
    zip_unzip_roundtrip(Algorithm::Zstd);
}

#[test]
fn zip_chunk_lz4_header() {
    let mut w = World::new(96, -32);
    w.get_or_insert_region(RegionId::new(ivec2(64, 64)));
    w.set_voxel(ivec3(70, 0, 70), Voxel(5));
    let data = w.get_chunk(ivec2(64, 64)).unwrap().zip(Algorithm::Lz4, ZipLevel::default());
    let bytes = bytes_as_slice(&data.0);
    // the algorithm id follows the unzipped size
    assert_eq!(&bytes[4..8], &[1, 0, 0, 0]);
    let zstd = w.get_chunk(ivec2(64, 64)).unwrap().zip(Algorithm::Zstd, ZipLevel::default());
    // both record the same unzipped size
    assert_eq!(&bytes[0..4], &bytes_as_slice(&zstd.0)[0..4]);
}

#[test]
fn unzip_garbage_is_error() {
    assert!(UnzippedChunk::unzip(&[1, 2, 3, 4, 5]).is_err());
}

#[test]
fn read_short_span_is_eoi() {
    let mut w = World::new(96, -32);
    let span = UnzippedChunk::unzip(&empty_zstd_frame()).unwrap();
    match w.read_unzipped_chunk(span, false) {
        Err(ChunkReadError::UnexpectedEoi { requested, available }) => {
            assert_eq!(requested, 32);
            assert_eq!(available, 0);
        }
        _ => panic!("expected an end-of-input error"),
    }
}

fn empty_zstd_frame() -> Vec<u8> {
    let mut z = ZstdZipper::init(Vec::new(), ZipLevel::default());
    z.put(&[]);
    z.finish()
}

#[test]
fn read_chunk_outside_world_is_refused() {
    // a chunk of a world whose region is missing, read without loading regions
    let mut w1 = World::new(96, -32);
    w1.get_or_insert_region(RegionId::new(ivec2(64, 64)));
    w1.set_voxel(ivec3(70, 0, 70), Voxel(5));
    let data = w1.get_chunk(ivec2(64, 64)).unwrap().zip(Algorithm::Zstd, ZipLevel::default());
    let span = UnzippedChunk::unzip(bytes_as_slice(&data.0)).unwrap();
    let mut w2 = World::new(96, -32);
    assert!(w2.read_unzipped_chunk(span, false).is_err());
}

#[test]
fn world_get_subchunk_mut_edits_in_place() {
    let mut world = World::new(96, -32);
    let pos = ivec3(70, 40, -5);
    assert!(world.get_subchunk_mut(pos).is_none());
    world.get_or_insert_region(RegionId::new(ivec2(70, -5)));
    assert!(world.get_subchunk_mut(ivec3(70, 96, -5)).is_none());
    let sub = world.get_subchunk_mut(pos).unwrap();
    assert_eq!(sub.origin(), ivec3(64, 32, -32));
    sub.set_voxel(pos, Voxel(7));
    assert_eq!(world.get_voxel(pos), Some(Voxel(7)));
    assert_eq!(world.get_voxel(ivec3(71, 40, -5)), Some(Voxel(0)));
}
