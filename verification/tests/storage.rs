use openvoxel::allocation::MaybeOwnedArray;
use openvoxel::lights::Lights;
use openvoxel::mask::SubchunkMask;
use openvoxel::voxel::Light;

#[test]
fn borrowed_to_owned() {
    let borrowed: Vec<u8> = vec![0, 1, 2, 3, 4, 5, 6, 7];
    let mut arr = MaybeOwnedArray::<u8, 8>::borrowed(borrowed);
    assert_eq!(arr.get_unchecked(4), 4);
    assert!(arr.to_owned_ptr());
    arr.set_unchecked(4, 99);
    assert_eq!(arr.get_unchecked(4), 99);
}

fn collect_ys(mask: SubchunkMask) -> Vec<i32> {
    let mut it = mask.iter();
    let mut v = Vec::new();
    while let Some(y) = it.next() {
        v.push(y);
    }
    v
}

#[test]
fn subchunk_mask_range() {
    let mask = SubchunkMask::between_y_values(0, 256);
    assert_eq!(mask.0.count_ones(), 8, "{:b}", mask.0);
    assert_eq!(mask.0.trailing_zeros(), 32);
    assert_eq!(mask.0.leading_zeros(), 24);
    assert_eq!(collect_ys(mask), vec![0, 32, 64, 96, 128, 160, 192, 224]);

    let mask = SubchunkMask::between_y_values(-32, 96);
    assert_eq!(mask.0.count_ones(), 4, "{:b}", mask.0);
    assert_eq!(mask.0.trailing_zeros(), 31);
    assert_eq!(mask.0.leading_zeros(), 29);
    assert_eq!(collect_ys(mask), vec![-32, 0, 32, 64]);
    assert!(!mask.has(-72));
    assert!(mask.has(-24));
    assert!(mask.has(15));
    assert!(mask.has(40));
    assert!(mask.has(73));
    assert!(!mask.has(98));
}

#[test]
fn subchunk_mask_set_clear() {
    let mut mask = SubchunkMask::empty();
    assert!(mask.set(40));
    assert!(!mask.set(33));
    assert!(mask.get(63));
    assert!(mask.clear(32));
    assert!(!mask.clear(32));
    assert_eq!(mask.0, 0);
    let a = SubchunkMask(0b1100);
    let b = SubchunkMask(0b0110);
    assert_eq!(a.intersection(b).0, 0b0100);
    assert_eq!(a.complement().0, !0b1100u64);
}

#[test]
fn lights_uniform_until_written() {
    let mut lights = Lights::new(Light::ambient_full());
    assert_eq!(lights.get(100), Light::ambient_full());
    assert_eq!(lights.replace(100, Light::new(3, 2, 0, 0)), Light::ambient_full());
    assert_eq!(lights.get(100).intensity, 0x23);
    assert_eq!(lights.get(101), Light::ambient_full());
    lights.fill(Light::zero());
    assert_eq!(lights.get(100), Light::zero());
}

#[test]
fn subchunk_mask_range_reaches_the_top() {
    let mask = SubchunkMask::between_y_values(-1024, 1024);
    assert_eq!(mask.0, u64::MAX);
    let top = SubchunkMask::between_y_values(992, 1024);
    assert_eq!(top.0, 1u64 << 63);
    assert_eq!(SubchunkMask::between_y_values(992, 1000).0, 0);
    assert_eq!(SubchunkMask::between_y_values(1024, 4096).0, 0);
    assert_eq!(SubchunkMask::between_y_values(-5000, -1024).0, 0);
    assert_eq!(SubchunkMask::between_y_values(-5000, -992).0, 1);
}
