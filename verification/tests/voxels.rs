use openvoxel::palette::Palette;
use openvoxel::voxels::Voxels;
use openvoxel::words::{Bpi, Words};

#[test]
fn mod_bpi0() {
    let mut palette = Voxels::empty();
    for i in 0..32768 {
        assert_eq!(palette.get(i), 0);
        assert_eq!(palette.replace(i, 0), 0);
    }
    assert_eq!(palette.palette_len(), 1);
}

#[test]
fn mod_bpi4() {
    let mut palette = Voxels::empty();
    for i in 0..32768 {
        assert_eq!(palette.replace(i, (i & 15) as u16), 0);
    }
    for i in 0..32768 {
        assert_eq!(palette.get(i), (i & 15) as u16);
    }
}

#[test]
fn mod_bpi8() {
    let mut palette = Voxels::empty();
    for i in 0..32768 {
        assert_eq!(palette.replace(i, (i & 255) as u16), 0);
    }
    for i in 0..32768 {
        assert_eq!(palette.get(i), (i & 255) as u16);
    }
}

#[test]
fn mod_bpi16() {
    let mut palette = Voxels::empty();
    for i in 0..32768 {
        assert_eq!(palette.replace(i, (i & 4095) as u16), 0);
    }
    for i in 0..32768 {
        assert_eq!(palette.get(i), (i & 4095) as u16);
    }
}

fn init_test_states(len: usize) -> Vec<u16> {
    let mut ret = Vec::with_capacity(len);
    let mut state: u32 = 0x831a_fa11;
    for i in 0..len {
        loop {
            state = state.wrapping_add(0x8acf_7ca1) ^ i as u32;
            let hash = state.wrapping_mul(0x1a8b_7caf);
            let hash = (hash ^ (hash >> 16)) as u16;
            if !ret.contains(&hash) && hash != 0 {
                ret.push(hash);
                break;
            }
        }
    }
    ret
}

fn check_palette(len: usize, cap: usize) {
    let states = init_test_states(len);
    let mut palette = Palette::empty();
    for (i, e) in states.iter().enumerate() {
        let k = palette.insert(*e).unwrap_or_else(|i| i);
        assert_eq!(i + 1, k, "e: {e}");
        assert_eq!(palette.search(*e), Some(k), "e: {e}");
    }
    assert_eq!(palette.capacity(), cap);
    for (i, e) in states.iter().enumerate() {
        let k = palette.search(*e).unwrap();
        assert_eq!(i + 1, k, "e: {e}");
    }
}

#[test]
fn palette_bpi4() {
    check_palette(15, 16);
}

#[test]
fn palette_bpi8() {
    check_palette(127, 128);
}

#[test]
fn palette_bpi16() {
    check_palette(511, 512);
}

fn test_at_index(words: &mut Words, index: usize, prev: u64, new: u64) {
    assert_eq!(words.get(index), prev);
    assert_eq!(words.replace(index, new), prev);
    assert_eq!(words.get(index), new);
}

#[test]
fn words_bpi0() {
    let mut words = Words::empty();
    assert_eq!(words.get(771), 0);
    words.set(771, 0);
    assert_eq!(words.replace(771, 0), 0);
    assert_eq!(words.get(771), 0);
}

#[test]
fn words_bpi4() {
    let mut words = Words::from_bpi(Bpi::bpi4());
    test_at_index(&mut words, 771, 0, 4);
    test_at_index(&mut words, 27819, 0, 7);
    test_at_index(&mut words, 994, 0, 2);
    test_at_index(&mut words, 0, 0, 4);
    test_at_index(&mut words, 32767, 0, 1);
    test_at_index(&mut words, 994, 2, 11);
    test_at_index(&mut words, 994, 11, 4);
    test_at_index(&mut words, 27819, 7, 15);
    test_at_index(&mut words, 771, 4, 14);
    test_at_index(&mut words, 771, 14, 9);
}

#[test]
fn words_bpi8() {
    let mut words = Words::from_bpi(Bpi::bpi8());
    test_at_index(&mut words, 771, 0, 64);
    test_at_index(&mut words, 27819, 0, 99);
    test_at_index(&mut words, 994, 0, 81);
    test_at_index(&mut words, 0, 0, 71);
    test_at_index(&mut words, 32767, 0, 1);
    test_at_index(&mut words, 994, 81, 199);
    test_at_index(&mut words, 994, 199, 251);
    test_at_index(&mut words, 27819, 99, 0);
    test_at_index(&mut words, 27819, 0, 127);
    test_at_index(&mut words, 771, 64, 231);
    test_at_index(&mut words, 771, 231, 35);
}

#[test]
fn words_bpi16() {
    let mut words = Words::from_bpi(Bpi::bpi16());
    test_at_index(&mut words, 771, 0, 640);
    test_at_index(&mut words, 27819, 0, 990);
    test_at_index(&mut words, 994, 0, 810);
    test_at_index(&mut words, 0, 0, 710);
    test_at_index(&mut words, 32767, 0, 10);
    test_at_index(&mut words, 994, 810, 1990);
    test_at_index(&mut words, 994, 1990, 2510);
    test_at_index(&mut words, 27819, 990, 0);
    test_at_index(&mut words, 27819, 0, 1270);
    test_at_index(&mut words, 771, 640, 2310);
    test_at_index(&mut words, 771, 2310, 350);
}

#[test]
fn bpi_progressive() {
    let mut words = Words::empty();
    test_at_index(&mut words, 771, 0, 0);

    words.grow_bpi0_to_bpi4();
    test_at_index(&mut words, 771, 0, 15);
    test_at_index(&mut words, 27819, 0, 12);
    test_at_index(&mut words, 995, 0, 4);
    test_at_index(&mut words, 0, 0, 2);
    test_at_index(&mut words, 32767, 0, 9);

    words.grow_bpi4_to_bpi8();
    test_at_index(&mut words, 771, 15, 251);
    test_at_index(&mut words, 27819, 12, 127);
    test_at_index(&mut words, 995, 4, 49);
    test_at_index(&mut words, 0, 2, 77);
    test_at_index(&mut words, 32767, 9, 201);

    words.grow_bpi8_to_bpi16();
    test_at_index(&mut words, 771, 251, 994);
    test_at_index(&mut words, 27819, 127, 65535);
    test_at_index(&mut words, 995, 49, 9411);
    test_at_index(&mut words, 0, 77, 23441);
    test_at_index(&mut words, 32767, 201, 1);
    test_at_index(&mut words, 771, 994, 61131);
    test_at_index(&mut words, 27819, 65535, 9);
    test_at_index(&mut words, 995, 9411, 4191);
    test_at_index(&mut words, 0, 23441, 1022);
    test_at_index(&mut words, 32767, 1, 90);
}

#[test]
fn voxels_palette_grows_bpi() {
    let mut v = Voxels::empty();
    assert_eq!(v.bpi(), 0);
    assert!(v.is_empty());
    v.set(5, 7);
    assert_eq!(v.bpi(), 4);
    assert!(!v.is_empty());
    assert_eq!(v.get(5), 7);
    assert_eq!(v.palette_len(), 2);
    v.set_empty();
    assert_eq!(v.get(5), 0);
    assert_eq!(v.bpi(), 0);
}
