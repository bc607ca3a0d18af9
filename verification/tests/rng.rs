use openvoxel::rng::{BitRng, Permutation};

#[test]
fn permutation_from_seed_is_the_seeded_shuffle() {
    let a = Permutation::from_seed(7);
    let b = Permutation::shuffled(BitRng::seed_from_u64(7));
    let c = Permutation::from_seed(8);
    let mut differs = false;
    for i in 0..512 {
        assert_eq!(a.index(i), b.index(i));
        differs |= a.index(i) != c.index(i);
    }
    assert!(differs);
    for i in 0..256 {
        assert_eq!(a.index(i), a.index(i + 256));
    }
}

#[test]
fn equal_seeds_take_equal_numbers() {
    let counts = [3u32, 17, 63, 1, 40, 0, 25, 63, 8];
    let mut a = BitRng::new(12345);
    let mut b = BitRng::new(12345);
    for c in counts {
        assert_eq!(a.take(c), b.take(c));
    }
}
