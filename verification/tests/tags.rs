use openvoxel::tags::{FixedTagSet, Tag, TagSet, NULL_TAG};

const TAGS: [Tag; 7] = [Tag(6), Tag(4), Tag(5), Tag(2), Tag(3), Tag(1), Tag(0)];

fn null() -> Tag {
    Tag(NULL_TAG)
}

#[test]
fn insert_remove() {
    let mut set = FixedTagSet::<8>::new();
    for tag in TAGS {
        assert_eq!(set.insert(tag), None);
    }
    let expectation = [Tag(0), Tag(1), Tag(2), Tag(3), Tag(4), Tag(5), Tag(6), null()];
    assert_eq!(set.as_array(), expectation);

    for tag in TAGS {
        assert!(set.remove(tag));
    }
    assert_eq!(set.as_array(), [null(); 8]);
}

#[test]
fn iter() {
    let tags: [Tag; 7] = core::array::from_fn(|i| Tag(i as u16));
    let set = FixedTagSet::<8>::from_slice(&tags);
    let mut it = set.iter();
    let mut i = 0;
    while let Some(tag2) = it.next() {
        assert_eq!(tags[i], tag2);
        i += 1;
    }
    assert_eq!(i, 7);
}

#[test]
fn contains() {
    let set = FixedTagSet::<8>::from_slice(&TAGS);
    for tag in TAGS {
        assert!(set.contains(tag));
    }
}

#[test]
fn intersects() {
    // shared index 3 and 0
    let set1 = FixedTagSet::<5>::from_slice(&[Tag(0), Tag(1), Tag(2), Tag(3)]);
    let set2 = FixedTagSet::<4>::from_slice(&[Tag(3), Tag(7)]);
    assert!(set1.intersects(&set2.as_slice()));
    assert!(set2.intersects(&set1.as_slice()));

    // shared index 0 and 1
    let set1 = FixedTagSet::<4>::from_slice(&[Tag(8), Tag(16), Tag(32), null()]);
    let set2 = FixedTagSet::<4>::from_slice(&[Tag(0), Tag(8), null(), null()]);
    assert!(set1.intersects(&set2.as_slice()));
    assert!(set2.intersects(&set1.as_slice()));

    // shared index 1 and 2
    let set1 = FixedTagSet::<4>::from_slice(&[Tag(8), Tag(16), Tag(32), null()]);
    let set2 = FixedTagSet::<4>::from_slice(&[Tag(0), Tag(9), Tag(16), null()]);
    assert!(set1.intersects(&set2.as_slice()));
    assert!(set2.intersects(&set1.as_slice()));

    // no shared indices
    let set1 = FixedTagSet::<4>::from_slice(&[Tag(8), Tag(16), Tag(32), null()]);
    let set2 = FixedTagSet::<4>::from_slice(&[Tag(9), Tag(17), Tag(33), null()]);
    assert!(!set1.intersects(&set2.as_slice()));
    assert!(!set2.intersects(&set1.as_slice()));

    // Both sets null
    let set1 = FixedTagSet::<4>::new();
    let set2 = FixedTagSet::<4>::new();
    assert!(!set1.intersects(&set2.as_slice()));
    assert!(!set2.intersects(&set1.as_slice()));

    // shared index same, 2
    let set1 = FixedTagSet::<4>::from_slice(&[Tag(8), Tag(16), Tag(32), null()]);
    let set2 = FixedTagSet::<4>::from_slice(&[Tag(0), Tag(9), Tag(32), null()]);
    assert!(set1.intersects(&set2.as_slice()));
    assert!(set2.intersects(&set1.as_slice()));
}

#[test]
fn tag_set_insert_contains_remove() {
    let mut set = TagSet::new();
    assert!(!set.insert(Tag(5)));
    assert!(!set.insert(Tag(2)));
    assert!(set.insert(Tag(5)));
    assert!(!set.insert(Tag(NULL_TAG)));
    assert!(set.contains(Tag(2)));
    assert!(set.contains(Tag(5)));
    assert!(!set.contains(Tag(3)));
    assert!(set.remove(Tag(5)));
    assert!(!set.remove(Tag(5)));
    assert!(!set.contains(Tag(5)));
}

#[test]
fn fixed_tag_set_full_insert_evicts_largest() {
    let mut set = FixedTagSet::<3>::new();
    assert_eq!(set.insert(Tag(9)), None);
    assert_eq!(set.insert(Tag(4)), None);
    assert_eq!(set.len(), 2);
    assert!(set.contains(Tag(4)));
    assert!(set.contains(Tag(9)));
}

#[test]
fn tag_set_contains_null_and_what_it_yields() {
    let mut set = TagSet::new();
    assert!(set.contains(null()));
    set.insert(Tag(9));
    set.insert(Tag(3));
    assert!(set.contains(null()));
    let mut it = set.iter();
    let mut seen = Vec::new();
    while let Some(t) = it.next() {
        seen.push(t);
    }
    assert_eq!(seen, vec![Tag(3), Tag(9)]);
    for v in 0..12u16 {
        assert_eq!(set.contains(Tag(v)), seen.contains(&Tag(v)));
    }
}

#[test]
fn fixed_tag_set_len_counts_slots_and_iteration() {
    let mut set = FixedTagSet::<4>::new();
    assert_eq!(set.len(), 0);
    set.insert(Tag(7));
    set.insert(Tag(2));
    let mut it = set.iter();
    let mut n = 0;
    while it.next().is_some() {
        n += 1;
    }
    assert_eq!(set.len(), 2);
    assert_eq!(n, 2);
    assert_eq!(set.as_array().iter().filter(|t| t.0 != NULL_TAG).count(), 2);
    assert_eq!(set.insert(Tag(5)), None);
    assert_eq!(set.len(), 3);
    // full: the largest of the old tags and the new one is dropped
    assert_eq!(set.insert(Tag(1)), Some(Tag(7)));
    assert_eq!(set.as_array(), [Tag(1), Tag(2), Tag(5), null()]);
    assert_eq!(set.insert(Tag(8)), None);
    assert_eq!(set.as_array(), [Tag(1), Tag(2), Tag(5), null()]);
}
