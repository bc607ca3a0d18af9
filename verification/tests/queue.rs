use openvoxel::queue::{LinearQueue, RepetitionPriorityQueue};
use openvoxel::table::IndexSet;

#[test]
fn linear_queue_is_first_in_first_out() {
    let mut q: LinearQueue<u32> = LinearQueue::default();
    assert_eq!(q.len(), 0);
    q.add(1);
    q.add(2);
    q.add(3);
    assert_eq!(q.len(), 3);
    assert_eq!(q.pop(), Some(1));
    assert_eq!(q.pop(), Some(2));
    q.add(4);
    assert_eq!(q.pop(), Some(3));
    assert_eq!(q.pop(), Some(4));
    assert_eq!(q.pop(), None);
    assert_eq!(q.len(), 0);
}

#[test]
fn repetition_queue_pops_highest_priority() {
    let mut q = RepetitionPriorityQueue::default();
    assert!(!q.push_with_priority(10, 5));
    assert!(!q.push_with_priority(20, 8));
    assert!(!q.push_with_priority(30, 2));
    assert_eq!(q.len(), 3);
    assert_eq!(q.pop(), Some(20));
    assert_eq!(q.pop(), Some(10));
    assert_eq!(q.pop(), Some(30));
    assert_eq!(q.pop(), None);
}

#[test]
fn repetition_queue_repeated_push_keeps_one_item() {
    let mut q = RepetitionPriorityQueue::new();
    assert!(!q.push(7));
    assert!(q.push(7));
    assert!(q.push(7));
    assert_eq!(q.len(), 1);
    // raising the priority moves the item ahead of others
    assert!(!q.push_with_priority(8, 3));
    assert!(q.push_with_priority(7, 9));
    assert_eq!(q.pop(), Some(7));
    // a lower priority leaves the item's priority as it is
    assert!(!q.push_with_priority(9, 2));
    assert!(q.push_with_priority(8, 1));
    assert_eq!(q.pop(), Some(8));
    assert_eq!(q.pop(), Some(9));
}

#[test]
fn repetition_queue_extract_if() {
    let mut q = RepetitionPriorityQueue::new();
    for i in 0..10u64 {
        q.push_with_priority(i, i * 10);
    }
    let mut evens = q.extract_if(|item, _| item % 2 == 0);
    evens.sort();
    assert_eq!(evens, vec![0, 2, 4, 6, 8]);
    assert_eq!(q.len(), 5);
    assert_eq!(q.pop(), Some(9));
    let mut high = q.extract_if(|_, prio| prio >= 50);
    high.sort();
    assert_eq!(high, vec![5, 7]);
    assert_eq!(q.pop(), Some(3));
    assert_eq!(q.pop(), Some(1));
    assert_eq!(q.pop(), None);
}

#[test]
fn index_set_starts_empty() {
    let set: IndexSet<u16> = IndexSet::new_in();
    assert!(!set.contains(0));
    assert!(!set.contains(5));
    // the empty marker always reads as present
    assert!(set.contains(u16::MAX));
    let big: IndexSet<u32> = IndexSet::with_capacity_in(100);
    assert!(!big.contains(3));
    assert!(!big.contains(1000));
    assert!(big.contains(u32::MAX));
}
