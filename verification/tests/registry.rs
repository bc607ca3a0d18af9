use openvoxel::registry::{Registry, RegistryId};

#[derive(Copy, Clone, Eq, PartialEq, Debug)]
struct Thing(u64);

#[test]
fn make_compliant() {
    let mut reg1 = Registry::<Thing>::new();
    reg1.insert("thing0", Thing(0));
    reg1.insert("thing1", Thing(1));
    reg1.insert("thing2", Thing(2));
    reg1.insert("thing3", Thing(3));
    reg1.insert("thing4", Thing(4));

    let mut reg2 = Registry::<Thing>::new();
    reg2.insert("thing4", Thing(4));
    reg2.insert("thing2", Thing(2));
    reg2.insert("thing3", Thing(3));
    reg2.insert("thing1", Thing(1));
    reg2.insert("thing0", Thing(0));

    let names1 = reg1.get_names();
    reg2.make_compliant(&names1).unwrap();

    for (e1, e2) in reg1.entries().iter().zip(reg2.entries().iter()) {
        assert_eq!(e1.name, e2.name);
        assert_eq!(e1.item, e2.item);
        assert_eq!(e1.id, e2.id);
    }
}

#[test]
#[should_panic]
fn make_compliant_fail_on_mismatch() {
    let mut reg1 = Registry::<Thing>::new();
    reg1.insert("thing0", Thing(0));
    reg1.insert("thing1", Thing(1));
    reg1.insert("thing2", Thing(2));
    reg1.insert("thing3", Thing(3));
    reg1.insert("thing4", Thing(4));

    // reg2 does not have thing3
    let mut reg2 = Registry::<Thing>::new();
    reg2.insert("thing4", Thing(4));
    reg2.insert("thing2", Thing(2));
    reg2.insert("thing0", Thing(0));
    reg2.insert("thing1", Thing(1));

    let names1 = reg1.get_names();
    reg2.make_compliant(&names1).unwrap();
}

#[test]
fn make_compliant_keeps_local_extras_after() {
    let mut reg = Registry::<Thing>::new();
    reg.insert("a", Thing(1));
    reg.insert("b", Thing(2));
    reg.insert("c", Thing(3));
    reg.make_compliant(&vec!["c".to_string(), "a".to_string()]).unwrap();
    let names = reg.get_names();
    assert_eq!(names, vec!["c".to_string(), "a".to_string(), "b".to_string()]);
    assert_eq!(reg.get(RegistryId(2)).unwrap().item, Thing(2));
    assert_eq!(reg.resolve("a"), Some(RegistryId(1)));
}

#[test]
fn make_compliant_reports_errors() {
    let mut reg = Registry::<Thing>::new();
    reg.insert("a", Thing(1));
    let err = reg
        .make_compliant(&vec!["a".to_string(), "x".to_string(), "a".to_string(), "x".to_string()])
        .unwrap_err();
    assert_eq!(err.mismatches, vec!["x".to_string()]);
    assert_eq!(err.duplicates, vec!["a".to_string()]);
    assert_eq!(reg.get_names(), vec!["a".to_string()]);
}

#[test]
fn registry_insert_overwrites_by_name() {
    let mut reg = Registry::<Thing>::new();
    assert_eq!(reg.insert("a", Thing(1)), RegistryId(0));
    assert_eq!(reg.insert("b", Thing(2)), RegistryId(1));
    assert_eq!(reg.insert("a", Thing(9)), RegistryId(0));
    assert_eq!(reg.get_by_name("a").unwrap().item, Thing(9));
    assert!(matches!(reg.insert_nonoverwriting("a", Thing(5)), Err(Thing(5))));
    assert_eq!(reg.insert_nonoverwriting("c", Thing(3)).ok(), Some(RegistryId(2)));
    assert!(reg.get(RegistryId(3)).is_none());
    assert!(reg.resolve("zzz").is_none());
}

#[test]
fn make_compliant_renumbers_ids() {
    let mut reg = Registry::<Thing>::new();
    reg.insert("thing4", Thing(4));
    reg.insert("thing2", Thing(2));
    reg.insert("thing3", Thing(3));
    reg.insert("thing1", Thing(1));
    reg.insert("thing0", Thing(0));
    let to: Vec<String> = (0..5).map(|k| format!("thing{k}")).collect();
    assert!(reg.make_compliant(&to).is_ok());
    assert_eq!(reg.get_names(), to);
    for k in 0..5usize {
        let e = reg.get(RegistryId(k)).unwrap();
        assert_eq!(e.item, Thing(k as u64));
        assert_eq!(e.id, RegistryId(k));
        assert_eq!(reg.resolve(&format!("thing{k}")), Some(RegistryId(k)));
    }
}

#[test]
fn registry_iter_gives_items_in_order() {
    let mut reg = Registry::<Thing>::new();
    reg.insert("b", Thing(2));
    reg.insert("a", Thing(1));
    let items: Vec<Thing> = reg.iter().into_iter().copied().collect();
    assert_eq!(items, vec![Thing(2), Thing(1)]);
}

#[test]
fn registry_get_mut_changes_the_item() {
    let mut reg = Registry::<Thing>::new();
    reg.insert("a", Thing(1));
    reg.get_mut(RegistryId(0)).unwrap().item = Thing(9);
    assert_eq!(reg.get(RegistryId(0)).unwrap().item, Thing(9));
    assert!(reg.get_mut(RegistryId(1)).is_none());
    assert_eq!(reg.resolve("a"), Some(RegistryId(0)));
}
