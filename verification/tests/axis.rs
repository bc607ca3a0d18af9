use openvoxel::axis::{Axis, AxisArray, AxisExt, AxisMask, AxisMaskExt};
use openvoxel::space::ivec3;

fn collect(mask: AxisMask) -> Vec<Axis> {
    let mut it = mask.iter();
    let mut v = Vec::new();
    while let Some(a) = it.next() {
        v.push(a);
    }
    v
}

#[test]
fn axis_invert_abs_next() {
    assert_eq!(Axis::PosX.invert(), Axis::NegX);
    assert_eq!(Axis::NegY.invert(), Axis::PosY);
    assert_eq!(Axis::NegZ.abs(), Axis::PosZ);
    assert_eq!(Axis::PosY.abs(), Axis::PosY);
    assert_eq!(Axis::NegZ.next(), Axis::PosX);
    assert_eq!(Axis::PosX.next(), Axis::NegX);
    for a in Axis::all() {
        assert_eq!(a.invert().invert(), a);
    }
}

#[test]
fn axis_u8_conversions() {
    assert_eq!(Axis::try_from_u8(0), Some(Axis::PosX));
    assert_eq!(Axis::try_from_u8(5), Some(Axis::NegZ));
    assert_eq!(Axis::try_from_u8(6), None);
    assert_eq!(Axis::PosZ.as_u8(), 4);
}

#[test]
fn axis_names_roundtrip() {
    assert_eq!(Axis::PosX.as_str(), "+x");
    assert_eq!(Axis::NegZ.as_dir_str(), "south");
    for a in Axis::all() {
        assert_eq!(Axis::from_str(a.as_str()), Some(a));
        assert_eq!(Axis::from_str(a.as_dir_str()), Some(a));
    }
    assert_eq!(Axis::from_str("sideways"), None);
}

#[test]
fn axis_vectors() {
    assert_eq!(Axis::NegY.as_ivec3(), ivec3(0, -1, 0));
    assert_eq!(Axis::PosZ.as_i8vec3(), [0, 0, 127]);
    assert_eq!(Axis::NegX.add(ivec3(5, 5, 5)), ivec3(4, 5, 5));
}

#[test]
fn axis_mask_constants_follow_their_docs() {
    assert_eq!(collect(AxisMask::positive()), vec![Axis::PosX, Axis::PosY, Axis::PosZ]);
    assert_eq!(collect(AxisMask::negative()), vec![Axis::NegX, Axis::NegY, Axis::NegZ]);
    assert_eq!(collect(AxisMask::x()), vec![Axis::PosX, Axis::NegX]);
    assert_eq!(collect(AxisMask::z()), vec![Axis::PosZ, Axis::NegZ]);
    assert_eq!(
        collect(AxisMask::horizontal()),
        vec![Axis::PosX, Axis::NegX, Axis::PosZ, Axis::NegZ]
    );
    assert_eq!(collect(AxisMask::vertical()), vec![Axis::PosY, Axis::NegY]);
}

#[test]
fn axis_mask_operations() {
    let m = AxisMask::empty().bitor_axis(Axis::PosY).bitor_axis(Axis::NegZ);
    assert!(m.has(Axis::PosY));
    assert!(!m.has(Axis::PosX));
    assert_eq!(m.count_ones(), 2);
    assert_eq!(m.count_zeros(), 4);
    assert!(!m.is_empty());
    assert!(AxisMask::empty().is_empty());
    assert!(AxisMask::full().is_all_set());
    assert_eq!(m.not().count_ones(), 4);
    assert_eq!(m.bitand(AxisMask::y()), AxisMask::empty().bitor_axis(Axis::PosY));
    assert_eq!(m.bitxor_axis(Axis::PosY), AxisMask::empty().bitor_axis(Axis::NegZ));
    let mut k = m;
    k.bitor_assign(AxisMask::x());
    assert_eq!(k.count_ones(), 4);
    k.bitand_assign_axis(Axis::NegX);
    assert_eq!(collect(k), vec![Axis::NegX]);
}

#[test]
fn axis_array_access_and_map() {
    let mut arr = AxisArray::new([1, 2, 3, 4, 5, 6]);
    assert_eq!(*arr.index(Axis::PosZ), 5);
    *arr.index_mut(Axis::NegX) = 20;
    assert_eq!(arr.to_array(), [1, 20, 3, 4, 5, 6]);
    let doubled = arr.map(|_a: Axis, v: i32| v * 2);
    assert_eq!(doubled.as_slice(), &[2, 40, 6, 8, 10, 12]);
    let named = AxisArray::from_fn(|a: Axis| a.as_u8());
    assert_eq!(named.to_vec(), vec![0, 1, 2, 3, 4, 5]);
    let picked = arr.values_in(AxisMask::y());
    assert_eq!(picked, vec![&3, &4]);
    assert_eq!(arr.iter().len(), 6);
}

#[test]
fn axis_ext_names() {
    assert_eq!(AxisExt::PosXNegZ.as_str(), "+x,-z");
    assert_eq!(AxisExt::PosYNegZ.as_dir_str(), "south-up");
    assert_eq!(AxisExt::NegXPosZ.as_dir_str(), "north-west");
    assert_eq!(AxisExt::from_str("-z,+x"), Some(AxisExt::PosXNegZ));
    assert_eq!(AxisExt::from_str("+x,-z"), Some(AxisExt::PosXNegZ));
    assert_eq!(AxisExt::from_str("up"), Some(AxisExt::PosY));
    // Two directions share this cardinal name; the later one holds it.
    assert_eq!(AxisExt::from_str("south-west"), Some(AxisExt::PosXNegZ));
    assert_eq!(AxisExt::from_str("nowhere"), None);
    assert_eq!(
        AxisExt::try_from("nowhere"),
        Err("Cannot convert axis string 'nowhere' to AxisExt.".to_string())
    );
    assert_eq!(AxisExt::PosXPosY.invert(), AxisExt::NegXNegY);
    assert_eq!(AxisExt::from_u8(18), None);
    assert_eq!(AxisExt::from_axis(Axis::NegY), AxisExt::NegY);
}

#[test]
fn axis_mask_ext_from_names() {
    let names = vec!["+x".to_string(), "south-up".to_string()];
    let mask = AxisMaskExt::from_names(&names).unwrap();
    assert!(mask.has(AxisExt::PosX));
    assert!(mask.has(AxisExt::PosYNegZ));
    assert!(!mask.has(AxisExt::NegX));
    let bad = vec!["+x".to_string(), "left".to_string()];
    assert_eq!(
        AxisMaskExt::from_names(&bad),
        Err("Cannot convert axis string 'left' to AxisExt.".to_string())
    );
    let one = AxisMaskExt::from_name("down").unwrap();
    assert!(one.has(AxisExt::NegY));
    let mut m = AxisMaskExt::full();
    assert!(!m.has(AxisExt::NegYPosZ));
    m.flip(AxisExt::NegYPosZ);
    assert!(m.has(AxisExt::NegYPosZ));
    m.set_zero(AxisExt::PosX);
    assert!(!m.has(AxisExt::PosX));
    m.clear();
    assert_eq!(m, AxisMaskExt::empty());
}
