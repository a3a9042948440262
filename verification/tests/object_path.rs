use makerpnp::pnp::object_path::{ObjectPath, ObjectPathError};
use makerpnp::planning::pcb::PcbKind;

#[test]
fn pcb_unit() {
    // given
    let object_path = ObjectPath::from_str("panel=1::unit=1::ref_des=R1").expect("always ok");
    // and
    let expected_result = ObjectPath::from_str("panel=1::unit=1").expect("always ok");
    // when
    let result = object_path.pcb_unit();
    // then
    assert_eq!(result, expected_result);
}

#[test]
fn path_text_round_trips() {
    let text = "panel=1::unit=2::ref_des=R1";
    let path = ObjectPath::from_str(text).expect("valid");
    assert_eq!(path.to_string(), text);
    assert_eq!(ObjectPath::from_str(&path.to_string()).expect("valid"), path);
}

#[test]
fn path_without_pair_is_invalid() {
    assert!(matches!(ObjectPath::from_str("panel"), Err(ObjectPathError::Invalid(_))));
}

#[test]
fn set_ref_des_replaces_or_appends() {
    let mut unit = ObjectPath::from_str("panel=1::unit=1").expect("valid");
    unit.set_ref_des("R1".to_string());
    assert_eq!(unit.to_string(), "panel=1::unit=1::ref_des=R1");
    unit.set_ref_des("R2".to_string());
    assert_eq!(unit.to_string(), "panel=1::unit=1::ref_des=R2");
}

#[test]
fn unit_path_and_ref_des() {
    let path = ObjectPath::try_from_unit_path_and_refdes("panel=1::unit=3", &"C7".to_string()).expect("valid");
    assert_eq!(path.to_string(), "panel=1::unit=3::ref_des=C7");
}

#[test]
fn pcb_kind_and_index_of_unit_paths() {
    let panel = ObjectPath::from_str("panel=2::unit=1").expect("valid");
    assert_eq!(panel.pcb_kind_and_index(), Some((PcbKind::Panel, 2)));
    let single = ObjectPath::from_str("Single=+7").expect("valid");
    assert_eq!(single.pcb_kind_and_index(), Some((PcbKind::Single, 7)));
    let other = ObjectPath::from_str("board=1").expect("valid");
    assert_eq!(other.pcb_kind_and_index(), None);
    let bad_index = ObjectPath::from_str("panel=x").expect("valid");
    assert_eq!(bad_index.pcb_kind_and_index(), None);
}

#[test]
fn paths_compare_element_by_element() {
    let a = ObjectPath::from_str("panel=1::unit=1").expect("valid");
    let b = ObjectPath::from_str("panel=1::unit=2").expect("valid");
    assert!(a.compare(&b) == makerpnp::text::Comparison::Less);
    assert!(b.compare(&a) == makerpnp::text::Comparison::Greater);
    assert!(a.equals(&a.copy()));
}
