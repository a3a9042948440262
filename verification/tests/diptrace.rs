use makerpnp::eda::diptrace::csv::{DipTracePcbSide, DipTraceRotationConverter, DiptracePlacementRecord};
use makerpnp::planning::pcb::PcbSide;
use makerpnp::pnp::decimal::DecimalValue;

fn degrees(value: i128, scale: u32) -> DecimalValue {
    DecimalValue::new(value < 0, value.unsigned_abs(), scale)
}

fn converted(value: i128, scale: u32) -> DecimalValue {
    DipTraceRotationConverter::convert(degrees(value, scale))
}

#[test]
fn rotations_are_brought_into_range() {
    assert!(converted(0, 0).equals(&degrees(0, 0)));
    assert!(converted(180, 0).equals(&degrees(180, 0)));
    assert!(converted(-180, 0).equals(&degrees(180, 0)));
    assert!(converted(360, 0).equals(&degrees(0, 0)));
    assert!(converted(185, 0).equals(&degrees(-175, 0)));
    assert!(converted(-185, 0).equals(&degrees(175, 0)));
    assert!(converted(-90, 0).equals(&degrees(-90, 0)));
    assert!(converted(7205, 1).equals(&degrees(5, 1)));
    assert!(converted(-1805, 1).equals(&degrees(1795, 1)));
}

#[test]
fn converting_twice_changes_nothing() {
    for value in [-725, -360, -181, -180, -1, 0, 1, 179, 180, 181, 540, 1000] {
        let once = converted(value, 0);
        let twice = DipTraceRotationConverter::convert(once);
        assert!(once.equals(&twice));
    }
}

#[test]
fn diptrace_record_becomes_a_placement() {
    let record = DiptracePlacementRecord {
        ref_des: "R1".to_string(),
        name: "NAME1".to_string(),
        value: "VALUE1".to_string(),
        side: DipTracePcbSide::Bottom,
        x: degrees(105, 1),
        y: degrees(-2, 0),
        rotation: degrees(270, 0),
    };
    let placement = record.build_eda_placement().unwrap();
    assert_eq!(placement.ref_des, "R1");
    assert!(placement.place);
    assert_eq!(placement.fields[0].name, "name");
    assert_eq!(placement.fields[0].value, "NAME1");
    assert_eq!(placement.fields[1].name, "value");
    assert_eq!(placement.fields[1].value, "VALUE1");
    assert_eq!(placement.pcb_side, PcbSide::Bottom);
    assert!(placement.x.equals(&degrees(105, 1)));
    assert!(placement.rotation.equals(&degrees(-90, 0)));
}

fn decimal_of(value: rust_decimal::Decimal) -> DecimalValue {
    DecimalValue::new(value.is_sign_negative(), value.mantissa().unsigned_abs(), value.scale())
}

#[test]
fn fine_rotations_keep_their_value_where_positive() {
    // 0.5 at scale 28: 360 does not fit at that scale, and the value stays as it is
    let half = degrees(5_000_000_000_000_000_000_000_000_000, 28);
    let r = DipTraceRotationConverter::convert(half);
    assert_eq!(r, half);
}

#[test]
fn fine_negative_rotations_turn_through_rust_decimal() {
    for (value, scale) in [(-5_000_000_000_000_000_000_000_000_000i128, 28u32), (-1, 28), (-79_000_000_000_000_000_000_000_000_000, 27), (-123_456_789, 27)] {
        let input = rust_decimal::Decimal::from_i128_with_scale(value, scale);
        let turned = input + rust_decimal::Decimal::from(360);
        let expected = if turned > rust_decimal::Decimal::from(180) { turned - rust_decimal::Decimal::from(360) } else { turned };
        let r = DipTraceRotationConverter::convert(degrees(value, scale));
        assert!(r.equals(&decimal_of(expected)));
        assert_eq!(r.scale, expected.scale());
    }
    // a tiny negative rotation rounds to a whole turn, which comes back as 0
    assert!(converted(-1, 28).equals(&degrees(0, 0)));
    // -0.5 comes back as -0.5
    assert!(converted(-5_000_000_000_000_000_000_000_000_000, 28).equals(&degrees(-5, 1)));
}
