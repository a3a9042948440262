use makerpnp::eda::criteria::FieldCriterion;
use makerpnp::loaders::csv::{CSVEdaToolValue, LoadOutItemRecord, PartMappingRecord, PartRecord, SubstitutionRecord};
use makerpnp::loaders::load_out::{load_items, store_items};
use makerpnp::loaders::part_mappings::load_part_mappings;
use makerpnp::loaders::parts::load_parts;
use makerpnp::loaders::substitutions::load_eda_substitutions;
use makerpnp::pattern::Pattern;
use makerpnp::planning::pcb::PcbKind;
use makerpnp::pnp::part::Part;

fn pairs(fields: &[(&str, &str)]) -> Vec<(String, String)> {
    fields.iter().map(|(k, v)| (k.to_string(), v.to_string())).collect()
}

#[test]
fn pcb_kind_names_ignore_case() {
    assert_eq!(PcbKind::try_from(&"PANEL".to_string()), Ok(PcbKind::Panel));
    assert_eq!(PcbKind::try_from(&"Single".to_string()), Ok(PcbKind::Single));
    assert_eq!(PcbKind::try_from(&"board".to_string()), Err(()));
}

#[test]
fn patterns_compile_and_match() {
    let pattern = Pattern::new("^R[0-9]+$").unwrap();
    assert_eq!(pattern.as_str(), "^R[0-9]+$");
    assert!(pattern.is_match("R12"));
    assert!(!pattern.is_match("C1"));
    assert!(Pattern::new("(").is_err());
}

#[test]
fn load_out_items_round_trip() {
    let records = vec![LoadOutItemRecord { reference: "FEEDER_1".to_string(), manufacturer: "MFR1".to_string(), mpn: "PART1".to_string() }];
    let items = load_items(&records);
    assert_eq!(items.len(), 1);
    assert_eq!(items[0].reference, "FEEDER_1");
    assert_eq!(store_items(&items), records);
}

#[test]
fn part_mappings_take_the_tool_fields_in_lower_case() {
    let parts = load_parts(&vec![PartRecord { manufacturer: "MFR1".to_string(), mpn: "PART1".to_string() }]);
    assert_eq!(parts, vec![Part::new("MFR1".to_string(), "PART1".to_string())]);
    let records = vec![PartMappingRecord {
        eda: CSVEdaToolValue::DipTrace,
        manufacturer: "MFR1".to_string(),
        mpn: "PART1".to_string(),
        fields: pairs(&[("Name", "NAME1"), ("Value", "VALUE1"), ("Other", "X")]),
    }];
    let mappings = load_part_mappings(&parts, &records).unwrap();
    assert_eq!(mappings.len(), 1);
    assert_eq!(*mappings[0].part, parts[0]);
    let criteria = &mappings[0].criteria[0].criteria;
    assert_eq!(criteria.len(), 2);
    assert_eq!(criteria[0].field_name, "name");
    assert_eq!(criteria[0].field_pattern, "NAME1");
    assert_eq!(criteria[1].field_name, "value");

    let unknown_part = vec![PartMappingRecord {
        eda: CSVEdaToolValue::KiCad,
        manufacturer: "MFR9".to_string(),
        mpn: "PART9".to_string(),
        fields: pairs(&[("Package", "P1")]),
    }];
    assert!(load_part_mappings(&parts, &unknown_part).is_err());
}

#[test]
fn substitutions_read_upper_camel_case_columns() {
    let records = vec![SubstitutionRecord {
        eda: CSVEdaToolValue::KiCad,
        fields: pairs(&[("PackagePattern", "P1"), ("ValPattern", "V1"), ("Package", "P2"), ("Val", "V2")]),
    }];
    let rules = load_eda_substitutions(&records).unwrap();
    assert_eq!(rules.len(), 1);
    assert_eq!(rules[0].transforms.len(), 2);
    assert_eq!(rules[0].transforms[0].field_name, "package");
    assert_eq!(rules[0].transforms[0].field_value, "P2");
    assert_eq!(rules[0].transforms[1].field_value, "V2");
    match &rules[0].criteria[0] {
        FieldCriterion::Regex(c) => {
            assert_eq!(c.field_name, "package");
            assert_eq!(c.field_pattern.as_str(), "P1");
        },
        FieldCriterion::Exact(c) => {
            assert_eq!(c.field_name, "package");
            assert_eq!(c.field_pattern, "P1");
        },
    }

    let missing = vec![SubstitutionRecord { eda: CSVEdaToolValue::DipTrace, fields: pairs(&[("Name", "N")]) }];
    assert!(load_eda_substitutions(&missing).is_err());
}
