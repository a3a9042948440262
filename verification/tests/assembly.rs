use makerpnp::assembly::variant::{AssemblyVariantProcessor as PlainVariantProcessor, ProcessingResult as PlainProcessingResult, Variant};
use makerpnp::assembly::{AssemblyVariantProcessor, ProcessingError};
use makerpnp::eda::assembly_variant::AssemblyVariant;
use makerpnp::eda::placement::{EdaPlacement, EdaPlacementField};
use makerpnp::placement::Placement;

#[test]
fn assembly_process() {
    // given
    let placement1 = Placement::new(String::from("R1"));
    let placement2 = Placement::new(String::from("R2"));
    let placement3 = Placement::new(String::from("R3"));
    let placement4 = Placement::new(String::from("D1"));
    let placement5 = Placement::new(String::from("D2"));
    let placement6 = Placement::new(String::from("D3"));
    let placement7 = Placement::new(String::from("C1"));
    let placement8 = Placement::new(String::from("J1"));
    let all_placements = vec![
        &placement1, &placement2, &placement3,
        &placement4, &placement5, &placement6,
        &placement7, &placement8,
    ];
    // and
    let variant_refdes_list = vec![
        String::from("R1"),
        String::from("D1"),
        String::from("C1"),
        String::from("J1"),
    ];
    let variant = Variant::new(String::from("Variant 1"), variant_refdes_list);
    // and
    let variant_placements = vec![&placement1, &placement4, &placement7, &placement8];
    let expected_result = Ok(PlainProcessingResult::new(variant_placements));
    // and
    let assembly_variant_processor = PlainVariantProcessor::default();
    // when
    let result = assembly_variant_processor.process(all_placements, variant);
    // then
    assert_eq!(result, expected_result);
}

#[test]
fn assembly_no_placements() {
    // given
    let variant = Variant::new(String::from("Variant 1"), vec![]);
    let assembly_variant_processor = PlainVariantProcessor::default();
    // when
    let result = assembly_variant_processor.process(vec![], variant);
    // then
    assert_eq!(result, Err(()));
}

#[test]
fn assembly_empty_variant_refdes_list() {
    // given
    let variant = Variant::new(String::from("Variant 1"), vec![]);
    let assembly_variant_processor = PlainVariantProcessor::default();
    let placement1 = Placement::new(String::from("R1"));
    // when
    let result = assembly_variant_processor.process(vec![&placement1], variant);
    // then
    assert_eq!(result, Err(()));
}

fn placement(ref_des: &str, name: &str, value: &str) -> EdaPlacement {
    EdaPlacement {
        ref_des: ref_des.to_string(),
        place: true,
        fields: vec![
            EdaPlacementField::new("name".to_string(), name.to_string()),
            EdaPlacementField::new("value".to_string(), value.to_string()),
        ],
        ..EdaPlacement::default()
    }
}

#[test]
fn mod_process() {
    // given
    let all_placements = vec![
        placement("R1", "NAME1", "VALUE1"),
        placement("R2", "NAME2", "VALUE2"),
        placement("R3", "NAME3", "VALUE3"),
        placement("D1", "NAME4", "VALUE4"),
        placement("D2", "NAME5", "VALUE5"),
        placement("D3", "NAME6", "VALUE6"),
        placement("C1", "NAME7", "VALUE7"),
        placement("J1", "NAME8", "VALUE8"),
    ];
    // and
    let variant_refdes_list = vec![
        String::from("R1"),
        String::from("D1"),
        String::from("C1"),
        String::from("J1"),
    ];
    let variant = AssemblyVariant::new(String::from("Variant 1"), variant_refdes_list);
    // and
    let variant_placements = vec![
        all_placements[1 - 1].clone(),
        all_placements[4 - 1].clone(),
        all_placements[7 - 1].clone(),
        all_placements[8 - 1].clone(),
    ];
    // when
    let result = AssemblyVariantProcessor::process(&all_placements, variant);
    // then
    assert_eq!(result.expect("placements").placements, variant_placements);
}

#[test]
fn mod_no_placements() {
    // given
    let variant = AssemblyVariant::new(String::from("Variant 1"), vec![]);
    // when
    let result = AssemblyVariantProcessor::process(&[], variant);
    // then
    assert!(matches!(result, Err(ProcessingError::NoPlacements)));
}

#[test]
fn mod_empty_variant_refdes_list() {
    // given
    let variant = AssemblyVariant::new(String::from("Variant 1"), vec![]);
    let placement1 = placement("R1", "NAME1", "VALUE1");
    let placements = vec![placement1.clone()];
    // when
    let result = AssemblyVariantProcessor::process(&placements, variant);
    // then
    assert_eq!(result.expect("placements").placements, vec![placement1]);
}

#[test]
fn default_assembly_variant_assembles_every_placement() {
    let placements = vec![placement("R1", "N", "V"), placement("C1", "N", "V")];
    let result = AssemblyVariantProcessor::process(&placements, AssemblyVariant::default());
    assert_eq!(result.expect("placements").placements, placements);
}
