use makerpnp::cli::args::{AssemblyVariantArgs, PcbKindArg, PcbSideArg, SortOrderArg};
use makerpnp::cli::parsers::PlacementSortingItemParser;
use makerpnp::planning::pcb::{PcbKind, PcbSide};
use makerpnp::planning::placement::{PlacementSortingError, PlacementSortingItem, PlacementSortingMode};
use makerpnp::planning::SortOrder;

#[test]
fn parse_placement_sorting_items() {
    let parser = PlacementSortingItemParser::default();
    assert_eq!(
        parser.parse_ref("FEEDER_REFERENCE:ASC"),
        Ok(PlacementSortingItem { mode: PlacementSortingMode::FeederReference, sort_order: SortOrder::Asc })
    );
    assert_eq!(
        parser.parse_ref("PCB_UNIT:DESC"),
        Ok(PlacementSortingItem { mode: PlacementSortingMode::PcbUnit, sort_order: SortOrder::Desc })
    );
}

#[test]
fn parse_invalid_placement_sorting_items() {
    let parser = PlacementSortingItemParser::default();
    for text in ["PCB_UNIT", "PCB_UNIT:ASC:DESC", "pcb_unit:asc", "UNKNOWN:ASC", "PCB_UNIT:UP", ""] {
        assert_eq!(parser.parse_ref(text), Err(PlacementSortingError::Invalid(text.to_string())));
    }
}

#[test]
fn argument_values_name_library_values() {
    assert_eq!(SortOrderArg::Desc.to_sort_order(), SortOrder::Desc);
    assert_eq!(PcbSideArg::Bottom.to_pcb_side(), PcbSide::Bottom);
    assert_eq!(PcbKindArg::Panel.to_pcb_kind(), PcbKind::Panel);
}

#[test]
fn assembly_variant_from_arguments() {
    let args = AssemblyVariantArgs { name: "Variant 1".to_string(), ref_des_list: vec!["R1".to_string(), "C1".to_string()] };
    let variant = args.build_assembly_variant().unwrap();
    assert_eq!(variant.name, "Variant 1");
    assert_eq!(variant.ref_des_list, vec!["R1".to_string(), "C1".to_string()]);
}
