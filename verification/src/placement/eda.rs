//! Placements of DipTrace designs, with their name and value.
use vstd::prelude::*;

verus! {

/// A placement of an EDA design.
#[derive(Debug, Clone, PartialEq, Eq, Hash)]
pub struct EdaPlacement {
    pub ref_des: String,
    pub details: EdaPlacementDetails,
}

/// The tool-specific details of a placement.
#[derive(Debug, Clone, PartialEq, Eq, Hash)]
pub enum EdaPlacementDetails {
    DipTrace(DipTracePlacementDetails),
}

/// The details of a DipTrace placement.
#[derive(Debug, Clone, PartialEq, Eq, Hash)]
pub struct DipTracePlacementDetails {
    pub name: String,
    pub value: String,
}

} // verus!
