//! Placements of EDA tools with tool-specific details.
use vstd::prelude::*;

verus! {

/// A placement with the details its tool exports.
#[derive(Debug, Clone, PartialEq, Eq)]
pub struct EdaPlacement {
    pub ref_des: String,
    pub place: bool,
    pub details: EdaPlacementDetails,
}

/// The tool-specific details of a placement.
#[derive(Debug, Clone, PartialEq, Eq)]
pub enum EdaPlacementDetails {
    DipTrace(DipTracePlacementDetails),
    KiCad(KiCadPlacementDetails),
}

/// The details of a DipTrace placement.
#[derive(Debug, Clone, PartialEq, Eq)]
pub struct DipTracePlacementDetails {
    pub name: String,
    pub value: String,
}

/// The details of a KiCad placement.
#[derive(Debug, Clone, PartialEq, Eq)]
pub struct KiCadPlacementDetails {
    pub package: String,
    pub val: String,
}

impl EdaPlacement {
    /// A copy of this placement.
    pub fn copy(&self) -> (r: EdaPlacement)
        ensures
            r == *self,
    {
        EdaPlacement {
            ref_des: self.ref_des.clone(),
            place: self.place,
            details: match &self.details {
                EdaPlacementDetails::DipTrace(d) => EdaPlacementDetails::DipTrace(
                    DipTracePlacementDetails { name: d.name.clone(), value: d.value.clone() },
                ),
                EdaPlacementDetails::KiCad(d) => EdaPlacementDetails::KiCad(
                    KiCadPlacementDetails { package: d.package.clone(), val: d.val.clone() },
                ),
            },
        }
    }
}

} // verus!
