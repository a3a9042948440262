//! Criteria on KiCad placements.
use vstd::prelude::*;
use crate::eda::eda_placement::{EdaPlacement, EdaPlacementDetails};
use crate::text::str_eq;

verus! {

/// Selects KiCad placements with exactly this package and value.
#[derive(Debug, Clone, PartialEq, Eq)]
pub struct KiCadExactMatchCriteria {
    package: String,
    val: String,
}

impl KiCadExactMatchCriteria {
    pub fn new(package: String, val: String) -> (r: KiCadExactMatchCriteria)
        ensures
            r.package() == package@,
            r.val() == val@,
    {
        KiCadExactMatchCriteria { package, val }
    }

    pub closed spec fn package(&self) -> Seq<char> {
        self.package@
    }

    pub closed spec fn val(&self) -> Seq<char> {
        self.val@
    }

    /// Whether the placement is a KiCad placement with this package and value.
    pub fn matches(&self, placement: &EdaPlacement) -> (r: bool)
        ensures
            r == match placement.details {
                EdaPlacementDetails::KiCad(d) => self.package() == d.package@ && self.val() == d.val@,
                _ => false,
            },
    {
        match &placement.details {
            EdaPlacementDetails::KiCad(details) => str_eq(self.package.as_str(), details.package.as_str())
                && str_eq(self.val.as_str(), details.val.as_str()),
            _ => false,
        }
    }
}

} // verus!
