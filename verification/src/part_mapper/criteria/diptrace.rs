//! Criteria on the placements of DipTrace designs.
use vstd::prelude::*;
use crate::placement::eda::{EdaPlacement, EdaPlacementDetails};
use crate::text::str_eq;

verus! {

/// Selects DipTrace placements with exactly this name and value.
#[derive(Debug, Clone, PartialEq, Eq)]
pub struct ExactMatchCriteria {
    name: String,
    value: String,
}

impl ExactMatchCriteria {
    pub fn new(name: String, value: String) -> (r: ExactMatchCriteria)
        ensures
            r.name() == name@,
            r.value() == value@,
    {
        ExactMatchCriteria { name, value }
    }

    pub closed spec fn name(&self) -> Seq<char> {
        self.name@
    }

    pub closed spec fn value(&self) -> Seq<char> {
        self.value@
    }

    /// Whether the placement is a DipTrace placement with this name and value.
    pub fn matches(&self, placement: &EdaPlacement) -> (r: bool)
        ensures
            r == match placement.details {
                EdaPlacementDetails::DipTrace(d) => self.name() == d.name@ && self.value() == d.value@,
            },
    {
        match &placement.details {
            EdaPlacementDetails::DipTrace(details) => str_eq(self.name.as_str(), details.name.as_str())
                && str_eq(self.value.as_str(), details.value.as_str()),
        }
    }
}

} // verus!
