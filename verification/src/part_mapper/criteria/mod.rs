//! Criteria that select parts and placements for part mappings.
use vstd::prelude::*;
use crate::eda::placement::EdaPlacement;
use crate::pnp::part::Part;
use crate::text::str_eq;

pub mod diptrace;

verus! {

/// A criterion on parts.
pub trait PartMappingCriteria {
    spec fn matches_spec(&self, part: Part) -> bool;

    fn matches(&self, part: &Part) -> (r: bool)
        ensures
            r == self.matches_spec(*part),
    ;
}

/// A criterion on placements.
pub trait PlacementMappingCriteria {
    spec fn matches_spec(&self, placement: EdaPlacement) -> bool;

    fn matches(&self, placement: &EdaPlacement) -> (r: bool)
        ensures
            r == self.matches_spec(*placement),
    ;
}

/// Selects the part with exactly this manufacturer and part number.
#[derive(Debug, Clone, PartialEq, Eq)]
pub struct ExactMatchCriteria {
    manufacturer: String,
    mpn: String,
}

impl ExactMatchCriteria {
    pub fn new(manufacturer: String, mpn: String) -> (r: ExactMatchCriteria)
        ensures
            r.manufacturer() == manufacturer@,
            r.mpn() == mpn@,
    {
        ExactMatchCriteria { manufacturer, mpn }
    }

    pub closed spec fn manufacturer(&self) -> Seq<char> {
        self.manufacturer@
    }

    pub closed spec fn mpn(&self) -> Seq<char> {
        self.mpn@
    }
}

impl PartMappingCriteria for ExactMatchCriteria {
    open spec fn matches_spec(&self, part: Part) -> bool {
        self.manufacturer() == part.manufacturer@ && self.mpn() == part.mpn@
    }

    fn matches(&self, part: &Part) -> (r: bool) {
        str_eq(self.manufacturer.as_str(), part.manufacturer.as_str()) && str_eq(self.mpn.as_str(), part.mpn.as_str())
    }
}

} // verus!
