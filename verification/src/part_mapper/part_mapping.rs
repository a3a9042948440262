//! Part mappings: a part and the criteria of the placements it is mapped to.
use vstd::prelude::*;
use crate::pnp::part::Part;
use crate::eda::criteria::GenericCriteria;

verus! {

/// Maps the placements that meet one of the criteria to a part.
#[derive(Debug, PartialEq, Eq)]
pub struct PartMapping<'part> {
    pub part: &'part Part,
    pub criteria: Vec<GenericCriteria>,
}

impl<'part> PartMapping<'part> {
    pub fn new(part: &'part Part, criteria: Vec<GenericCriteria>) -> (r: PartMapping<'part>)
        ensures
            r.part == part,
            r.criteria == criteria,
    {
        PartMapping { part, criteria }
    }
}

} // verus!
