//! Placements identified by their reference designator, and the placements of
//! DipTrace designs.
use vstd::prelude::*;

pub mod eda;

verus! {

/// A placement, by its reference designator.
#[derive(Debug, Clone, PartialEq, Eq)]
pub struct Placement {
    pub ref_des: String,
}

impl Placement {
    pub fn new(ref_des: String) -> (r: Placement)
        ensures
            r.ref_des == ref_des,
    {
        Placement { ref_des }
    }
}

} // verus!
