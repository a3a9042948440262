//! Assembly rules: the part to use for a reference designator.
use vstd::prelude::*;

verus! {

/// Chooses the part for the placement with this reference designator.
#[derive(Debug, Clone, PartialEq, Eq)]
pub struct AssemblyRule {
    pub ref_des: String,
    pub manufacturer: String,
    pub mpn: String,
}

} // verus!
