//! Assembly variants: the reference designators of the placements a variant
//! assembles.
use vstd::prelude::*;

verus! {

/// An assembly variant; an empty list of reference designators assembles every
/// placement.
#[derive(Debug, Clone, PartialEq, Eq)]
pub struct AssemblyVariant {
    pub name: String,
    pub ref_des_list: Vec<String>,
}

impl AssemblyVariant {
    pub fn new(name: String, variant_refdes_list: Vec<String>) -> (r: AssemblyVariant)
        ensures
            r.name == name,
            r.ref_des_list == variant_refdes_list,
    {
        AssemblyVariant { name, ref_des_list: variant_refdes_list }
    }
}

impl Default for AssemblyVariant {
    /// The variant named `Default`, which assembles every placement.
    fn default() -> (r: AssemblyVariant)
        ensures
            r.name@ == "Default"@,
            r.ref_des_list@.len() == 0,
    {
        AssemblyVariant { name: "Default".to_owned(), ref_des_list: Vec::new() }
    }
}

} // verus!
