//! Placements exported by EDA tools, the criteria that select them, and the
//! substitutions applied to them.
use vstd::prelude::*;

pub mod placement;
pub mod criteria;
pub mod assembly_variant;
pub mod eda_placement;
pub mod substitution;
pub mod eda_substitution;
pub mod kicad;
pub mod diptrace;






verus! {

/// The EDA tools whose placements can be read.
#[derive(Debug, Clone, Copy, PartialEq, Eq, Structural)]
pub enum EdaTool {
    DipTrace,
    KiCad,
}

} // verus!
