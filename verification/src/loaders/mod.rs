//! Building the library's values from the records of CSV files (the files are
//! read elsewhere).
use vstd::prelude::*;

pub mod csv;
pub mod assembly_rules;
pub mod load_out;
pub mod part_mappings;
pub mod parts;
pub mod placements;
pub mod substitutions;
pub mod eda_placements;

verus! {
} // verus!
