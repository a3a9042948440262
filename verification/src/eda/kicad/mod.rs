//! KiCad placements.
use vstd::prelude::*;

pub mod criteria;
pub mod csv;

verus! {
} // verus!
