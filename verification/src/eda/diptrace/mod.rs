//! DipTrace placements.
use vstd::prelude::*;

pub mod csv;

verus! {
} // verus!
