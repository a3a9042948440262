//! Command-line arguments: the values they name, and the parsing of placement
//! orderings.
use vstd::prelude::*;

pub mod args;
pub mod parsers;

verus! {
} // verus!
