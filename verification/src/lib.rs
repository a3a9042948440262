use vstd::prelude::*;

pub mod text;
pub mod order;
pub mod sorted_map;
pub mod pnp;
pub mod planning;
pub mod pattern;
pub mod eda;
pub mod placement;
pub mod part_mapper;
pub mod assembly;
pub mod part_mapping;
pub mod loaders;
pub mod cli;
pub mod views;
pub mod variant_builder;

verus! {
}
