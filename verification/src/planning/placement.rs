//! The planning state of placements and their sort orders.
use vstd::prelude::*;
use crate::pnp::object_path::ObjectPath;
use crate::pnp::placement::Placement;
use crate::planning::reference::Reference;
use crate::planning::SortOrder;

verus! {

/// The state of a placement in a project.
#[derive(Debug, Clone, PartialEq, Eq)]
pub struct PlacementState {
    pub unit_path: ObjectPath,
    pub placement: Placement,
    pub placed: bool,
    pub status: PlacementStatus,
    pub phase: Option<Reference>,
}

/// Whether a placement is still in the design it came from.
#[derive(Debug, Clone, Copy, PartialEq, Eq, Hash, Structural)]
pub enum PlacementStatus {
    Known,
    Unknown,
}

/// What placements can be sorted by.
#[derive(Debug, Clone, Copy, PartialEq, Eq, PartialOrd, Ord, Hash, Structural)]
pub enum PlacementSortingMode {
    FeederReference,
    PcbUnit,
}

impl PlacementSortingMode {
    /// The name of the mode (`Display`).
    pub fn to_string(&self) -> (r: String)
        ensures
            r@ == (match self {
                PlacementSortingMode::FeederReference => "FeederReference"@,
                PlacementSortingMode::PcbUnit => "PcbUnit"@,
            }),
    {
        match self {
            PlacementSortingMode::FeederReference => "FeederReference".to_owned(),
            PlacementSortingMode::PcbUnit => "PcbUnit".to_owned(),
        }
    }
}

/// One criterion of a placement ordering.
#[derive(Debug, Clone, Copy, PartialEq, Eq, PartialOrd, Ord, Hash, Structural)]
pub struct PlacementSortingItem {
    pub mode: PlacementSortingMode,
    pub sort_order: SortOrder,
}

/// The error of parsing a placement sorting item.
#[derive(Debug, Clone, PartialEq, Eq)]
pub enum PlacementSortingError {
    Invalid(String),
}

/// Operations recorded on placements.
#[derive(Debug, Clone, Copy, PartialEq, Eq, Structural)]
pub enum PlacementOperation {
    Placed,
}

impl PlacementState {
    pub fn copy(&self) -> (r: PlacementState)
        ensures
            r.unit_path@ == self.unit_path@,
            r.placement == self.placement,
            r.placed == self.placed,
            r.status == self.status,
            r.phase is Some == self.phase is Some,
            r.phase is Some ==> r.phase->0@ == self.phase->0@,
    {
        PlacementState {
            unit_path: self.unit_path.copy(),
            placement: self.placement.copy(),
            placed: self.placed,
            status: self.status,
            phase: match &self.phase {
                Some(p) => Some(p.copy()),
                None => None,
            },
        }
    }
}

} // verus!
