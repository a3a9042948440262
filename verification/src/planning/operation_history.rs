//! The kinds of operations recorded in a phase's history.
use vstd::prelude::*;
use crate::pnp::object_path::ObjectPath;
use crate::planning::placement::PlacementOperation;

verus! {

/// An operation recorded in the history of a phase.
#[derive(Debug, Clone, PartialEq, Eq)]
pub enum OperationHistoryKind {
    LoadPcbs { completed: bool },
    AutomatedPnp { completed: bool },
    ReflowComponents { completed: bool },
    ManuallySolderComponents { completed: bool },
    PlacementOperation { object_path: ObjectPath, operation: PlacementOperation },
}

} // verus!
