//! Phases of a project: a process applied to one side of the pcbs with a load-out.
use vstd::prelude::*;
use crate::planning::reference::Reference;
use crate::planning::process::{Process, ProcessName, ProcessOperationKind, ProcessOperationState};
use crate::planning::pcb::PcbSide;
use crate::planning::placement::PlacementSortingItem;
use crate::planning::LoadOutSource;
use crate::sorted_map::{SortedMap, has_key};

verus! {

/// A phase of a project.
#[derive(Debug, Clone, PartialEq, Eq)]
pub struct Phase {
    pub reference: Reference,
    pub process: ProcessName,
    pub load_out: LoadOutSource,
    pub pcb_side: PcbSide,
    pub placement_orderings: Vec<PlacementSortingItem>,
}

/// Errors of phase operations.
#[derive(Debug, Clone, PartialEq, Eq)]
pub enum PhaseError {
    UnknownPhase(Reference),
    InvalidOperationForPhase(Reference, ProcessOperationKind),
}

/// The state of each operation of a phase's process, by operation kind.
#[derive(Debug, Clone, PartialEq, Eq)]
pub struct PhaseState {
    pub operation_state: SortedMap<ProcessOperationKind, ProcessOperationState>,
}

/// The state of a phase whose process was just chosen: one entry per operation
/// of the process, none completed, none with extra state.
pub open spec fn initial_state_of(r: PhaseState, process: Process) -> bool {
    &&& r.operation_state.wf()
    &&& forall|k: ProcessOperationKind| has_key(r.operation_state.seq(), k) == process.operations@.contains(k)
    &&& forall|i: int|
        0 <= i < r.operation_state.seq().len() ==> !(#[trigger] r.operation_state.seq()[i]).1.completed
            && r.operation_state.seq()[i].1.extra is None
}

impl PhaseState {
    /// The initial state of a phase: every operation of the process, not completed
    /// and with no extra state.
    pub fn from_process(process: &Process) -> (r: PhaseState)
        ensures
            initial_state_of(r, *process),
    {
        let mut operation_state: SortedMap<ProcessOperationKind, ProcessOperationState> = SortedMap::new();
        let mut k: usize = 0;
        while k < process.operations.len()
            invariant
                operation_state.wf(),
                k <= process.operations@.len(),
                forall|o: ProcessOperationKind| has_key(operation_state.seq(), o) == process.operations@.take(k as int).contains(o),
                forall|i: int|
                    0 <= i < operation_state.seq().len() ==> !(#[trigger] operation_state.seq()[i]).1.completed
                        && operation_state.seq()[i].1.extra is None,
            decreases process.operations@.len() - k,
        {
            let kind = process.operations[k];
            let ghost before = operation_state.seq();
            let _ = operation_state.insert(kind, ProcessOperationState::initial());
            proof {
                let t0 = process.operations@.take(k as int);
                let t1 = process.operations@.take(k + 1);
                assert(t1 =~= t0.push(kind));
                assert forall|o: ProcessOperationKind| has_key(operation_state.seq(), o) == t1.contains(o) by {
                    if t0.contains(o) {
                        let j = choose|j: int| 0 <= j < t0.len() && #[trigger] t0[j] == o;
                        assert(t1[j] == o);
                    }
                    if t1.contains(o) && o != kind {
                        let j = choose|j: int| 0 <= j < t1.len() && #[trigger] t1[j] == o;
                        assert(t0[j] == o);
                    }
                    if o == kind {
                        assert(t1[k as int] == o);
                    }
                }
                assert forall|i: int| 0 <= i < operation_state.seq().len() implies !(#[trigger] operation_state.seq()[i]).1.completed
                        && operation_state.seq()[i].1.extra is None by {
                    if before.contains(operation_state.seq()[i]) {
                        let j = choose|j: int| 0 <= j < before.len() && before[j] == operation_state.seq()[i];
                        assert(!before[j].1.completed);
                    }
                }
            }
            k = k + 1;
        }
        assert(process.operations@.take(k as int) =~= process.operations@);
        PhaseState { operation_state }
    }
}

} // verus!
