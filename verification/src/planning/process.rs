//! Processes: named sequences of operations.
use vstd::prelude::*;
use crate::text::{Comparison, lex_compare, compare_str, str_eq};
use crate::order::{lemma_lex_total_order, int_compare};
use crate::sorted_map::OrderedKey;

verus! {

/// The name of a process, e.g. `pnp`.
#[derive(Debug, Clone, PartialEq, Eq, PartialOrd, Ord, Hash)]
pub struct ProcessName(pub String);

impl View for ProcessName {
    type V = Seq<char>;

    closed spec fn view(&self) -> Seq<char> {
        self.0@
    }
}

impl ProcessName {
    pub fn new(value: String) -> (r: ProcessName)
        ensures
            r@ == value@,
    {
        ProcessName(value)
    }

    pub fn as_str(&self) -> (r: &str)
        ensures
            r@ == self@,
    {
        self.0.as_str()
    }

    /// The text of this name (`Display`).
    pub fn to_string(&self) -> (r: String)
        ensures
            r@ == self@,
    {
        self.0.clone()
    }

    pub fn copy(&self) -> (r: ProcessName)
        ensures
            r@ == self@,
    {
        ProcessName(self.0.clone())
    }

    pub fn equals(&self, other: &ProcessName) -> (r: bool)
        ensures
            r == (self@ == other@),
    {
        str_eq(self.0.as_str(), other.0.as_str())
    }
}

impl OrderedKey for ProcessName {
    type KeyView = Seq<char>;

    open spec fn key_view(&self) -> Seq<char> {
        self@
    }

    open spec fn key_order(a: Seq<char>, b: Seq<char>) -> Comparison {
        lex_compare(a, b)
    }

    proof fn lemma_key_order(a: Seq<char>, b: Seq<char>, c: Seq<char>) {
        lemma_lex_total_order(a, b, c);
    }

    fn compare_key(&self, other: &ProcessName) -> (r: Comparison) {
        compare_str(self.0.as_str(), other.0.as_str())
    }
}

impl std::str::FromStr for ProcessName {
    type Err = ProcessNameError;

    fn from_str(s: &str) -> (r: Result<ProcessName, ProcessNameError>)
        ensures
            r matches Ok(n) && n@ == s@,
    {
        Ok(ProcessName(s.to_owned()))
    }
}


/// The error of building a process name.
#[derive(Debug, Clone, PartialEq, Eq)]
pub struct ProcessNameError;

/// A process: a name and the operations it performs, in order.
#[derive(Debug, Clone, PartialEq, Eq, PartialOrd, Ord, Hash)]
pub struct Process {
    pub name: ProcessName,
    pub operations: Vec<ProcessOperationKind>,
}

/// The kinds of operation a process can perform.
#[derive(Debug, Clone, Copy, PartialEq, Eq, PartialOrd, Ord, Hash, Structural)]
pub enum ProcessOperationKind {
    LoadPcbs,
    AutomatedPnp,
    ReflowComponents,
    ManuallySolderComponents,
}

/// The rank of an operation kind in declaration order (the derived `Ord`).
pub open spec fn operation_ordinal(k: ProcessOperationKind) -> int {
    match k {
        ProcessOperationKind::LoadPcbs => 0,
        ProcessOperationKind::AutomatedPnp => 1,
        ProcessOperationKind::ReflowComponents => 2,
        ProcessOperationKind::ManuallySolderComponents => 3,
    }
}

fn operation_rank(k: ProcessOperationKind) -> (r: u8)
    ensures
        r as int == operation_ordinal(k),
{
    match k {
        ProcessOperationKind::LoadPcbs => 0,
        ProcessOperationKind::AutomatedPnp => 1,
        ProcessOperationKind::ReflowComponents => 2,
        ProcessOperationKind::ManuallySolderComponents => 3,
    }
}

impl OrderedKey for ProcessOperationKind {
    type KeyView = ProcessOperationKind;

    open spec fn key_view(&self) -> ProcessOperationKind {
        *self
    }

    open spec fn key_order(a: ProcessOperationKind, b: ProcessOperationKind) -> Comparison {
        int_compare(operation_ordinal(a), operation_ordinal(b))
    }

    proof fn lemma_key_order(a: ProcessOperationKind, b: ProcessOperationKind, c: ProcessOperationKind) {
    }

    fn compare_key(&self, other: &ProcessOperationKind) -> (r: Comparison) {
        let a = operation_rank(*self);
        let b = operation_rank(*other);
        if a < b {
            Comparison::Less
        } else if a > b {
            Comparison::Greater
        } else {
            Comparison::Equal
        }
    }
}

/// The abstract value of a process.
pub open spec fn process_view(p: Process) -> (Seq<char>, Seq<ProcessOperationKind>) {
    (p.name@, p.operations@)
}

impl Process {
    /// Whether the process performs the operation.
    pub fn has_operation(&self, operation: &ProcessOperationKind) -> (r: bool)
        ensures
            r == self.operations@.contains(*operation),
    {
        let mut k: usize = 0;
        while k < self.operations.len()
            invariant
                k <= self.operations@.len(),
                forall|j: int| 0 <= j < k ==> self.operations@[j] != *operation,
            decreases self.operations@.len() - k,
        {
            if self.operations[k] == *operation {
                return true;
            }
            k = k + 1;
        }
        false
    }

    pub fn copy(&self) -> (r: Process)
        ensures
            process_view(r) == process_view(*self),
    {
        let mut operations: Vec<ProcessOperationKind> = Vec::new();
        let mut k: usize = 0;
        while k < self.operations.len()
            invariant
                k <= self.operations@.len(),
                operations@ == self.operations@.take(k as int),
            decreases self.operations@.len() - k,
        {
            operations.push(self.operations[k]);
            k = k + 1;
            assert(operations@ =~= self.operations@.take(k as int));
        }
        assert(self.operations@.take(k as int) =~= self.operations@);
        Process { name: self.name.copy(), operations }
    }

    /// Whether two processes have the same name and operations.
    pub fn equals(&self, other: &Process) -> (r: bool)
        ensures
            r == (process_view(*self) == process_view(*other)),
    {
        if !self.name.equals(&other.name) || self.operations.len() != other.operations.len() {
            return false;
        }
        let mut k: usize = 0;
        while k < self.operations.len()
            invariant
                self.operations@.len() == other.operations@.len(),
                k <= self.operations@.len(),
                forall|j: int| 0 <= j < k ==> self.operations@[j] == other.operations@[j],
            decreases self.operations@.len() - k,
        {
            if self.operations[k] != other.operations[k] {
                return false;
            }
            k = k + 1;
        }
        assert(self.operations@ =~= other.operations@);
        true
    }
}

/// Errors of process lookups.
#[derive(Debug, Clone, PartialEq, Eq)]
pub enum ProcessError {
    UnusedProcessError { processes: Vec<Process>, process: String },
}

/// Counts of the placements of a phase and of those placed.
#[derive(Debug, Clone, Copy, PartialEq, Eq, Default, Structural)]
pub struct PlacementsState {
    pub placed: usize,
    pub total: usize,
}

impl PlacementsState {
    pub fn are_all_placements_placed(&self) -> (r: bool)
        ensures
            r == (self.placed == self.total),
    {
        self.placed == self.total
    }
}

/// Extra state of an operation.
#[derive(Debug, Clone, Copy, PartialEq, Eq, Structural)]
pub enum ProcessOperationExtraState {
    PlacementOperation { placements_state: PlacementsState },
}

/// The state of one operation of a phase.
#[derive(Debug, Clone, Copy, PartialEq, Eq, Default, Structural)]
pub struct ProcessOperationState {
    pub completed: bool,
    pub extra: Option<ProcessOperationExtraState>,
}

impl ProcessOperationState {
    /// The state of an operation not started: not completed, no extra state.
    pub fn initial() -> (r: ProcessOperationState)
        ensures
            !r.completed,
            r.extra is None,
    {
        ProcessOperationState { completed: false, extra: None }
    }
}

/// What can be set on an operation of a phase.
#[derive(Debug, Clone, Copy, PartialEq, Eq, Structural)]
pub enum ProcessOperationSetItem {
    Completed,
}

} // verus!
