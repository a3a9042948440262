//! Projects: the pcbs, unit assignments, parts, phases and placements being
//! planned, and the operations that change them.
use vstd::prelude::*;
use crate::sorted_map::{SortedMap, OrderedKey, keys_increasing};
use crate::pnp::object_path::ObjectPath;
use crate::pnp::part::Part;
use crate::planning::design::DesignVariant;
use crate::planning::reference::Reference;
use crate::planning::part::PartState;
use crate::planning::pcb::{Pcb, PcbKind, PcbSide};
use crate::planning::phase::{Phase, PhaseState, initial_state_of};
use crate::planning::placement::PlacementState;
use crate::planning::process::{Process, ProcessName, ProcessNameError, ProcessOperationKind, ProcessError, process_view,
    ProcessOperationState, ProcessOperationSetItem, ProcessOperationExtraState, PlacementsState};
use crate::planning::phase::PhaseError;
use crate::planning::operation_history::OperationHistoryKind;
use crate::planning::placement::{PlacementSortingItem, PlacementOperation};
use crate::planning::LoadOutSource;
use crate::pattern::{Pattern, regex_finds};
use crate::pnp::object_path::format_path;
use crate::pnp::placement::Placement;
use crate::pnp::decimal::DecimalValue;
use crate::text::{str_eq, push_str, string_from_chars};

verus! {

/// A project.
#[derive(Debug)]
pub struct Project {
    pub name: String,
    pub processes: Vec<Process>,
    pub pcbs: Vec<Pcb>,
    pub unit_assignments: SortedMap<ObjectPath, DesignVariant>,
    pub part_states: SortedMap<Part, PartState>,
    pub phases: SortedMap<Reference, Phase>,
    /// The phases in the order they were created, each once.
    pub phase_orderings: Vec<Reference>,
    pub phase_states: SortedMap<Reference, PhaseState>,
    pub placements: SortedMap<ObjectPath, PlacementState>,
}

/// The abstract values of a list of processes.
pub open spec fn processes_view(s: Seq<Process>) -> Seq<(Seq<char>, Seq<ProcessOperationKind>)> {
    s.map_values(|p: Process| process_view(p))
}

/// No reference occurs twice.
pub open spec fn references_distinct(s: Seq<Reference>) -> bool {
    forall|i: int, j: int| 0 <= i < j < s.len() ==> (#[trigger] s[i])@ != (#[trigger] s[j])@
}

/// The references, as texts.
pub open spec fn reference_views(s: Seq<Reference>) -> Seq<Seq<char>> {
    s.map_values(|r: Reference| r@)
}

/// The processes that have a name of their own: `pnp` (load the pcbs, place
/// automatically, reflow) and `manual` (load the pcbs, solder by hand).
pub open spec fn named_process(name: Seq<char>) -> Option<(Seq<char>, Seq<ProcessOperationKind>)> {
    if name == "pnp"@ {
        Some(
            (
                name,
                seq![ProcessOperationKind::LoadPcbs, ProcessOperationKind::AutomatedPnp, ProcessOperationKind::ReflowComponents],
            ),
        )
    } else if name == "manual"@ {
        Some((name, seq![ProcessOperationKind::LoadPcbs, ProcessOperationKind::ManuallySolderComponents]))
    } else {
        None
    }
}

/// The processes of a new project: `pnp`, then `manual`.
pub open spec fn default_processes() -> Seq<(Seq<char>, Seq<ProcessOperationKind>)> {
    seq![named_process("pnp"@)->0, named_process("manual"@)->0]
}

impl Project {
    /// The invariant of a project: its maps keep their keys in order, the phase
    /// ordering holds each reference once, and nested sets keep their order.
    pub open spec fn wf(&self) -> bool {
        &&& self.unit_assignments.wf()
        &&& self.part_states.wf()
        &&& self.phases.wf()
        &&& self.phase_states.wf()
        &&& self.placements.wf()
        &&& references_distinct(self.phase_orderings@)
        &&& forall|i: int|
            0 <= i < self.part_states.seq().len() ==> (#[trigger] self.part_states.seq()[i]).1.applicable_processes.wf()
        &&& forall|i: int|
            0 <= i < self.phase_states.seq().len() ==> (#[trigger] self.phase_states.seq()[i]).1.operation_state.wf()
    }

    /// A new, empty project with the named processes `pnp` and `manual`.
    pub fn new(name: String) -> (r: Project)
        ensures
            r.wf(),
            r.name == name,
            processes_view(r.processes@) == default_processes(),
            r.pcbs@.len() == 0,
            r.unit_assignments.map().len() == 0,
            r.part_states.map().len() == 0,
            r.phases.map().len() == 0,
            r.phase_orderings@.len() == 0,
            r.phase_states.map().len() == 0,
            r.placements.map().len() == 0,
    {
        let pnp = match ProcessFactory::by_name("pnp") {
            Ok(p) => p,
            Err(_) => {
                proof {
                    reveal_strlit("pnp");
                }
                Process { name: ProcessName::new(String::new()), operations: Vec::new() }
            },
        };
        let manual = match ProcessFactory::by_name("manual") {
            Ok(p) => p,
            Err(_) => {
                proof {
                    reveal_strlit("manual");
                }
                Process { name: ProcessName::new(String::new()), operations: Vec::new() }
            },
        };
        let mut processes: Vec<Process> = Vec::new();
        processes.push(pnp);
        processes.push(manual);
        let r = Project {
            name,
            processes,
            pcbs: Vec::new(),
            unit_assignments: SortedMap::new(),
            part_states: SortedMap::new(),
            phases: SortedMap::new(),
            phase_orderings: Vec::new(),
            phase_states: SortedMap::new(),
            placements: SortedMap::new(),
        };
        proof {
            assert(processes_view(r.processes@) =~= default_processes());
        }
        r
    }

    /// Adds the process, unless an equal one is already there.
    pub fn ensure_process(&mut self, process: &Process)
        ensures
            *final(self) == (Project { processes: final(self).processes, ..*old(self) }),
            processes_view(final(self).processes@) == if processes_view(old(self).processes@).contains(process_view(*process)) {
                processes_view(old(self).processes@)
            } else {
                processes_view(old(self).processes@).push(process_view(*process))
            },
    {
        let mut k: usize = 0;
        while k < self.processes.len()
            invariant
                k <= self.processes@.len(),
                forall|j: int| 0 <= j < k ==> process_view(#[trigger] self.processes@[j]) != process_view(*process),
            decreases self.processes@.len() - k,
        {
            if self.processes[k].equals(process) {
                proof {
                    assert(processes_view(self.processes@)[k as int] == process_view(*process));
                }
                return;
            }
            k = k + 1;
        }
        proof {
            assert forall|j: int| 0 <= j < processes_view(self.processes@).len() implies #[trigger] processes_view(self.processes@)[j] != process_view(*process) by {
                assert(processes_view(self.processes@)[j] == process_view(self.processes@[j]));
            }
        }
        let ghost before = self.processes@;
        self.processes.push(process.copy());
        proof {
            assert(processes_view(self.processes@) =~= processes_view(before).push(process_view(*process)));
        }
    }

    /// Assigns a design variant to a pcb unit, replacing any earlier assignment.
    pub fn update_assignment(&mut self, object_path: ObjectPath, design_variant: DesignVariant)
        requires
            old(self).wf(),
        ensures
            final(self).wf(),
            *final(self) == (Project { unit_assignments: final(self).unit_assignments, ..*old(self) }),
            final(self).unit_assignments.map() == old(self).unit_assignments.map().insert(object_path@, design_variant),
    {
        let _ = self.unit_assignments.insert(object_path, design_variant);
    }

    /// The first process with the given name.
    pub fn find_process(&self, process_name: &ProcessName) -> (r: Result<&Process, ProcessError>)
        ensures
            match r {
                Ok(p) => exists|i: int|
                    0 <= i < self.processes@.len() && self.processes@[i] == *p && p.name@ == process_name@ && (forall|j: int|
                        0 <= j < i ==> (#[trigger] self.processes@[j]).name@ != process_name@),
                Err(ProcessError::UnusedProcessError { processes, process }) => {
                    &&& processes_view(processes@) == processes_view(self.processes@)
                    &&& process@ == process_name@
                    &&& forall|j: int| 0 <= j < self.processes@.len() ==> (#[trigger] self.processes@[j]).name@ != process_name@
                },
            },
    {
        let mut k: usize = 0;
        while k < self.processes.len()
            invariant
                k <= self.processes@.len(),
                forall|j: int| 0 <= j < k ==> (#[trigger] self.processes@[j]).name@ != process_name@,
            decreases self.processes@.len() - k,
        {
            if self.processes[k].name.equals(process_name) {
                return Ok(&self.processes[k]);
            }
            k = k + 1;
        }
        Err(ProcessError::UnusedProcessError { processes: copy_processes(&self.processes), process: process_name.to_string() })
    }
}

impl Project {
    /// Creates a phase, or changes the process and load-out of an existing one.
    ///
    /// A new phase goes to the end of the phase ordering and gets the initial state
    /// of its process; where no process of the project has that name, the phase and
    /// its ordering stay created and the error is returned.
    pub fn update_phase(&mut self, reference: Reference, process_name: ProcessName, load_out: LoadOutSource, pcb_side: PcbSide) -> (r: Result<(), ProcessError>)
        requires
            old(self).wf(),
        ensures
            final(self).wf(),
            *final(self) == (Project {
                phases: final(self).phases,
                phase_orderings: final(self).phase_orderings,
                phase_states: final(self).phase_states,
                ..*old(self)
            }),
            old(self).phases.map().contains_key(reference@) ==> {
                &&& r is Ok
                &&& final(self).phases.map() == old(self).phases.map().insert(
                    reference@,
                    Phase { process: process_name, load_out: load_out, ..old(self).phases.map()[reference@] },
                )
                &&& final(self).phase_orderings@ == old(self).phase_orderings@
                &&& final(self).phase_states == old(self).phase_states
            },
            !old(self).phases.map().contains_key(reference@) ==> {
                &&& final(self).phases.map() == old(self).phases.map().insert(
                    reference@,
                    Phase {
                        reference: reference,
                        process: process_name,
                        load_out: load_out,
                        pcb_side: pcb_side,
                        placement_orderings: final(self).phases.map()[reference@].placement_orderings,
                    },
                )
                &&& final(self).phases.map()[reference@].placement_orderings@.len() == 0
                &&& reference_views(final(self).phase_orderings@) == if reference_views(old(self).phase_orderings@).contains(reference@) {
                    reference_views(old(self).phase_orderings@)
                } else {
                    reference_views(old(self).phase_orderings@).push(reference@)
                }
                &&& (r is Ok) == (exists|i: int| 0 <= i < old(self).processes@.len() && (#[trigger] old(self).processes@[i]).name@ == process_name@)
                &&& r is Ok ==> {
                    &&& final(self).phase_states.map().dom() == old(self).phase_states.map().dom().insert(reference@)
                    &&& forall|x: Seq<char>| x != reference@ && #[trigger] old(self).phase_states.map().contains_key(x)
                        ==> final(self).phase_states.map()[x] == old(self).phase_states.map()[x]
                    &&& exists|i: int| 0 <= i < old(self).processes@.len()
                        && (#[trigger] old(self).processes@[i]).name@ == process_name@
                        && (forall|j: int| 0 <= j < i ==> (#[trigger] old(self).processes@[j]).name@ != process_name@)
                        && initial_state_of(final(self).phase_states.map()[reference@], old(self).processes@[i])
                }
                &&& r is Err ==> final(self).phase_states == old(self).phase_states
            },
    {
        match self.phases.find(&reference) {
            Ok(i) => {
                let placeholder = Phase {
                    reference: Reference::new(String::new()),
                    process: ProcessName::new(String::new()),
                    load_out: LoadOutSource::new(String::new()),
                    pcb_side: PcbSide::Top,
                    placement_orderings: Vec::new(),
                };
                let key = reference.copy();
                let ghost s = self.phases.seq();
                proof {
                    crate::sorted_map::lemma_map_at(s, i as int);
                }
                let (key0, mut phase) = self.phases.replace_entry_at(i, (key, placeholder));
                phase.process = process_name;
                phase.load_out = load_out;
                let _ = self.phases.replace_entry_at(i, (key0, phase));
                proof {
                    assert(forall|k: int| 0 <= k < self.part_states.seq().len() ==> (#[trigger] self.part_states.seq()[k]).1.applicable_processes.wf());
                }
                Ok(())
            },
            Err(_) => {
                let key = reference.copy();
                let ordering_key = reference.copy();
                let state_key = reference.copy();
                let lookup_name = process_name.copy();
                let phase = Phase {
                    reference,
                    process: process_name,
                    load_out,
                    pcb_side,
                    placement_orderings: Vec::new(),
                };
                let _ = self.phases.insert(key, phase);
                self.insert_phase_ordering(ordering_key);
                let found = match self.find_process(&lookup_name) {
                    Ok(process) => Ok(PhaseState::from_process(process)),
                    Err(e) => Err(e),
                };
                match found {
                    Ok(state) => {
                        let ghost before = self.phase_states.seq();
                        let (pos, _) = self.phase_states.insert(state_key, state);
                        proof {
                            let after = self.phase_states.seq();
                            assert forall|k: int| 0 <= k < after.len() implies (#[trigger] after[k]).1.operation_state.wf() by {
                                if k != pos {
                                    let j = choose|j: int| 0 <= j < before.len() && before[j] == after[k];
                                    assert(before[j].1.operation_state.wf());
                                }
                            }
                            assert(self.phase_states.map().dom() =~= old(self).phase_states.map().dom().insert(state_key@));
                        }
                        Ok(())
                    },
                    Err(e) => Err(e),
                }
            },
        }
    }
}

impl Project {
    /// Adds a reference at the end of the phase ordering, unless it is there.
    fn insert_phase_ordering(&mut self, reference: Reference)
        requires
            references_distinct(old(self).phase_orderings@),
        ensures
            *final(self) == (Project { phase_orderings: final(self).phase_orderings, ..*old(self) }),
            references_distinct(final(self).phase_orderings@),
            reference_views(final(self).phase_orderings@) == if reference_views(old(self).phase_orderings@).contains(reference@) {
                reference_views(old(self).phase_orderings@)
            } else {
                reference_views(old(self).phase_orderings@).push(reference@)
            },
    {
        let mut k: usize = 0;
        while k < self.phase_orderings.len()
            invariant
                k <= self.phase_orderings@.len(),
                references_distinct(self.phase_orderings@),
                forall|j: int| 0 <= j < k ==> (#[trigger] self.phase_orderings@[j])@ != reference@,
            decreases self.phase_orderings@.len() - k,
        {
            if self.phase_orderings[k].equals(&reference) {
                proof {
                    assert(reference_views(self.phase_orderings@)[k as int] == reference@);
                }
                return;
            }
            k = k + 1;
        }
        proof {
            assert forall|j: int| 0 <= j < reference_views(self.phase_orderings@).len() implies #[trigger] reference_views(self.phase_orderings@)[j] != reference@ by {
                assert(reference_views(self.phase_orderings@)[j] == self.phase_orderings@[j]@);
            }
        }
        let ghost before = self.phase_orderings@;
        self.phase_orderings.push(reference);
        proof {
            assert(reference_views(self.phase_orderings@) =~= reference_views(before).push(reference@));
        }
    }
}

/// The texts in order, each kept at its first occurrence only.
pub open spec fn dedup_first(s: Seq<Seq<char>>) -> Seq<Seq<char>>
    decreases s.len(),
{
    if s.len() == 0 {
        s
    } else {
        let d = dedup_first(s.drop_last());
        if d.contains(s.last()) {
            d
        } else {
            d.push(s.last())
        }
    }
}

/// Whether two lists of references hold the same texts in the same order.
fn same_references(a: &Vec<Reference>, b: &Vec<Reference>) -> (r: bool)
    ensures
        r == (reference_views(a@) == reference_views(b@)),
{
    if a.len() != b.len() {
        proof {
            assert(reference_views(a@).len() != reference_views(b@).len());
        }
        return false;
    }
    let mut k: usize = 0;
    while k < a.len()
        invariant
            a@.len() == b@.len(),
            k <= a@.len(),
            forall|j: int| 0 <= j < k ==> (#[trigger] a@[j])@ == b@[j]@,
        decreases a@.len() - k,
    {
        if !a[k].equals(&b[k]) {
            proof {
                assert(reference_views(a@)[k as int] != reference_views(b@)[k as int]);
            }
            return false;
        }
        k = k + 1;
    }
    proof {
        assert(reference_views(a@) =~= reference_views(b@));
    }
    true
}

/// Sets the order of the phases: the given references, each at its first
/// occurrence. Says whether the order changed; where it did not, the project is
/// left as it was.
pub fn set_phase_ordering(project: &mut Project, phases: &Vec<Reference>) -> (changed: bool)
    requires
        old(project).wf(),
    ensures
        final(project).wf(),
        *final(project) == (Project { phase_orderings: final(project).phase_orderings, ..*old(project) }),
        reference_views(final(project).phase_orderings@) == dedup_first(reference_views(phases@)),
        changed == (reference_views(old(project).phase_orderings@) != reference_views(final(project).phase_orderings@)),
        !changed ==> *final(project) == *old(project),
{
    let ghost before = *project;
    let mut previous: Vec<Reference> = Vec::new();
    std::mem::swap(&mut previous, &mut project.phase_orderings);
    proof {
        assert(reference_views(project.phase_orderings@) =~= dedup_first(reference_views(phases@.take(0))));
    }
    let mut k: usize = 0;
    while k < phases.len()
        invariant
            k <= phases@.len(),
            *project == (Project { phase_orderings: project.phase_orderings, ..before }),
            references_distinct(project.phase_orderings@),
            reference_views(project.phase_orderings@) == dedup_first(reference_views(phases@.take(k as int))),
        decreases phases@.len() - k,
    {
        proof {
            assert(reference_views(phases@.take(k + 1)).drop_last() =~= reference_views(phases@.take(k as int)));
            assert(reference_views(phases@.take(k + 1)).last() == phases@[k as int]@);
        }
        project.insert_phase_ordering(phases[k].copy());
        k = k + 1;
    }
    proof {
        assert(phases@.take(phases@.len() as int) =~= phases@);
    }
    let changed = !same_references(&previous, &project.phase_orderings);
    if !changed {
        project.phase_orderings = previous;
    }
    changed
}

impl Default for Project {
    /// The project named `Unnamed`, with the named processes and nothing else.
    fn default() -> (r: Project)
        ensures
            r.wf(),
            r.name@ == "Unnamed"@,
            processes_view(r.processes@) == default_processes(),
            r.pcbs@.len() == 0,
            r.unit_assignments.map().len() == 0,
            r.part_states.map().len() == 0,
            r.phases.map().len() == 0,
            r.phase_orderings@.len() == 0,
            r.phase_states.map().len() == 0,
            r.placements.map().len() == 0,
    {
        Project::new("Unnamed".to_owned())
    }
}

/// The error of pcb operations; no pcb operation produces it: adding a pcb
/// cannot fail.
#[derive(Debug, Clone, PartialEq, Eq)]
pub struct PcbOperationError {
    never: bool,
}

/// Adds a pcb to the project.
pub fn add_pcb(project: &mut Project, kind: PcbKind, name: String) -> (r: Result<(), PcbOperationError>)
    ensures
        r is Ok,
        *final(project) == (Project { pcbs: final(project).pcbs, ..*old(project) }),
        final(project).pcbs@ == old(project).pcbs@.push(Pcb { kind, name }),
{
    project.pcbs.push(Pcb { kind, name });
    Ok(())
}

/// A copy of a list of processes.
pub fn copy_processes(processes: &Vec<Process>) -> (r: Vec<Process>)
    ensures
        processes_view(r@) == processes_view(processes@),
{
    let mut out: Vec<Process> = Vec::new();
    let mut k: usize = 0;
    while k < processes.len()
        invariant
            k <= processes@.len(),
            processes_view(out@) == processes_view(processes@.take(k as int)),
        decreases processes@.len() - k,
    {
        let p = processes[k].copy();
        let ghost before = out@;
        out.push(p);
        proof {
            assert(processes_view(out@) =~= processes_view(before).push(process_view(p)));
            assert(processes@.take(k + 1) =~= processes@.take(k as int).push(processes@[k as int]));
            assert(processes_view(processes@.take(k + 1)) =~= processes_view(processes@.take(k as int)).push(process_view(processes@[k as int])));
        }
        k = k + 1;
    }
    proof {
        assert(processes@.take(k as int) =~= processes@);
    }
    out
}

/// The errors of building a named process.
#[derive(Debug, Clone, PartialEq, Eq)]
pub enum ProcessFactoryError {
    ErrorCreatingProcessName { reason: ProcessNameError },
    UnknownProcessName { process: String },
}

/// Builds the processes that have a name of their own.
pub struct ProcessFactory {}

impl ProcessFactory {
    /// The process named `pnp` or `manual`; any other name is unknown.
    pub fn by_name(name: &str) -> (r: Result<Process, ProcessFactoryError>)
        ensures
            match r {
                Ok(p) => named_process(name@) == Some(process_view(p)),
                Err(ProcessFactoryError::UnknownProcessName { process }) => named_process(name@) is None && process@ == name@,
                Err(ProcessFactoryError::ErrorCreatingProcessName { .. }) => false,
            },
    {
        let process_name = ProcessName::new(name.to_owned());
        if str_eq(name, "pnp") {
            let mut operations: Vec<ProcessOperationKind> = Vec::new();
            operations.push(ProcessOperationKind::LoadPcbs);
            operations.push(ProcessOperationKind::AutomatedPnp);
            operations.push(ProcessOperationKind::ReflowComponents);
            let p = Process { name: process_name, operations };
            assert(p.operations@ =~= seq![ProcessOperationKind::LoadPcbs, ProcessOperationKind::AutomatedPnp, ProcessOperationKind::ReflowComponents]);
            Ok(p)
        } else if str_eq(name, "manual") {
            let mut operations: Vec<ProcessOperationKind> = Vec::new();
            operations.push(ProcessOperationKind::LoadPcbs);
            operations.push(ProcessOperationKind::ManuallySolderComponents);
            let p = Process { name: process_name, operations };
            assert(p.operations@ =~= seq![ProcessOperationKind::LoadPcbs, ProcessOperationKind::ManuallySolderComponents]);
            Ok(p)
        } else {
            Err(ProcessFactoryError::UnknownProcessName { process: process_name.to_string() })
        }
    }
}


/// The parts, as values.
pub open spec fn part_views(s: Seq<Part>) -> Seq<(Seq<char>, Seq<char>)> {
    s.map_values(|p: Part| p@)
}

/// Whether a part is among the parts.
pub fn parts_contain(parts: &[Part], part: &Part) -> (r: bool)
    ensures
        r == part_views(parts@).contains(part@),
{
    let mut k: usize = 0;
    while k < parts.len()
        invariant
            k <= parts@.len(),
            forall|j: int| 0 <= j < k ==> (#[trigger] parts@[j])@ != part@,
        decreases parts@.len() - k,
    {
        if parts[k].equals(part) {
            assert(part_views(parts@)[k as int] == part@);
            return true;
        }
        k = k + 1;
    }
    assert forall|j: int| 0 <= j < part_views(parts@).len() implies #[trigger] part_views(parts@)[j] != part@ by {
        assert(part_views(parts@)[j] == parts@[j]@);
    }
    false
}

/// Adds a process to the processes that apply to a part.
pub fn add_process_to_part(part_state: &mut PartState, part: &Part, process: ProcessName)
    requires
        old(part_state).applicable_processes.wf(),
    ensures
        final(part_state).applicable_processes.wf(),
        final(part_state).applicable_processes.map() == old(part_state).applicable_processes.map().insert(process@, ()),
{
    let _ = part;
    let _ = part_state.applicable_processes.insert(process, ());
}

/// Makes the part states follow the parts of the designs: a part not yet known
/// gets an empty state, a part no longer used loses its state, the others keep theirs.
pub fn refresh_parts(project: &mut Project, all_parts: &[Part])
    requires
        old(project).wf(),
    ensures
        final(project).wf(),
        *final(project) == (Project { part_states: final(project).part_states, ..*old(project) }),
        final(project).part_states.map().dom() == part_views(all_parts@).to_set(),
        forall|x: (Seq<char>, Seq<char>)| #[trigger] final(project).part_states.map().contains_key(x) ==> {
            if old(project).part_states.map().contains_key(x) {
                final(project).part_states.map()[x] == old(project).part_states.map()[x]
            } else {
                final(project).part_states.map()[x].applicable_processes.map().len() == 0
            }
        },
{
    let ghost a = part_views(all_parts@);
    let ghost s0 = project.part_states.seq();
    let ghost m0 = project.part_states.map();
    let mut old_states: SortedMap<Part, PartState> = SortedMap::new();
    std::mem::swap(&mut project.part_states, &mut old_states);
    let n = old_states.len();
    let mut k: usize = 0;
    while k < n
        invariant
            n == s0.len(),
            k <= n,
            a == part_views(all_parts@),
            keys_increasing(s0),
            m0 == crate::sorted_map::map_of(s0),
            *project == (Project { part_states: project.part_states, ..*old(project) }),
            old_states.wf(),
            old_states.seq() == s0.skip(k as int),
            project.part_states.wf(),
            forall|i: int| 0 <= i < s0.len() ==> (#[trigger] s0[i]).1.applicable_processes.wf(),
            forall|i: int|
                0 <= i < project.part_states.seq().len() ==> (#[trigger] project.part_states.seq()[i]).1.applicable_processes.wf(),
            forall|x: (Seq<char>, Seq<char>)| #[trigger] project.part_states.map().contains_key(x)
                == (a.contains(x) && exists|j: int| 0 <= j < k && (#[trigger] s0[j]).0@ == x),
            forall|x: (Seq<char>, Seq<char>)| #[trigger] project.part_states.map().contains_key(x)
                ==> m0.contains_key(x) && project.part_states.map()[x] == m0[x],
        decreases n - k,
    {
        let (key, state) = old_states.remove_at(0);
        proof {
            assert(key == s0[k as int].0 && state == s0[k as int].1);
            assert(old_states.seq() =~= s0.skip(k + 1));
            crate::sorted_map::lemma_map_at(s0, k as int);
        }
        if parts_contain(all_parts, &key) {
            let ghost before = project.part_states.seq();
            let ghost bm = project.part_states.map();
            let (pos, _) = project.part_states.insert(key, state);
            proof {
                let after = project.part_states.seq();
                assert forall|i: int| 0 <= i < after.len() implies (#[trigger] after[i]).1.applicable_processes.wf() by {
                    if i != pos {
                        let j = choose|j: int| 0 <= j < before.len() && before[j] == after[i];
                        assert(before[j].1.applicable_processes.wf());
                    }
                }
                assert forall|x: (Seq<char>, Seq<char>)| #[trigger] project.part_states.map().contains_key(x)
                    == (a.contains(x) && exists|j: int| 0 <= j < k + 1 && (#[trigger] s0[j]).0@ == x) by {
                    if x == key@ {
                        assert(s0[k as int].0@ == x);
                    } else {
                        assert(project.part_states.map().contains_key(x) == bm.contains_key(x));
                        if exists|j: int| 0 <= j < k + 1 && (#[trigger] s0[j]).0@ == x {
                            let j = choose|j: int| 0 <= j < k + 1 && (#[trigger] s0[j]).0@ == x;
                            assert(j < k);
                        }
                        if exists|j: int| 0 <= j < k && (#[trigger] s0[j]).0@ == x {
                            let j = choose|j: int| 0 <= j < k && (#[trigger] s0[j]).0@ == x;
                            assert(0 <= j < k + 1);
                        }
                    }
                }
            }
        } else {
            proof {
                assert forall|x: (Seq<char>, Seq<char>)| #[trigger] project.part_states.map().contains_key(x)
                    == (a.contains(x) && exists|j: int| 0 <= j < k + 1 && (#[trigger] s0[j]).0@ == x) by {
                    if exists|j: int| 0 <= j < k + 1 && (#[trigger] s0[j]).0@ == x {
                        let j = choose|j: int| 0 <= j < k + 1 && (#[trigger] s0[j]).0@ == x;
                        if j == k {
                            assert(!a.contains(x));
                        }
                    }
                    if exists|j: int| 0 <= j < k && (#[trigger] s0[j]).0@ == x {
                        let j = choose|j: int| 0 <= j < k && (#[trigger] s0[j]).0@ == x;
                        assert(0 <= j < k + 1);
                    }
                }
            }
        }
        k = k + 1;
    }
    let mut i: usize = 0;
    while i < all_parts.len()
        invariant
            i <= all_parts@.len(),
            a == part_views(all_parts@),
            m0 == crate::sorted_map::map_of(s0),
            *project == (Project { part_states: project.part_states, ..*old(project) }),
            project.part_states.wf(),
            forall|q: int|
                0 <= q < project.part_states.seq().len() ==> (#[trigger] project.part_states.seq()[q]).1.applicable_processes.wf(),
            forall|x: (Seq<char>, Seq<char>)| #[trigger] project.part_states.map().contains_key(x)
                == (a.contains(x) && (m0.contains_key(x) || a.take(i as int).contains(x))),
            forall|x: (Seq<char>, Seq<char>)| #[trigger] project.part_states.map().contains_key(x) ==> {
                if m0.contains_key(x) {
                    project.part_states.map()[x] == m0[x]
                } else {
                    project.part_states.map()[x].applicable_processes.map().len() == 0
                }
            },
        decreases all_parts@.len() - i,
    {
        let part = &all_parts[i];
        proof {
            assert(a[i as int] == part@);
            assert(a.take(i + 1) =~= a.take(i as int).push(part@));
        }
        let ghost bm = project.part_states.map();
        if !project.part_states.contains_key(part) {
            let ghost before = project.part_states.seq();
            let (pos, _) = project.part_states.insert(part.copy(), PartState::new());
            proof {
                let after = project.part_states.seq();
                assert forall|q: int| 0 <= q < after.len() implies (#[trigger] after[q]).1.applicable_processes.wf() by {
                    if q != pos {
                        let j = choose|j: int| 0 <= j < before.len() && before[j] == after[q];
                        assert(before[j].1.applicable_processes.wf());
                    }
                }
            }
        }
        proof {
            assert(a.contains(part@));
            assert forall|x: (Seq<char>, Seq<char>)| #[trigger] project.part_states.map().contains_key(x)
                == (a.contains(x) && (m0.contains_key(x) || a.take(i + 1).contains(x))) by {
                if x == part@ {
                    assert(a.take(i + 1)[i as int] == x);
                } else {
                    assert(project.part_states.map().contains_key(x) == bm.contains_key(x));
                    let t0 = a.take(i as int);
                    let t1 = a.take(i + 1);
                    if t1.contains(x) {
                        let j = choose|j: int| 0 <= j < t1.len() && #[trigger] t1[j] == x;
                        assert(t0[j] == x);
                    }
                    if t0.contains(x) {
                        let j = choose|j: int| 0 <= j < t0.len() && #[trigger] t0[j] == x;
                        assert(t1[j] == x);
                    }
                }
            }
        }
        i = i + 1;
    }
    proof {
        assert(a.take(all_parts@.len() as int) =~= a);
        assert(project.part_states.map().dom() =~= a.to_set());
    }
}

/// The history entry of an operation in the given state.
pub open spec fn history_kind_of(operation: ProcessOperationKind, completed: bool) -> OperationHistoryKind {
    match operation {
        ProcessOperationKind::LoadPcbs => OperationHistoryKind::LoadPcbs { completed },
        ProcessOperationKind::AutomatedPnp => OperationHistoryKind::AutomatedPnp { completed },
        ProcessOperationKind::ReflowComponents => OperationHistoryKind::ReflowComponents { completed },
        ProcessOperationKind::ManuallySolderComponents => OperationHistoryKind::ManuallySolderComponents { completed },
    }
}

/// The history entry that records an operation of a phase in its current state.
pub fn build_history_operation_kind(operation: &ProcessOperationKind, state: &ProcessOperationState) -> (r: OperationHistoryKind)
    ensures
        r == history_kind_of(*operation, state.completed),
{
    match operation {
        ProcessOperationKind::LoadPcbs => OperationHistoryKind::LoadPcbs { completed: state.completed },
        ProcessOperationKind::AutomatedPnp => OperationHistoryKind::AutomatedPnp { completed: state.completed },
        ProcessOperationKind::ReflowComponents => OperationHistoryKind::ReflowComponents { completed: state.completed },
        ProcessOperationKind::ManuallySolderComponents => OperationHistoryKind::ManuallySolderComponents { completed: state.completed },
    }
}

/// Marks an operation of a phase as completed. `Ok(true)` when this changed its
/// state, `Ok(false)` when it was completed already.
pub fn update_phase_operation(project: &mut Project, phase_reference: &Reference, operation: ProcessOperationKind, set_item: ProcessOperationSetItem) -> (r: Result<bool, PhaseError>)
    requires
        old(project).wf(),
    ensures
        final(project).wf(),
        *final(project) == (Project { phase_states: final(project).phase_states, ..*old(project) }),
        !old(project).phase_states.map().contains_key(phase_reference@) ==> {
            &&& r matches Err(PhaseError::UnknownPhase(x)) && x@ == phase_reference@
            &&& final(project).phase_states == old(project).phase_states
        },
        old(project).phase_states.map().contains_key(phase_reference@) ==> {
            let states = old(project).phase_states.map()[phase_reference@].operation_state.map();
            if !states.contains_key(operation) {
                &&& r matches Err(PhaseError::InvalidOperationForPhase(x, o)) && x@ == phase_reference@ && o == operation
                &&& final(project).phase_states == old(project).phase_states
            } else {
                &&& r == Ok::<bool, PhaseError>(!states[operation].completed)
                &&& final(project).phase_states.map() == old(project).phase_states.map().insert(
                    phase_reference@,
                    final(project).phase_states.map()[phase_reference@],
                )
                &&& final(project).phase_states.map()[phase_reference@].operation_state.map() == states.insert(
                    operation,
                    ProcessOperationState { completed: true, ..states[operation] },
                )
            }
        },
{
    let i = match project.phase_states.find(phase_reference) {
        Ok(i) => i,
        Err(_) => {
            return Err(PhaseError::UnknownPhase(phase_reference.copy()));
        },
    };
    proof {
        crate::sorted_map::lemma_map_at(project.phase_states.seq(), i as int);
    }
    let j = match project.phase_states.entry(i).1.operation_state.find(&operation) {
        Ok(j) => j,
        Err(_) => {
            return Err(PhaseError::InvalidOperationForPhase(phase_reference.copy(), operation));
        },
    };
    let state = project.phase_states.entry(i).1.operation_state.entry(j).1;
    proof {
        assert(project.phase_states.seq()[i as int].1.operation_state.wf());
        crate::sorted_map::lemma_map_at(project.phase_states.seq()[i as int].1.operation_state.seq(), j as int);
    }
    match set_item {
        ProcessOperationSetItem::Completed => {
            if state.completed {
                return Ok(false);
            }
        },
    }
    let ghost s = project.phase_states.seq();
    let placeholder = PhaseState { operation_state: SortedMap::new() };
    let key = phase_reference.copy();
    let (key0, mut phase_state) = project.phase_states.replace_entry_at(i, (key, placeholder));
    proof {
        assert(phase_state == s[i as int].1);
        assert(phase_state.operation_state.wf());
    }
    let _ = phase_state.operation_state.set_value_at(j, ProcessOperationState { completed: true, extra: state.extra });
    let ghost ps = phase_state;
    let _ = project.phase_states.replace_entry_at(i, (key0, phase_state));
    proof {
        let after = project.phase_states.seq();
        assert(after == s.update(i as int, (s[i as int].0, ps)));
        assert forall|q: int| 0 <= q < after.len() implies (#[trigger] after[q]).1.operation_state.wf() by {
            if q != i {
                assert(after[q] == s[q]);
            }
        }
        crate::sorted_map::lemma_map_at(after, i as int);
    }
    Ok(true)
}

/// Sets the placement orderings of a phase. `Ok(true)` when they changed.
pub fn update_placement_orderings(project: &mut Project, reference: &Reference, placement_orderings: &Vec<PlacementSortingItem>) -> (r: Result<bool, PhaseError>)
    requires
        old(project).wf(),
    ensures
        final(project).wf(),
        *final(project) == (Project { phases: final(project).phases, ..*old(project) }),
        !old(project).phases.map().contains_key(reference@) ==> {
            &&& r matches Err(PhaseError::UnknownPhase(x)) && x@ == reference@
            &&& final(project).phases == old(project).phases
        },
        old(project).phases.map().contains_key(reference@) ==> {
            let phase = old(project).phases.map()[reference@];
            &&& r == Ok::<bool, PhaseError>(phase.placement_orderings@ != placement_orderings@)
            &&& final(project).phases.map() == old(project).phases.map().insert(
                reference@,
                Phase { placement_orderings: final(project).phases.map()[reference@].placement_orderings, ..phase },
            )
            &&& final(project).phases.map()[reference@].placement_orderings@ == placement_orderings@
        },
{
    let i = match project.phases.find(reference) {
        Ok(i) => i,
        Err(_) => {
            return Err(PhaseError::UnknownPhase(reference.copy()));
        },
    };
    proof {
        crate::sorted_map::lemma_map_at(project.phases.seq(), i as int);
    }
    let current = &project.phases.entry(i).1.placement_orderings;
    let mut same = current.len() == placement_orderings.len();
    let mut k: usize = 0;
    while same && k < current.len()
        invariant
            same ==> current@.len() == placement_orderings@.len(),
            same ==> forall|q: int| 0 <= q < k ==> current@[q] == placement_orderings@[q],
            !same ==> current@ != placement_orderings@,
            k <= current@.len(),
        decreases current@.len() - k,
    {
        if current[k] != placement_orderings[k] {
            same = false;
        }
        k = k + 1;
    }
    if same {
        assert(current@ =~= placement_orderings@);
        return Ok(false);
    }
    let mut copy: Vec<PlacementSortingItem> = Vec::new();
    let mut q: usize = 0;
    while q < placement_orderings.len()
        invariant
            q <= placement_orderings@.len(),
            copy@ == placement_orderings@.take(q as int),
        decreases placement_orderings@.len() - q,
    {
        copy.push(placement_orderings[q]);
        q = q + 1;
        assert(copy@ =~= placement_orderings@.take(q as int));
    }
    assert(placement_orderings@.take(q as int) =~= placement_orderings@);
    let placeholder = Phase {
        reference: Reference::new(String::new()),
        process: ProcessName::new(String::new()),
        load_out: LoadOutSource::new(String::new()),
        pcb_side: PcbSide::Top,
        placement_orderings: Vec::new(),
    };
    let key = reference.copy();
    let (key0, mut phase) = project.phases.replace_entry_at(i, (key, placeholder));
    phase.placement_orderings = copy;
    let _ = project.phases.replace_entry_at(i, (key0, phase));
    proof {
        crate::sorted_map::lemma_map_at(project.phases.seq(), i as int);
    }
    Ok(true)
}

/// How many placements belong to the phase, and how many of those are placed:
/// `(placed, total)`.
pub open spec fn phase_placement_counts(s: Seq<(ObjectPath, PlacementState)>, reference: Seq<char>) -> (nat, nat)
    decreases s.len(),
{
    if s.len() == 0 {
        (0, 0)
    } else {
        let before = phase_placement_counts(s.drop_last(), reference);
        let state = s.last().1;
        if state.phase is Some && state.phase->0@ == reference {
            (if state.placed { before.0 + 1 } else { before.0 }, before.1 + 1)
        } else {
            before
        }
    }
}

proof fn lemma_counts_bounded(s: Seq<(ObjectPath, PlacementState)>, reference: Seq<char>)
    ensures
        phase_placement_counts(s, reference).0 <= phase_placement_counts(s, reference).1 <= s.len(),
    decreases s.len(),
{
    if s.len() > 0 {
        lemma_counts_bounded(s.drop_last(), reference);
    }
}

/// The operations whose state follows the placements of the phase.
pub open spec fn tracks_placements(operation: ProcessOperationKind) -> bool {
    operation == ProcessOperationKind::AutomatedPnp || operation == ProcessOperationKind::ManuallySolderComponents
}

/// The state of an operation refreshed from the placement counts of its phase:
/// a placing operation is completed when every placement of the phase is placed,
/// and records the counts; other operations keep their state.
pub open spec fn refreshed_operation_state(operation: ProcessOperationKind, state: ProcessOperationState, counts: (nat, nat)) -> ProcessOperationState {
    if tracks_placements(operation) {
        ProcessOperationState {
            completed: counts.0 == counts.1,
            extra: Some(
                ProcessOperationExtraState::PlacementOperation {
                    placements_state: PlacementsState { placed: counts.0 as usize, total: counts.1 as usize },
                },
            ),
        }
    } else {
        state
    }
}

/// `new` holds the phase states of `old` with every operation state refreshed
/// from the placements.
pub open spec fn phase_states_refreshed(
    old: Map<Seq<char>, PhaseState>,
    new: Map<Seq<char>, PhaseState>,
    placements: Seq<(ObjectPath, PlacementState)>,
) -> bool {
    &&& new.dom() == old.dom()
    &&& forall|x: Seq<char>| #[trigger] old.contains_key(x) ==> {
        &&& new[x].operation_state.wf()
        &&& new[x].operation_state.map().dom() == old[x].operation_state.map().dom()
        &&& forall|o: ProcessOperationKind| #[trigger] old[x].operation_state.map().contains_key(o)
            ==> new[x].operation_state.map()[o] == refreshed_operation_state(
                o,
                old[x].operation_state.map()[o],
                phase_placement_counts(placements, x),
            )
    }
}

/// Whether refreshing changes some operation state.
pub open spec fn refresh_changes_something(old: Map<Seq<char>, PhaseState>, placements: Seq<(ObjectPath, PlacementState)>) -> bool {
    exists|x: Seq<char>, o: ProcessOperationKind|
        #[trigger] old.contains_key(x) && #[trigger] old[x].operation_state.map().contains_key(o)
            && refreshed_operation_state(o, old[x].operation_state.map()[o], phase_placement_counts(placements, x))
            != old[x].operation_state.map()[o]
}

/// Refreshing the operation states from the same placements a second time
/// changes nothing: such a refresh reports no change, and it keeps every
/// operation state of every phase.
pub proof fn lemma_refresh_idempotent(
    old: Map<Seq<char>, PhaseState>,
    mid: Map<Seq<char>, PhaseState>,
    new: Map<Seq<char>, PhaseState>,
    placements: Seq<(ObjectPath, PlacementState)>,
)
    requires
        phase_states_refreshed(old, mid, placements),
        phase_states_refreshed(mid, new, placements),
    ensures
        !refresh_changes_something(mid, placements),
        forall|x: Seq<char>, o: ProcessOperationKind|
            #[trigger] mid.contains_key(x) && #[trigger] mid[x].operation_state.map().contains_key(o)
                ==> new[x].operation_state.map()[o] == mid[x].operation_state.map()[o],
{
    assert forall|x: Seq<char>, o: ProcessOperationKind|
        #[trigger] mid.contains_key(x) && #[trigger] mid[x].operation_state.map().contains_key(o) implies refreshed_operation_state(
            o,
            mid[x].operation_state.map()[o],
            phase_placement_counts(placements, x),
        ) == mid[x].operation_state.map()[o] by {
        assert(old.contains_key(x));
        assert(old[x].operation_state.map().contains_key(o));
    }
}

/// Counts the placements of a phase and those placed.
fn count_phase_placements(placements: &SortedMap<ObjectPath, PlacementState>, reference: &Reference) -> (r: PlacementsState)
    ensures
        r.placed == phase_placement_counts(placements.seq(), reference@).0,
        r.total == phase_placement_counts(placements.seq(), reference@).1,
{
    let ghost s = placements.seq();
    let mut placed: usize = 0;
    let mut total: usize = 0;
    let n = placements.len();
    let mut k: usize = 0;
    while k < n
        invariant
            n == s.len(),
            s == placements.seq(),
            k <= n,
            placed == phase_placement_counts(s.take(k as int), reference@).0,
            total == phase_placement_counts(s.take(k as int), reference@).1,
        decreases n - k,
    {
        proof {
            assert(s.take(k + 1).drop_last() =~= s.take(k as int));
            lemma_counts_bounded(s.take(k as int), reference@);
        }
        let (_, state) = placements.entry(k);
        let in_phase = match &state.phase {
            Some(p) => p.equals(reference),
            None => false,
        };
        if in_phase {
            if state.placed {
                placed = placed + 1;
            }
            total = total + 1;
        }
        k = k + 1;
    }
    proof {
        assert(s.take(n as int) =~= s);
    }
    PlacementsState { placed, total }
}

/// Refreshes every operation state of one phase from its placement counts;
/// returns whether some state changed.
fn refresh_phase_state(state: &mut PhaseState, counts: PlacementsState) -> (r: bool)
    requires
        old(state).operation_state.wf(),
    ensures
        final(state).operation_state.wf(),
        final(state).operation_state.map().dom() == old(state).operation_state.map().dom(),
        forall|o: ProcessOperationKind| #[trigger] old(state).operation_state.map().contains_key(o)
            ==> final(state).operation_state.map()[o] == refreshed_operation_state(
                o,
                old(state).operation_state.map()[o],
                (counts.placed as nat, counts.total as nat),
            ),
        r == exists|o: ProcessOperationKind| #[trigger] old(state).operation_state.map().contains_key(o)
            && refreshed_operation_state(o, old(state).operation_state.map()[o], (counts.placed as nat, counts.total as nat))
            != old(state).operation_state.map()[o],
{
    let ghost s = state.operation_state.seq();
    let ghost c = (counts.placed as nat, counts.total as nat);
    let n = state.operation_state.len();
    let mut changed = false;
    let mut j: usize = 0;
    while j < n
        invariant
            n == s.len(),
            j <= n,
            c == (counts.placed as nat, counts.total as nat),
            keys_increasing(s),
            state.operation_state.wf(),
            state.operation_state.seq().len() == n,
            forall|q: int| 0 <= q < n ==> (#[trigger] state.operation_state.seq()[q]).0 == s[q].0,
            forall|q: int| 0 <= q < j ==> (#[trigger] state.operation_state.seq()[q]).1 == refreshed_operation_state(s[q].0, s[q].1, c),
            forall|q: int| j <= q < n ==> (#[trigger] state.operation_state.seq()[q]).1 == s[q].1,
            changed == exists|q: int| 0 <= q < j && refreshed_operation_state(s[q].0, (#[trigger] s[q]).1, c) != s[q].1,
        decreases n - j,
    {
        let (kind, current) = *state.operation_state.entry(j);
        let next = if kind == ProcessOperationKind::AutomatedPnp || kind == ProcessOperationKind::ManuallySolderComponents {
            ProcessOperationState {
                completed: counts.placed == counts.total,
                extra: Some(ProcessOperationExtraState::PlacementOperation { placements_state: counts }),
            }
        } else {
            current
        };
        if next != current {
            let _ = state.operation_state.set_value_at(j, next);
            changed = true;
        }
        proof {
            assert(kind == s[j as int].0 && current == s[j as int].1);
            assert(next == refreshed_operation_state(s[j as int].0, s[j as int].1, c));
            if !changed {
                assert forall|q: int| 0 <= q < j + 1 implies refreshed_operation_state(s[q].0, (#[trigger] s[q]).1, c) == s[q].1 by {
                }
            }
        }
        j = j + 1;
    }
    proof {
        let t = state.operation_state.seq();
        assert forall|o: ProcessOperationKind| #[trigger] state.operation_state.map().contains_key(o)
            == old(state).operation_state.map().contains_key(o) by {
            if state.operation_state.map().contains_key(o) {
                let q = choose|q: int| 0 <= q < t.len() && #[trigger] t[q].0.key_view() == o;
                crate::sorted_map::lemma_map_at(s, q);
            }
            if old(state).operation_state.map().contains_key(o) {
                let q = choose|q: int| 0 <= q < s.len() && #[trigger] s[q].0.key_view() == o;
                crate::sorted_map::lemma_map_at(t, q);
            }
        }
        assert(state.operation_state.map().dom() =~= old(state).operation_state.map().dom());
        assert forall|o: ProcessOperationKind| #[trigger] old(state).operation_state.map().contains_key(o)
            implies state.operation_state.map()[o] == refreshed_operation_state(o, old(state).operation_state.map()[o], c) by {
            let q = choose|q: int| 0 <= q < s.len() && #[trigger] s[q].0.key_view() == o;
            crate::sorted_map::lemma_map_at(s, q);
            crate::sorted_map::lemma_map_at(t, q);
        }
        if changed {
            let q = choose|q: int| 0 <= q < n && refreshed_operation_state(s[q].0, (#[trigger] s[q]).1, c) != s[q].1;
            crate::sorted_map::lemma_map_at(s, q);
            assert(old(state).operation_state.map().contains_key(s[q].0));
        } else {
            assert forall|o: ProcessOperationKind| #[trigger] old(state).operation_state.map().contains_key(o)
                implies refreshed_operation_state(o, old(state).operation_state.map()[o], c) == old(state).operation_state.map()[o] by {
                let q = choose|q: int| 0 <= q < s.len() && #[trigger] s[q].0.key_view() == o;
                crate::sorted_map::lemma_map_at(s, q);
            }
        }
    }
    changed
}

/// Refreshes the state of every placing operation of every phase from the
/// placements of the phase; returns whether some state changed.
pub fn update_phase_operation_states(project: &mut Project) -> (r: bool)
    requires
        old(project).wf(),
    ensures
        final(project).wf(),
        *final(project) == (Project { phase_states: final(project).phase_states, ..*old(project) }),
        phase_states_refreshed(old(project).phase_states.map(), final(project).phase_states.map(), old(project).placements.seq()),
        r == refresh_changes_something(old(project).phase_states.map(), old(project).placements.seq()),
{
    let ghost s = project.phase_states.seq();
    let ghost pl = project.placements.seq();
    let n = project.phase_states.len();
    let mut modified = false;
    let mut i: usize = 0;
    while i < n
        invariant
            n == s.len(),
            i <= n,
            keys_increasing(s),
            pl == project.placements.seq(),
            forall|q: int| 0 <= q < n ==> (#[trigger] s[q]).1.operation_state.wf(),
            *project == (Project { phase_states: project.phase_states, ..*old(project) }),
            project.phase_states.wf(),
            project.phase_states.seq().len() == n,
            forall|q: int| 0 <= q < n ==> (#[trigger] project.phase_states.seq()[q]).0 == s[q].0,
            forall|q: int| 0 <= q < n ==> (#[trigger] project.phase_states.seq()[q]).1.operation_state.wf(),
            forall|q: int| i <= q < n ==> (#[trigger] project.phase_states.seq()[q]).1 == s[q].1,
            forall|q: int| 0 <= q < i ==> {
                &&& (#[trigger] project.phase_states.seq()[q]).1.operation_state.map().dom() == s[q].1.operation_state.map().dom()
                &&& forall|o: ProcessOperationKind| #[trigger] s[q].1.operation_state.map().contains_key(o)
                    ==> project.phase_states.seq()[q].1.operation_state.map()[o] == refreshed_operation_state(
                        o,
                        s[q].1.operation_state.map()[o],
                        phase_placement_counts(pl, s[q].0@),
                    )
            },
            modified == exists|q: int, o: ProcessOperationKind|
                0 <= q < i && #[trigger] s[q].1.operation_state.map().contains_key(o)
                    && refreshed_operation_state(o, s[q].1.operation_state.map()[o], phase_placement_counts(pl, s[q].0@))
                    != s[q].1.operation_state.map()[o],
        decreases n - i,
    {
        let counts = count_phase_placements(&project.placements, &project.phase_states.entry(i).0);
        let key = project.phase_states.entry(i).0.copy();
        let placeholder = PhaseState { operation_state: SortedMap::new() };
        let ghost before = project.phase_states.seq();
        let (key0, mut phase_state) = project.phase_states.replace_entry_at(i, (key, placeholder));
        proof {
            assert(phase_state == s[i as int].1);
            assert(key0 == s[i as int].0);
        }
        let changed = refresh_phase_state(&mut phase_state, counts);
        let ghost mid = project.phase_states.seq();
        let _ = project.phase_states.replace_entry_at(i, (key0, phase_state));
        proof {
            assert(project.phase_states.seq() == before.update(i as int, (key0, phase_state)));
            if changed {
                let o = choose|o: ProcessOperationKind| #[trigger] s[i as int].1.operation_state.map().contains_key(o)
                    && refreshed_operation_state(o, s[i as int].1.operation_state.map()[o], phase_placement_counts(pl, s[i as int].0@))
                    != s[i as int].1.operation_state.map()[o];
                assert(0 <= i < i + 1);
            }
        }
        modified = modified || changed;
        proof {
            if !modified {
                assert forall|q: int, o: ProcessOperationKind|
                    0 <= q < i + 1 && #[trigger] s[q].1.operation_state.map().contains_key(o)
                    implies refreshed_operation_state(o, s[q].1.operation_state.map()[o], phase_placement_counts(pl, s[q].0@))
                    == s[q].1.operation_state.map()[o] by {
                }
            }
        }
        i = i + 1;
    }
    proof {
        let t = project.phase_states.seq();
        let om = old(project).phase_states.map();
        let nm = project.phase_states.map();
        assert forall|x: Seq<char>| #[trigger] nm.contains_key(x) == om.contains_key(x) by {
            if nm.contains_key(x) {
                let q = choose|q: int| 0 <= q < t.len() && #[trigger] t[q].0.key_view() == x;
                crate::sorted_map::lemma_map_at(s, q);
            }
            if om.contains_key(x) {
                let q = choose|q: int| 0 <= q < s.len() && #[trigger] s[q].0.key_view() == x;
                crate::sorted_map::lemma_map_at(t, q);
            }
        }
        assert(nm.dom() =~= om.dom());
        assert forall|x: Seq<char>| #[trigger] om.contains_key(x) implies {
            &&& nm[x].operation_state.wf()
            &&& nm[x].operation_state.map().dom() == om[x].operation_state.map().dom()
            &&& forall|o: ProcessOperationKind| #[trigger] om[x].operation_state.map().contains_key(o)
                ==> nm[x].operation_state.map()[o] == refreshed_operation_state(
                    o,
                    om[x].operation_state.map()[o],
                    phase_placement_counts(pl, x),
                )
        } by {
            let q = choose|q: int| 0 <= q < s.len() && #[trigger] s[q].0.key_view() == x;
            crate::sorted_map::lemma_map_at(s, q);
            crate::sorted_map::lemma_map_at(t, q);
        }
        if modified {
            let (q, o) = choose|q: int, o: ProcessOperationKind|
                0 <= q < n && #[trigger] s[q].1.operation_state.map().contains_key(o)
                    && refreshed_operation_state(o, s[q].1.operation_state.map()[o], phase_placement_counts(pl, s[q].0@))
                    != s[q].1.operation_state.map()[o];
            crate::sorted_map::lemma_map_at(s, q);
            assert(om.contains_key(s[q].0@));
        } else {
            assert forall|x: Seq<char>, o: ProcessOperationKind|
                #[trigger] om.contains_key(x) && #[trigger] om[x].operation_state.map().contains_key(o)
                implies refreshed_operation_state(o, om[x].operation_state.map()[o], phase_placement_counts(pl, x))
                == om[x].operation_state.map()[o] by {
                let q = choose|q: int| 0 <= q < s.len() && #[trigger] s[q].0.key_view() == x;
                crate::sorted_map::lemma_map_at(s, q);
            }
        }
    }
    modified
}

/// A placement state that only holds a place in a map while its entry is changed.
fn placeholder_placement_state() -> (r: PlacementState)
    ensures
        r.unit_path@ == Seq::<(Seq<char>, Seq<char>)>::empty(),
        r.placement.ref_des@ == Seq::<char>::empty(),
        r.placement.part.manufacturer@ == Seq::<char>::empty(),
        r.placement.part.mpn@ == Seq::<char>::empty(),
        !r.placement.place,
        r.placement.pcb_side == PcbSide::Top,
        r.placement.x == (DecimalValue { negative: false, magnitude: 0, scale: 0 }),
        r.placement.y == (DecimalValue { negative: false, magnitude: 0, scale: 0 }),
        r.placement.rotation == (DecimalValue { negative: false, magnitude: 0, scale: 0 }),
        !r.placed,
        r.status == crate::planning::placement::PlacementStatus::Known,
        r.phase is None,
{
    let zero = DecimalValue::new(false, 0, 0);
    PlacementState {
        unit_path: ObjectPath::new(),
        placement: Placement {
            ref_des: String::new(),
            part: Part::new(String::new(), String::new()),
            place: false,
            pcb_side: PcbSide::Top,
            x: zero,
            y: zero,
            rotation: zero,
        },
        placed: false,
        status: crate::planning::placement::PlacementStatus::Known,
        phase: None,
    }
}

/// Sets the placed flag of the placement at position `i`.
fn set_placed_at(placements: &mut SortedMap<ObjectPath, PlacementState>, i: usize, placed: bool)
    requires
        old(placements).wf(),
        i < old(placements).seq().len(),
    ensures
        final(placements).wf(),
        final(placements).seq() == old(placements).seq().update(
            i as int,
            (old(placements).seq()[i as int].0, PlacementState { placed, ..old(placements).seq()[i as int].1 }),
        ),
{
    let key = placements.entry(i).0.copy();
    let (key0, mut state) = placements.replace_entry_at(i, (key, placeholder_placement_state()));
    state.placed = placed;
    let _ = placements.replace_entry_at(i, (key0, state));
}

/// The placement at position `i` joins the phase.
fn set_phase_at(placements: &mut SortedMap<ObjectPath, PlacementState>, i: usize, phase: Reference)
    requires
        old(placements).wf(),
        i < old(placements).seq().len(),
    ensures
        final(placements).wf(),
        final(placements).seq() == old(placements).seq().update(
            i as int,
            (old(placements).seq()[i as int].0, PlacementState { phase: Some(phase), ..old(placements).seq()[i as int].1 }),
        ),
{
    let key = placements.entry(i).0.copy();
    let (key0, mut state) = placements.replace_entry_at(i, (key, placeholder_placement_state()));
    state.phase = Some(phase);
    let _ = placements.replace_entry_at(i, (key0, state));
}

/// Whether the assignment of placements to a phase selects a placement: its path
/// matches the pattern and it lies on the phase's side.
pub open spec fn selected_for_phase(pattern: Seq<char>, phase: Phase, path: Seq<(Seq<char>, Seq<char>)>, state: PlacementState) -> bool {
    regex_finds(pattern, format_path(path)) && state.placement.pcb_side == phase.pcb_side
}

/// The placements `new` are the placements `old` with those selected for the
/// phase assigned to it, and `parts` holds the parts of the selected placements:
/// what `assign_placements_to_phase` ensures of the project's placements before
/// and after, and of the parts it returns.
pub open spec fn placements_assigned(
    old: Map<Seq<(Seq<char>, Seq<char>)>, PlacementState>,
    new: Map<Seq<(Seq<char>, Seq<char>)>, PlacementState>,
    phase: Phase,
    pattern: Seq<char>,
    parts: Map<(Seq<char>, Seq<char>), ()>,
) -> bool {
    &&& new.dom() == old.dom()
    &&& forall|x: Seq<(Seq<char>, Seq<char>)>| #[trigger] old.contains_key(x) ==> {
        let before = old[x];
        let after = new[x];
        if selected_for_phase(pattern, phase, x, before) {
            &&& after == PlacementState { phase: after.phase, ..before }
            &&& after.phase is Some
            &&& after.phase->0@ == phase.reference@
        } else {
            after == before
        }
    }
    &&& forall|p: (Seq<char>, Seq<char>)| #[trigger] parts.contains_key(p) == exists|x: Seq<(Seq<char>, Seq<char>)>|
        #[trigger] old.contains_key(x) && selected_for_phase(pattern, phase, x, old[x]) && old[x].placement.part@ == p
}

/// Assigning placements to a phase takes only placements on the phase's side
/// whose path the pattern finds: a placement on the other side, or whose path
/// the pattern does not find, keeps its state; a placement whose state changed
/// lies on the phase's side, matches, and now belongs to the phase; and every
/// part returned is the part of such a placement.
pub proof fn lemma_assignment_respects_side_and_pattern(
    old: Map<Seq<(Seq<char>, Seq<char>)>, PlacementState>,
    new: Map<Seq<(Seq<char>, Seq<char>)>, PlacementState>,
    phase: Phase,
    pattern: Seq<char>,
    parts: Map<(Seq<char>, Seq<char>), ()>,
)
    requires
        placements_assigned(old, new, phase, pattern, parts),
    ensures
        forall|x: Seq<(Seq<char>, Seq<char>)>| #[trigger] old.contains_key(x)
            && (old[x].placement.pcb_side != phase.pcb_side || !regex_finds(pattern, format_path(x)))
            ==> new[x] == old[x],
        forall|x: Seq<(Seq<char>, Seq<char>)>| #[trigger] old.contains_key(x) && new[x] != old[x] ==> {
            &&& old[x].placement.pcb_side == phase.pcb_side
            &&& regex_finds(pattern, format_path(x))
            &&& new[x].phase matches Some(r) && r@ == phase.reference@
        },
        forall|p: (Seq<char>, Seq<char>)| #[trigger] parts.contains_key(p) ==> exists|x: Seq<(Seq<char>, Seq<char>)>|
            #[trigger] old.contains_key(x) && old[x].placement.pcb_side == phase.pcb_side
                && regex_finds(pattern, format_path(x)) && old[x].placement.part@ == p,
{
    assert forall|p: (Seq<char>, Seq<char>)| #[trigger] parts.contains_key(p) implies exists|x: Seq<(Seq<char>, Seq<char>)>|
        #[trigger] old.contains_key(x) && old[x].placement.pcb_side == phase.pcb_side
            && regex_finds(pattern, format_path(x)) && old[x].placement.part@ == p by {
        let x = choose|x: Seq<(Seq<char>, Seq<char>)>|
            #[trigger] old.contains_key(x) && selected_for_phase(pattern, phase, x, old[x]) && old[x].placement.part@ == p;
        assert(old.contains_key(x));
    }
}

/// Assigns the placements whose path matches the pattern, on the phase's side,
/// to the phase; returns the set of their parts.
pub fn assign_placements_to_phase(project: &mut Project, phase: &Phase, placements_pattern: &Pattern) -> (r: SortedMap<Part, ()>)
    requires
        old(project).wf(),
    ensures
        final(project).wf(),
        r.wf(),
        *final(project) == (Project { placements: final(project).placements, ..*old(project) }),
        final(project).placements.map().dom() == old(project).placements.map().dom(),
        forall|x: Seq<(Seq<char>, Seq<char>)>| #[trigger] old(project).placements.map().contains_key(x) ==> {
            let before = old(project).placements.map()[x];
            let after = final(project).placements.map()[x];
            if selected_for_phase(placements_pattern@, *phase, x, before) {
                &&& after == PlacementState { phase: after.phase, ..before }
                &&& after.phase is Some
                &&& after.phase->0@ == phase.reference@
            } else {
                after == before
            }
        },
        forall|p: (Seq<char>, Seq<char>)| #[trigger] r.map().contains_key(p) == exists|x: Seq<(Seq<char>, Seq<char>)>|
            #[trigger] old(project).placements.map().contains_key(x)
                && selected_for_phase(placements_pattern@, *phase, x, old(project).placements.map()[x])
                && old(project).placements.map()[x].placement.part@ == p,
{
    let ghost s = project.placements.seq();
    let mut parts: SortedMap<Part, ()> = SortedMap::new();
    let n = project.placements.len();
    let mut i: usize = 0;
    while i < n
        invariant
            n == s.len(),
            i <= n,
            keys_increasing(s),
            *project == (Project { placements: project.placements, ..*old(project) }),
            s == old(project).placements.seq(),
            project.placements.wf(),
            parts.wf(),
            project.placements.seq().len() == n,
            forall|q: int| 0 <= q < n ==> (#[trigger] project.placements.seq()[q]).0 == s[q].0,
            forall|q: int| i <= q < n ==> (#[trigger] project.placements.seq()[q]).1 == s[q].1,
            forall|q: int| 0 <= q < i ==> {
                let after = (#[trigger] project.placements.seq()[q]).1;
                if selected_for_phase(placements_pattern@, *phase, s[q].0@, s[q].1) {
                    &&& after == PlacementState { phase: after.phase, ..s[q].1 }
                    &&& after.phase is Some
                    &&& after.phase->0@ == phase.reference@
                } else {
                    after == s[q].1
                }
            },
            forall|p: (Seq<char>, Seq<char>)| #[trigger] parts.map().contains_key(p) == exists|q: int|
                0 <= q < i && selected_for_phase(placements_pattern@, *phase, (#[trigger] s[q]).0@, s[q].1) && s[q].1.placement.part@ == p,
        decreases n - i,
    {
        let path_text = project.placements.entry(i).0.to_string();
        let selected = placements_pattern.is_match(path_text.as_str())
            && project.placements.entry(i).1.placement.pcb_side == phase.pcb_side;
        if selected {
            let part = project.placements.entry(i).1.placement.part.copy();
            let _ = parts.insert(part, ());
            let should_assign = match &project.placements.entry(i).1.phase {
                Some(other) => !other.equals(&phase.reference),
                None => true,
            };
            if should_assign {
                set_phase_at(&mut project.placements, i, phase.reference.copy());
            }
        }
        proof {
            assert forall|p: (Seq<char>, Seq<char>)| #[trigger] parts.map().contains_key(p) == exists|q: int|
                0 <= q < i + 1 && selected_for_phase(placements_pattern@, *phase, (#[trigger] s[q]).0@, s[q].1) && s[q].1.placement.part@ == p by {
                if exists|q: int| 0 <= q < i + 1 && selected_for_phase(placements_pattern@, *phase, (#[trigger] s[q]).0@, s[q].1) && s[q].1.placement.part@ == p {
                    let q = choose|q: int| 0 <= q < i + 1 && selected_for_phase(placements_pattern@, *phase, (#[trigger] s[q]).0@, s[q].1) && s[q].1.placement.part@ == p;
                    if q < i {
                        assert(0 <= q < i);
                    }
                }
                if exists|q: int| 0 <= q < i && selected_for_phase(placements_pattern@, *phase, (#[trigger] s[q]).0@, s[q].1) && s[q].1.placement.part@ == p {
                    let q = choose|q: int| 0 <= q < i && selected_for_phase(placements_pattern@, *phase, (#[trigger] s[q]).0@, s[q].1) && s[q].1.placement.part@ == p;
                    assert(0 <= q < i + 1);
                }
            }
        }
        i = i + 1;
    }
    proof {
        let t = project.placements.seq();
        let om = old(project).placements.map();
        let nm = project.placements.map();
        assert forall|x: Seq<(Seq<char>, Seq<char>)>| #[trigger] nm.contains_key(x) == om.contains_key(x) by {
            if nm.contains_key(x) {
                let q = choose|q: int| 0 <= q < t.len() && #[trigger] t[q].0.key_view() == x;
                crate::sorted_map::lemma_map_at(s, q);
            }
            if om.contains_key(x) {
                let q = choose|q: int| 0 <= q < s.len() && #[trigger] s[q].0.key_view() == x;
                crate::sorted_map::lemma_map_at(t, q);
            }
        }
        assert(nm.dom() =~= om.dom());
        assert forall|x: Seq<(Seq<char>, Seq<char>)>| #[trigger] om.contains_key(x) implies {
            let before = om[x];
            let after = nm[x];
            if selected_for_phase(placements_pattern@, *phase, x, before) {
                &&& after == PlacementState { phase: after.phase, ..before }
                &&& after.phase is Some
                &&& after.phase->0@ == phase.reference@
            } else {
                after == before
            }
        } by {
            let q = choose|q: int| 0 <= q < s.len() && #[trigger] s[q].0.key_view() == x;
            crate::sorted_map::lemma_map_at(s, q);
            crate::sorted_map::lemma_map_at(t, q);
        }
        assert forall|p: (Seq<char>, Seq<char>)| #[trigger] parts.map().contains_key(p) == exists|x: Seq<(Seq<char>, Seq<char>)>|
            #[trigger] om.contains_key(x) && selected_for_phase(placements_pattern@, *phase, x, om[x]) && om[x].placement.part@ == p by {
            if parts.map().contains_key(p) {
                let q = choose|q: int| 0 <= q < n && selected_for_phase(placements_pattern@, *phase, (#[trigger] s[q]).0@, s[q].1) && s[q].1.placement.part@ == p;
                crate::sorted_map::lemma_map_at(s, q);
                assert(om.contains_key(s[q].0@));
            }
            if exists|x: Seq<(Seq<char>, Seq<char>)>| #[trigger] om.contains_key(x) && selected_for_phase(placements_pattern@, *phase, x, om[x]) && om[x].placement.part@ == p {
                let x = choose|x: Seq<(Seq<char>, Seq<char>)>| #[trigger] om.contains_key(x) && selected_for_phase(placements_pattern@, *phase, x, om[x]) && om[x].placement.part@ == p;
                let q = choose|q: int| 0 <= q < s.len() && #[trigger] s[q].0.key_view() == x;
                crate::sorted_map::lemma_map_at(s, q);
                assert(0 <= q < n);
            }
        }
    }
    parts
}

/// The state of an operation once reset: not completed.
pub open spec fn reset_operation_state(state: ProcessOperationState) -> ProcessOperationState {
    ProcessOperationState { completed: false, ..state }
}

/// Clears the placed flag of every placement.
fn reset_placement_operations(project: &mut Project)
    requires
        old(project).wf(),
    ensures
        final(project).wf(),
        *final(project) == (Project { placements: final(project).placements, ..*old(project) }),
        final(project).placements.map().dom() == old(project).placements.map().dom(),
        forall|x: Seq<(Seq<char>, Seq<char>)>| #[trigger] old(project).placements.map().contains_key(x)
            ==> final(project).placements.map()[x] == (PlacementState { placed: false, ..old(project).placements.map()[x] }),
{
    let ghost s = project.placements.seq();
    let n = project.placements.len();
    let mut i: usize = 0;
    while i < n
        invariant
            n == s.len(),
            i <= n,
            keys_increasing(s),
            s == old(project).placements.seq(),
            *project == (Project { placements: project.placements, ..*old(project) }),
            project.placements.wf(),
            project.placements.seq().len() == n,
            forall|q: int| 0 <= q < n ==> (#[trigger] project.placements.seq()[q]).0 == s[q].0,
            forall|q: int| i <= q < n ==> (#[trigger] project.placements.seq()[q]).1 == s[q].1,
            forall|q: int| 0 <= q < i ==> (#[trigger] project.placements.seq()[q]).1 == (PlacementState { placed: false, ..s[q].1 }),
        decreases n - i,
    {
        set_placed_at(&mut project.placements, i, false);
        i = i + 1;
    }
    proof {
        let t = project.placements.seq();
        let om = old(project).placements.map();
        let nm = project.placements.map();
        assert forall|x: Seq<(Seq<char>, Seq<char>)>| #[trigger] nm.contains_key(x) == om.contains_key(x) by {
            if nm.contains_key(x) {
                let q = choose|q: int| 0 <= q < t.len() && #[trigger] t[q].0.key_view() == x;
                crate::sorted_map::lemma_map_at(s, q);
            }
            if om.contains_key(x) {
                let q = choose|q: int| 0 <= q < s.len() && #[trigger] s[q].0.key_view() == x;
                crate::sorted_map::lemma_map_at(t, q);
            }
        }
        assert(nm.dom() =~= om.dom());
        assert forall|x: Seq<(Seq<char>, Seq<char>)>| #[trigger] om.contains_key(x)
            implies nm[x] == (PlacementState { placed: false, ..om[x] }) by {
            let q = choose|q: int| 0 <= q < s.len() && #[trigger] s[q].0.key_view() == x;
            crate::sorted_map::lemma_map_at(s, q);
            crate::sorted_map::lemma_map_at(t, q);
        }
    }
}

/// Clears the completed flag of every operation of one phase.
fn reset_phase_state(state: &mut PhaseState)
    requires
        old(state).operation_state.wf(),
    ensures
        final(state).operation_state.wf(),
        final(state).operation_state.map().dom() == old(state).operation_state.map().dom(),
        forall|o: ProcessOperationKind| #[trigger] old(state).operation_state.map().contains_key(o)
            ==> final(state).operation_state.map()[o] == reset_operation_state(old(state).operation_state.map()[o]),
{
    let ghost s = state.operation_state.seq();
    let n = state.operation_state.len();
    let mut j: usize = 0;
    while j < n
        invariant
            n == s.len(),
            j <= n,
            keys_increasing(s),
            state.operation_state.wf(),
            state.operation_state.seq().len() == n,
            forall|q: int| 0 <= q < n ==> (#[trigger] state.operation_state.seq()[q]).0 == s[q].0,
            forall|q: int| 0 <= q < j ==> (#[trigger] state.operation_state.seq()[q]).1 == reset_operation_state(s[q].1),
            forall|q: int| j <= q < n ==> (#[trigger] state.operation_state.seq()[q]).1 == s[q].1,
        decreases n - j,
    {
        let current = state.operation_state.entry(j).1;
        let _ = state.operation_state.set_value_at(j, ProcessOperationState { completed: false, extra: current.extra });
        j = j + 1;
    }
    proof {
        let t = state.operation_state.seq();
        assert forall|o: ProcessOperationKind| #[trigger] state.operation_state.map().contains_key(o)
            == old(state).operation_state.map().contains_key(o) by {
            if state.operation_state.map().contains_key(o) {
                let q = choose|q: int| 0 <= q < t.len() && #[trigger] t[q].0.key_view() == o;
                crate::sorted_map::lemma_map_at(s, q);
            }
            if old(state).operation_state.map().contains_key(o) {
                let q = choose|q: int| 0 <= q < s.len() && #[trigger] s[q].0.key_view() == o;
                crate::sorted_map::lemma_map_at(t, q);
            }
        }
        assert(state.operation_state.map().dom() =~= old(state).operation_state.map().dom());
        assert forall|o: ProcessOperationKind| #[trigger] old(state).operation_state.map().contains_key(o)
            implies state.operation_state.map()[o] == reset_operation_state(old(state).operation_state.map()[o]) by {
            let q = choose|q: int| 0 <= q < s.len() && #[trigger] s[q].0.key_view() == o;
            crate::sorted_map::lemma_map_at(s, q);
            crate::sorted_map::lemma_map_at(t, q);
        }
    }
}

/// Clears the completed flag of every operation of every phase.
fn reset_phase_operations(project: &mut Project)
    requires
        old(project).wf(),
    ensures
        final(project).wf(),
        *final(project) == (Project { phase_states: final(project).phase_states, ..*old(project) }),
        final(project).phase_states.map().dom() == old(project).phase_states.map().dom(),
        forall|x: Seq<char>| #[trigger] old(project).phase_states.map().contains_key(x) ==> {
            &&& final(project).phase_states.map()[x].operation_state.map().dom() == old(project).phase_states.map()[x].operation_state.map().dom()
            &&& forall|o: ProcessOperationKind| #[trigger] old(project).phase_states.map()[x].operation_state.map().contains_key(o)
                ==> final(project).phase_states.map()[x].operation_state.map()[o]
                    == reset_operation_state(old(project).phase_states.map()[x].operation_state.map()[o])
        },
{
    let ghost s = project.phase_states.seq();
    let n = project.phase_states.len();
    let mut i: usize = 0;
    while i < n
        invariant
            n == s.len(),
            i <= n,
            keys_increasing(s),
            s == old(project).phase_states.seq(),
            forall|q: int| 0 <= q < n ==> (#[trigger] s[q]).1.operation_state.wf(),
            *project == (Project { phase_states: project.phase_states, ..*old(project) }),
            project.phase_states.wf(),
            project.phase_states.seq().len() == n,
            forall|q: int| 0 <= q < n ==> (#[trigger] project.phase_states.seq()[q]).0 == s[q].0,
            forall|q: int| 0 <= q < n ==> (#[trigger] project.phase_states.seq()[q]).1.operation_state.wf(),
            forall|q: int| i <= q < n ==> (#[trigger] project.phase_states.seq()[q]).1 == s[q].1,
            forall|q: int| 0 <= q < i ==> {
                &&& (#[trigger] project.phase_states.seq()[q]).1.operation_state.map().dom() == s[q].1.operation_state.map().dom()
                &&& forall|o: ProcessOperationKind| #[trigger] s[q].1.operation_state.map().contains_key(o)
                    ==> project.phase_states.seq()[q].1.operation_state.map()[o] == reset_operation_state(s[q].1.operation_state.map()[o])
            },
        decreases n - i,
    {
        let key = project.phase_states.entry(i).0.copy();
        let placeholder = PhaseState { operation_state: SortedMap::new() };
        let ghost before = project.phase_states.seq();
        let (key0, mut phase_state) = project.phase_states.replace_entry_at(i, (key, placeholder));
        proof {
            assert(phase_state == s[i as int].1);
        }
        reset_phase_state(&mut phase_state);
        let _ = project.phase_states.replace_entry_at(i, (key0, phase_state));
        proof {
            assert(project.phase_states.seq() == before.update(i as int, (key0, phase_state)));
        }
        i = i + 1;
    }
    proof {
        let t = project.phase_states.seq();
        let om = old(project).phase_states.map();
        let nm = project.phase_states.map();
        assert forall|x: Seq<char>| #[trigger] nm.contains_key(x) == om.contains_key(x) by {
            if nm.contains_key(x) {
                let q = choose|q: int| 0 <= q < t.len() && #[trigger] t[q].0.key_view() == x;
                crate::sorted_map::lemma_map_at(s, q);
            }
            if om.contains_key(x) {
                let q = choose|q: int| 0 <= q < s.len() && #[trigger] s[q].0.key_view() == x;
                crate::sorted_map::lemma_map_at(t, q);
            }
        }
        assert(nm.dom() =~= om.dom());
        assert forall|x: Seq<char>| #[trigger] om.contains_key(x) implies {
            &&& nm[x].operation_state.map().dom() == om[x].operation_state.map().dom()
            &&& forall|o: ProcessOperationKind| #[trigger] om[x].operation_state.map().contains_key(o)
                ==> nm[x].operation_state.map()[o] == reset_operation_state(om[x].operation_state.map()[o])
        } by {
            let q = choose|q: int| 0 <= q < s.len() && #[trigger] s[q].0.key_view() == x;
            crate::sorted_map::lemma_map_at(s, q);
            crate::sorted_map::lemma_map_at(t, q);
        }
    }
}

/// Clears every placed flag and every completed flag, then refreshes the placing
/// operations from the placements.
/// `new` is `old` with its operations reset: no placement placed, and each
/// phase's operations reset and then brought up to date with its placements;
/// nothing else changed.
pub open spec fn operations_reset(old: Project, new: Project) -> bool {
    &&& new == (Project { placements: new.placements, phase_states: new.phase_states, ..old })
    &&& new.placements.map().dom() == old.placements.map().dom()
    &&& forall|x: Seq<(Seq<char>, Seq<char>)>| #[trigger] old.placements.map().contains_key(x)
        ==> new.placements.map()[x] == (PlacementState { placed: false, ..old.placements.map()[x] })
    &&& new.phase_states.map().dom() == old.phase_states.map().dom()
    &&& forall|x: Seq<char>| #[trigger] old.phase_states.map().contains_key(x) ==> {
        &&& new.phase_states.map()[x].operation_state.map().dom() == old.phase_states.map()[x].operation_state.map().dom()
        &&& forall|o: ProcessOperationKind| #[trigger] old.phase_states.map()[x].operation_state.map().contains_key(o)
            ==> new.phase_states.map()[x].operation_state.map()[o] == refreshed_operation_state(
                o,
                reset_operation_state(old.phase_states.map()[x].operation_state.map()[o]),
                phase_placement_counts(new.placements.seq(), x),
            )
    }
}

pub fn reset_operations(project: &mut Project)
    requires
        old(project).wf(),
    ensures
        final(project).wf(),
        operations_reset(*old(project), *final(project)),
{
    reset_placement_operations(project);
    reset_phase_operations(project);
    let ghost mid = project.phase_states.map();
    let _ = update_phase_operation_states(project);
    proof {
        let om = old(project).phase_states.map();
        let nm = project.phase_states.map();
        assert forall|x: Seq<char>| #[trigger] om.contains_key(x) implies {
            &&& nm[x].operation_state.map().dom() == om[x].operation_state.map().dom()
            &&& forall|o: ProcessOperationKind| #[trigger] om[x].operation_state.map().contains_key(o)
                ==> nm[x].operation_state.map()[o] == refreshed_operation_state(
                    o,
                    reset_operation_state(om[x].operation_state.map()[o]),
                    phase_placement_counts(project.placements.seq(), x),
                )
        } by {
            assert(mid.contains_key(x));
            assert forall|o: ProcessOperationKind| #[trigger] om[x].operation_state.map().contains_key(o)
                implies nm[x].operation_state.map()[o] == refreshed_operation_state(
                    o,
                    reset_operation_state(om[x].operation_state.map()[o]),
                    phase_placement_counts(project.placements.seq(), x),
                ) by {
                assert(mid[x].operation_state.map().contains_key(o));
            }
        }
    }
}

/// Whether one of the first `k` patterns matches the text.
pub open spec fn matched_by_some(patterns: Seq<Pattern>, k: int, text: Seq<char>) -> bool {
    exists|j: int| 0 <= j < k && regex_finds((#[trigger] patterns[j])@, text)
}

/// The paths that pattern `k` newly marks among the first `n` placements, in
/// order: those it matches that were neither placed nor matched by an earlier
/// pattern.
pub open spec fn pattern_marks(s: Seq<(ObjectPath, PlacementState)>, pats: Seq<Pattern>, k: int, n: int) -> Seq<Seq<(Seq<char>, Seq<char>)>>
    decreases n,
{
    if n <= 0 {
        Seq::empty()
    } else {
        let rest = pattern_marks(s, pats, k, n - 1);
        let q = n - 1;
        if regex_finds(pats[k]@, format_path(s[q].0@)) && !s[q].1.placed && !matched_by_some(pats, k, format_path(s[q].0@)) {
            rest.push(s[q].0@)
        } else {
            rest
        }
    }
}

/// The paths the first `k` patterns newly mark, pattern by pattern.
pub open spec fn newly_placed(s: Seq<(ObjectPath, PlacementState)>, pats: Seq<Pattern>, k: int) -> Seq<Seq<(Seq<char>, Seq<char>)>>
    decreases k,
{
    if k <= 0 {
        Seq::empty()
    } else {
        newly_placed(s, pats, k - 1) + pattern_marks(s, pats, k - 1, s.len() as int)
    }
}

/// The paths of placements, in order.
pub open spec fn placed_paths(r: Seq<(ObjectPath, Option<Reference>)>) -> Seq<Seq<(Seq<char>, Seq<char>)>> {
    r.map_values(|e: (ObjectPath, Option<Reference>)| e.0@)
}

/// Marks as placed every placement whose path matches one of the patterns; returns
/// the placements newly marked, each with its phase, pattern by pattern and in
/// path order for each pattern. Where one was marked, the
/// operation states of the phases are refreshed from the placements.
#[verifier::rlimit(50)]
pub fn update_placements_operation(project: &mut Project, object_path_patterns: &Vec<Pattern>, operation: PlacementOperation) -> (r: Vec<(ObjectPath, Option<Reference>)>)
    requires
        old(project).wf(),
    ensures
        final(project).wf(),
        *final(project) == (Project { placements: final(project).placements, phase_states: final(project).phase_states, ..*old(project) }),
        final(project).placements.map().dom() == old(project).placements.map().dom(),
        forall|x: Seq<(Seq<char>, Seq<char>)>| #[trigger] old(project).placements.map().contains_key(x) ==> final(project).placements.map()[x] == (PlacementState {
            placed: old(project).placements.map()[x].placed || matched_by_some(object_path_patterns@, object_path_patterns@.len() as int, format_path(x)),
            ..old(project).placements.map()[x]
        }),
        forall|e: int| 0 <= e < r@.len() ==> {
            let x = (#[trigger] r@[e]).0@;
            &&& old(project).placements.map().contains_key(x)
            &&& !old(project).placements.map()[x].placed
            &&& matched_by_some(object_path_patterns@, object_path_patterns@.len() as int, format_path(x))
            &&& r@[e].1 is Some == old(project).placements.map()[x].phase is Some
            &&& r@[e].1 is Some ==> r@[e].1->0@ == old(project).placements.map()[x].phase->0@
        },
        forall|x: Seq<(Seq<char>, Seq<char>)>| #[trigger] old(project).placements.map().contains_key(x)
            && !old(project).placements.map()[x].placed
            && matched_by_some(object_path_patterns@, object_path_patterns@.len() as int, format_path(x))
            ==> exists|e: int| 0 <= e < r@.len() && (#[trigger] r@[e]).0@ == x,
        placed_paths(r@) == newly_placed(old(project).placements.seq(), object_path_patterns@, object_path_patterns@.len() as int),
        r@.len() == 0 ==> final(project).phase_states == old(project).phase_states,
        r@.len() > 0 ==> phase_states_refreshed(old(project).phase_states.map(), final(project).phase_states.map(), final(project).placements.seq()),
{
    let _ = operation;
    let ghost s = project.placements.seq();
    let ghost pats = object_path_patterns@;
    let n = project.placements.len();
    let mut placed_now: Vec<(ObjectPath, Option<Reference>)> = Vec::new();
    let mut k: usize = 0;
    while k < object_path_patterns.len()
        invariant
            n == s.len(),
            k <= pats.len(),
            pats == object_path_patterns@,
            keys_increasing(s),
            s == old(project).placements.seq(),
            *project == (Project { placements: project.placements, ..*old(project) }),
            project.placements.wf(),
            project.placements.seq().len() == n,
            forall|q: int| 0 <= q < n ==> (#[trigger] project.placements.seq()[q]).0 == s[q].0,
            forall|q: int| 0 <= q < n ==> (#[trigger] project.placements.seq()[q]).1 == (PlacementState {
                placed: s[q].1.placed || matched_by_some(pats, k as int, format_path(s[q].0@)),
                ..s[q].1
            }),
            forall|e: int| 0 <= e < placed_now@.len() ==> exists|q: int| 0 <= q < n && {
                &&& (#[trigger] placed_now@[e]).0@ == s[q].0@
                &&& !s[q].1.placed
                &&& matched_by_some(pats, k as int, format_path(s[q].0@))
                &&& placed_now@[e].1 is Some == s[q].1.phase is Some
                &&& placed_now@[e].1 is Some ==> placed_now@[e].1->0@ == s[q].1.phase->0@
            },
            forall|q: int| 0 <= q < n && !(#[trigger] s[q]).1.placed && matched_by_some(pats, k as int, format_path(s[q].0@))
                ==> exists|e: int| 0 <= e < placed_now@.len() && (#[trigger] placed_now@[e]).0@ == s[q].0@,
            placed_paths(placed_now@) == newly_placed(s, pats, k as int),
        decreases pats.len() - k,
    {
        let pattern = &object_path_patterns[k];
        let mut i: usize = 0;
        while i < n
            invariant
                n == s.len(),
                k < pats.len(),
                i <= n,
                pats == object_path_patterns@,
                *pattern == pats[k as int],
                keys_increasing(s),
                s == old(project).placements.seq(),
                *project == (Project { placements: project.placements, ..*old(project) }),
                project.placements.wf(),
                project.placements.seq().len() == n,
                forall|q: int| 0 <= q < n ==> (#[trigger] project.placements.seq()[q]).0 == s[q].0,
                forall|q: int| 0 <= q < i ==> (#[trigger] project.placements.seq()[q]).1 == (PlacementState {
                    placed: s[q].1.placed || matched_by_some(pats, k + 1, format_path(s[q].0@)),
                    ..s[q].1
                }),
                forall|q: int| i <= q < n ==> (#[trigger] project.placements.seq()[q]).1 == (PlacementState {
                    placed: s[q].1.placed || matched_by_some(pats, k as int, format_path(s[q].0@)),
                    ..s[q].1
                }),
                forall|e: int| 0 <= e < placed_now@.len() ==> exists|q: int| 0 <= q < n && {
                    &&& (#[trigger] placed_now@[e]).0@ == s[q].0@
                    &&& !s[q].1.placed
                    &&& matched_by_some(pats, k + 1, format_path(s[q].0@))
                    &&& placed_now@[e].1 is Some == s[q].1.phase is Some
                    &&& placed_now@[e].1 is Some ==> placed_now@[e].1->0@ == s[q].1.phase->0@
                },
                forall|q: int| 0 <= q < n && !(#[trigger] s[q]).1.placed && (matched_by_some(pats, k as int, format_path(s[q].0@)) || (q < i
                    && regex_finds(pats[k as int]@, format_path(s[q].0@))))
                    ==> exists|e: int| 0 <= e < placed_now@.len() && (#[trigger] placed_now@[e]).0@ == s[q].0@,
                placed_paths(placed_now@) == newly_placed(s, pats, k as int) + pattern_marks(s, pats, k as int, i as int),
            decreases n - i,
        {
            let path_text = project.placements.entry(i).0.to_string();
            let matched = pattern.is_match(path_text.as_str());
            proof {
                assert(matched_by_some(pats, k as int, format_path(s[i as int].0@)) ==> matched_by_some(pats, k + 1, format_path(s[i as int].0@)));
                if matched {
                    assert(regex_finds(pats[k as int]@, format_path(s[i as int].0@)));
                    assert(matched_by_some(pats, k + 1, format_path(s[i as int].0@)));
                }
            }
            let ghost list_before = placed_now@;
            proof {
                assert(pattern_marks(s, pats, k as int, i + 1) == if regex_finds(pats[k as int]@, format_path(s[i as int].0@))
                    && !s[i as int].1.placed && !matched_by_some(pats, k as int, format_path(s[i as int].0@)) {
                    pattern_marks(s, pats, k as int, i as int).push(s[i as int].0@)
                } else {
                    pattern_marks(s, pats, k as int, i as int)
                });
            }
            if matched && !project.placements.entry(i).1.placed {
                let path = project.placements.entry(i).0.copy();
                let phase = match &project.placements.entry(i).1.phase {
                    Some(p) => Some(p.copy()),
                    None => None,
                };
                set_placed_at(&mut project.placements, i, true);
                placed_now.push((path, phase));
                proof {
                    let e = placed_now@.len() - 1;
                    assert(placed_now@[e].0@ == s[i as int].0@);
                    assert(placed_paths(placed_now@) =~= placed_paths(list_before).push(s[i as int].0@));
                }
            }
            proof {
                assert forall|q: int| 0 <= q < n && !(#[trigger] s[q]).1.placed && (matched_by_some(pats, k as int, format_path(s[q].0@)) || (q < i + 1
                    && regex_finds(pats[k as int]@, format_path(s[q].0@))))
                    implies exists|e: int| 0 <= e < placed_now@.len() && (#[trigger] placed_now@[e]).0@ == s[q].0@ by {
                    if q == i && matched && !matched_by_some(pats, k as int, format_path(s[q].0@)) {
                        let e = placed_now@.len() - 1;
                        assert(placed_now@[e].0@ == s[q].0@);
                    } else {
                        let e = choose|e: int| 0 <= e < list_before.len() && (#[trigger] list_before[e]).0@ == s[q].0@;
                        assert(placed_now@[e] == list_before[e]);
                    }
                }
                assert forall|q: int| 0 <= q < i + 1 implies (#[trigger] project.placements.seq()[q]).1 == (PlacementState {
                    placed: s[q].1.placed || matched_by_some(pats, k + 1, format_path(s[q].0@)),
                    ..s[q].1
                }) by {
                    if q == i && !matched {
                        if matched_by_some(pats, k + 1, format_path(s[q].0@)) {
                            let j = choose|j: int| 0 <= j < k + 1 && regex_finds((#[trigger] pats[j])@, format_path(s[q].0@));
                            assert(j < k);
                        }
                    }
                }
            }
            i = i + 1;
        }
        proof {
            assert forall|q: int| 0 <= q < n implies (#[trigger] project.placements.seq()[q]).1 == (PlacementState {
                placed: s[q].1.placed || matched_by_some(pats, k + 1, format_path(s[q].0@)),
                ..s[q].1
            }) by {
            }
            assert forall|q: int| 0 <= q < n && !(#[trigger] s[q]).1.placed && matched_by_some(pats, k + 1, format_path(s[q].0@))
                implies exists|e: int| 0 <= e < placed_now@.len() && (#[trigger] placed_now@[e]).0@ == s[q].0@ by {
                let j = choose|j: int| 0 <= j < k + 1 && regex_finds((#[trigger] pats[j])@, format_path(s[q].0@));
                if j < k {
                    assert(matched_by_some(pats, k as int, format_path(s[q].0@)));
                }
            }
        }
        k = k + 1;
    }
    let ghost mid = project.placements.seq();
    proof {
        let t = project.placements.seq();
        let om = old(project).placements.map();
        let nm = project.placements.map();
        let kk = pats.len() as int;
        assert forall|x: Seq<(Seq<char>, Seq<char>)>| #[trigger] nm.contains_key(x) == om.contains_key(x) by {
            if nm.contains_key(x) {
                let q = choose|q: int| 0 <= q < t.len() && #[trigger] t[q].0.key_view() == x;
                crate::sorted_map::lemma_map_at(s, q);
            }
            if om.contains_key(x) {
                let q = choose|q: int| 0 <= q < s.len() && #[trigger] s[q].0.key_view() == x;
                crate::sorted_map::lemma_map_at(t, q);
            }
        }
        assert(nm.dom() =~= om.dom());
        assert forall|x: Seq<(Seq<char>, Seq<char>)>| #[trigger] om.contains_key(x)
            implies nm[x] == (PlacementState { placed: om[x].placed || matched_by_some(pats, kk, format_path(x)), ..om[x] }) by {
            let q = choose|q: int| 0 <= q < s.len() && #[trigger] s[q].0.key_view() == x;
            crate::sorted_map::lemma_map_at(s, q);
            crate::sorted_map::lemma_map_at(t, q);
        }
        assert forall|e: int| 0 <= e < placed_now@.len() implies {
            let x = (#[trigger] placed_now@[e]).0@;
            &&& om.contains_key(x)
            &&& !om[x].placed
            &&& matched_by_some(pats, kk, format_path(x))
            &&& placed_now@[e].1 is Some == om[x].phase is Some
            &&& placed_now@[e].1 is Some ==> placed_now@[e].1->0@ == om[x].phase->0@
        } by {
            let q = choose|q: int| 0 <= q < n && {
                &&& (#[trigger] placed_now@[e]).0@ == s[q].0@
                &&& !s[q].1.placed
                &&& matched_by_some(pats, kk, format_path(s[q].0@))
                &&& placed_now@[e].1 is Some == s[q].1.phase is Some
                &&& placed_now@[e].1 is Some ==> placed_now@[e].1->0@ == s[q].1.phase->0@
            };
            crate::sorted_map::lemma_map_at(s, q);
        }
        assert forall|x: Seq<(Seq<char>, Seq<char>)>| #[trigger] om.contains_key(x) && !om[x].placed
            && matched_by_some(pats, kk, format_path(x))
            implies exists|e: int| 0 <= e < placed_now@.len() && (#[trigger] placed_now@[e]).0@ == x by {
            let q = choose|q: int| 0 <= q < s.len() && #[trigger] s[q].0.key_view() == x;
            crate::sorted_map::lemma_map_at(s, q);
        }
    }
    if placed_now.len() > 0 {
        let _ = update_phase_operation_states(project);
    }
    placed_now
}

/// Whether both patterns select a part: the manufacturer pattern its
/// manufacturer, the part-number pattern its part number.
pub open spec fn part_selected(manufacturer_pattern: Seq<char>, mpn_pattern: Seq<char>, part: (Seq<char>, Seq<char>)) -> bool {
    regex_finds(manufacturer_pattern, part.0) && regex_finds(mpn_pattern, part.1)
}

/// Adds the process to the parts that both patterns select. The parts given must
/// be exactly the parts the project knows (each known, and none other known).
pub fn update_applicable_processes(project: &mut Project, all_parts: &[Part], process: Process, manufacturer_pattern: &Pattern, mpn_pattern: &Pattern)
    requires
        old(project).wf(),
        forall|j: int| 0 <= j < all_parts@.len() ==> old(project).part_states.map().contains_key((#[trigger] all_parts@[j])@),
        forall|x: (Seq<char>, Seq<char>)| #[trigger] old(project).part_states.map().contains_key(x) ==> part_views(all_parts@).contains(x),
    ensures
        final(project).wf(),
        *final(project) == (Project { part_states: final(project).part_states, ..*old(project) }),
        final(project).part_states.map().dom() == old(project).part_states.map().dom(),
        forall|x: (Seq<char>, Seq<char>)| #[trigger] old(project).part_states.map().contains_key(x) ==> {
            if part_selected(manufacturer_pattern@, mpn_pattern@, x) {
                final(project).part_states.map()[x].applicable_processes.map()
                    == old(project).part_states.map()[x].applicable_processes.map().insert(process.name@, ())
            } else {
                final(project).part_states.map()[x] == old(project).part_states.map()[x]
            }
        },
{
    let ghost s = project.part_states.seq();
    let n = project.part_states.len();
    let mut i: usize = 0;
    while i < n
        invariant
            n == s.len(),
            i <= n,
            keys_increasing(s),
            s == old(project).part_states.seq(),
            forall|q: int| 0 <= q < n ==> (#[trigger] s[q]).1.applicable_processes.wf(),
            *project == (Project { part_states: project.part_states, ..*old(project) }),
            project.part_states.wf(),
            project.part_states.seq().len() == n,
            forall|q: int| 0 <= q < n ==> (#[trigger] project.part_states.seq()[q]).0 == s[q].0,
            forall|q: int| 0 <= q < n ==> (#[trigger] project.part_states.seq()[q]).1.applicable_processes.wf(),
            forall|q: int| i <= q < n ==> (#[trigger] project.part_states.seq()[q]).1 == s[q].1,
            forall|q: int| 0 <= q < i ==> {
                if part_selected(manufacturer_pattern@, mpn_pattern@, s[q].0@) {
                    (#[trigger] project.part_states.seq()[q]).1.applicable_processes.map() == s[q].1.applicable_processes.map().insert(process.name@, ())
                } else {
                    project.part_states.seq()[q].1 == s[q].1
                }
            },
        decreases n - i,
    {
        let selected = manufacturer_pattern.is_match(project.part_states.entry(i).0.manufacturer.as_str())
            && mpn_pattern.is_match(project.part_states.entry(i).0.mpn.as_str());
        if selected {
            let key = project.part_states.entry(i).0.copy();
            let ghost before = project.part_states.seq();
            let (key0, mut part_state) = project.part_states.replace_entry_at(i, (key, PartState::new()));
            proof {
                assert(part_state == s[i as int].1);
            }
            add_process_to_part(&mut part_state, &key0, process.name.copy());
            let _ = project.part_states.replace_entry_at(i, (key0, part_state));
            proof {
                assert(project.part_states.seq() == before.update(i as int, (key0, part_state)));
            }
        }
        i = i + 1;
    }
    proof {
        let t = project.part_states.seq();
        let om = old(project).part_states.map();
        let nm = project.part_states.map();
        assert forall|x: (Seq<char>, Seq<char>)| #[trigger] nm.contains_key(x) == om.contains_key(x) by {
            if nm.contains_key(x) {
                let q = choose|q: int| 0 <= q < t.len() && #[trigger] t[q].0.key_view() == x;
                crate::sorted_map::lemma_map_at(s, q);
            }
            if om.contains_key(x) {
                let q = choose|q: int| 0 <= q < s.len() && #[trigger] s[q].0.key_view() == x;
                crate::sorted_map::lemma_map_at(t, q);
            }
        }
        assert(nm.dom() =~= om.dom());
        assert forall|x: (Seq<char>, Seq<char>)| #[trigger] om.contains_key(x) implies {
            if part_selected(manufacturer_pattern@, mpn_pattern@, x) {
                nm[x].applicable_processes.map() == om[x].applicable_processes.map().insert(process.name@, ())
            } else {
                nm[x] == om[x]
            }
        } by {
            let q = choose|q: int| 0 <= q < s.len() && #[trigger] s[q].0.key_view() == x;
            crate::sorted_map::lemma_map_at(s, q);
            crate::sorted_map::lemma_map_at(t, q);
        }
    }
}

/// The error of an operation on the state of a part the project does not know.
#[derive(Debug, Clone, PartialEq, Eq)]
pub enum PartStateError {
    NoPartStateFound { part: Part },
}

/// Adds the process of a phase to each of the parts, which must all be known:
/// otherwise the first part, in order, that has no state is refused and the
/// project is left unchanged.
pub fn add_process_to_parts(project: &mut Project, parts: &SortedMap<Part, ()>, process: &ProcessName) -> (r: Result<(), PartStateError>)
    requires
        old(project).wf(),
        parts.wf(),
    ensures
        final(project).wf(),
        *final(project) == (Project { part_states: final(project).part_states, ..*old(project) }),
        match r {
            Ok(()) => {
                &&& forall|k: int| 0 <= k < parts.seq().len() ==> old(project).part_states.map().contains_key((#[trigger] parts.seq()[k]).0@)
                &&& final(project).part_states.map().dom() == old(project).part_states.map().dom()
                &&& forall|x: (Seq<char>, Seq<char>)| #[trigger] old(project).part_states.map().contains_key(x) ==> {
                    if parts.map().contains_key(x) {
                        final(project).part_states.map()[x].applicable_processes.map()
                            == old(project).part_states.map()[x].applicable_processes.map().insert(process@, ())
                    } else {
                        final(project).part_states.map()[x] == old(project).part_states.map()[x]
                    }
                }
            },
            Err(PartStateError::NoPartStateFound { part }) => {
                &&& exists|k: int| 0 <= k < parts.seq().len() && (#[trigger] parts.seq()[k]).0@ == part@
                    && !old(project).part_states.map().contains_key(part@)
                    && forall|j: int| 0 <= j < k ==> old(project).part_states.map().contains_key((#[trigger] parts.seq()[j]).0@)
                &&& *final(project) == *old(project)
            },
        },
{
    let mut k: usize = 0;
    while k < parts.len()
        invariant
            k <= parts.seq().len(),
            *project == *old(project),
            project.wf(),
            forall|j: int| 0 <= j < k ==> project.part_states.map().contains_key((#[trigger] parts.seq()[j]).0@),
        decreases parts.seq().len() - k,
    {
        let part = &parts.entry(k).0;
        if !project.part_states.contains_key(part) {
            return Err(PartStateError::NoPartStateFound { part: part.copy() });
        }
        k = k + 1;
    }
    let ghost s = project.part_states.seq();
    let n = project.part_states.len();
    let mut i: usize = 0;
    while i < n
        invariant
            n == s.len(),
            i <= n,
            keys_increasing(s),
            parts.wf(),
            s == old(project).part_states.seq(),
            forall|q: int| 0 <= q < n ==> (#[trigger] s[q]).1.applicable_processes.wf(),
            *project == (Project { part_states: project.part_states, ..*old(project) }),
            project.part_states.wf(),
            project.part_states.seq().len() == n,
            forall|q: int| 0 <= q < n ==> (#[trigger] project.part_states.seq()[q]).0 == s[q].0,
            forall|q: int| 0 <= q < n ==> (#[trigger] project.part_states.seq()[q]).1.applicable_processes.wf(),
            forall|q: int| i <= q < n ==> (#[trigger] project.part_states.seq()[q]).1 == s[q].1,
            forall|q: int| 0 <= q < i ==> {
                if parts.map().contains_key(s[q].0@) {
                    (#[trigger] project.part_states.seq()[q]).1.applicable_processes.map() == s[q].1.applicable_processes.map().insert(process@, ())
                } else {
                    project.part_states.seq()[q].1 == s[q].1
                }
            },
        decreases n - i,
    {
        let selected = parts.contains_key(&project.part_states.entry(i).0);
        if selected {
            let key = project.part_states.entry(i).0.copy();
            let ghost before = project.part_states.seq();
            let (key0, mut part_state) = project.part_states.replace_entry_at(i, (key, PartState::new()));
            proof {
                assert(part_state == s[i as int].1);
            }
            add_process_to_part(&mut part_state, &key0, process.copy());
            let _ = project.part_states.replace_entry_at(i, (key0, part_state));
            proof {
                assert(project.part_states.seq() == before.update(i as int, (key0, part_state)));
            }
        }
        i = i + 1;
    }
    proof {
        let t = project.part_states.seq();
        let om = old(project).part_states.map();
        let nm = project.part_states.map();
        assert forall|x: (Seq<char>, Seq<char>)| #[trigger] nm.contains_key(x) == om.contains_key(x) by {
            if nm.contains_key(x) {
                let q = choose|q: int| 0 <= q < t.len() && #[trigger] t[q].0.key_view() == x;
                crate::sorted_map::lemma_map_at(s, q);
            }
            if om.contains_key(x) {
                let q = choose|q: int| 0 <= q < s.len() && #[trigger] s[q].0.key_view() == x;
                crate::sorted_map::lemma_map_at(t, q);
            }
        }
        assert(nm.dom() =~= om.dom());
        assert forall|x: (Seq<char>, Seq<char>)| #[trigger] om.contains_key(x) implies {
            if parts.map().contains_key(x) {
                nm[x].applicable_processes.map() == om[x].applicable_processes.map().insert(process@, ())
            } else {
                nm[x] == om[x]
            }
        } by {
            let q = choose|q: int| 0 <= q < s.len() && #[trigger] s[q].0.key_view() == x;
            crate::sorted_map::lemma_map_at(s, q);
            crate::sorted_map::lemma_map_at(t, q);
        }
    }
    Ok(())
}

/// The design variants of the unit assignments, in unit order.
pub open spec fn assigned_design_variants(s: Seq<(ObjectPath, DesignVariant)>) -> Seq<(Seq<char>, Seq<char>)> {
    s.map_values(|e: (ObjectPath, DesignVariant)| e.1@)
}

/// The design variants, as values.
pub open spec fn design_variant_views(s: Seq<DesignVariant>) -> Seq<(Seq<char>, Seq<char>)> {
    s.map_values(|d: DesignVariant| d@)
}

/// Each design variant of the unit assignments once, in the order of its first
/// assignment.
pub fn build_unique_design_variants(project: &Project) -> (r: Vec<DesignVariant>)
    ensures
        design_variant_views(r@) == assigned_design_variants(project.unit_assignments.seq()).remove_duplicates(seq![]),
{
    let ghost a = assigned_design_variants(project.unit_assignments.seq());
    let mut r: Vec<DesignVariant> = Vec::new();
    let n = project.unit_assignments.len();
    let mut k: usize = 0;
    proof {
        assert(a.take(0) =~= Seq::<(Seq<char>, Seq<char>)>::empty());
        assert(design_variant_views(r@) =~= a.take(0).remove_duplicates(seq![]));
    }
    while k < n
        invariant
            n == a.len(),
            k <= n,
            a == assigned_design_variants(project.unit_assignments.seq()),
            design_variant_views(r@) == a.take(k as int).remove_duplicates(seq![]),
        decreases n - k,
    {
        let dv = &project.unit_assignments.entry(k).1;
        proof {
            assert(a[k as int] == dv@);
            assert(a.take(k + 1) =~= a.take(k as int) + seq![dv@]);
            a.take(k as int).lemma_remove_duplicates_append(dv@, seq![]);
            a.take(k as int).lemma_remove_duplicates_properties(seq![]);
            assert(a.take(k as int) + seq![] =~= a.take(k as int));
        }
        let mut found = false;
        let mut j: usize = 0;
        while j < r.len()
            invariant
                j <= r@.len(),
                !found ==> forall|q: int| 0 <= q < j ==> (#[trigger] r@[q])@ != dv@,
                found ==> design_variant_views(r@).contains(dv@),
            decreases r@.len() - j,
        {
            if r[j].equals(dv) {
                assert(design_variant_views(r@)[j as int] == dv@);
                found = true;
            }
            j = j + 1;
        }
        if !found {
            proof {
                assert forall|q: int| 0 <= q < design_variant_views(r@).len() implies #[trigger] design_variant_views(r@)[q] != dv@ by {
                    assert(design_variant_views(r@)[q] == r@[q]@);
                }
            }
            let ghost before = r@;
            r.push(dv.copy());
            proof {
                assert(design_variant_views(r@) =~= design_variant_views(before) + seq![dv@]);
                assert(!design_variant_views(before).contains(dv@));
                assert(!a.take(k as int).remove_duplicates(seq![]).contains(dv@));
                assert(!(a.take(k as int) + seq![]).contains(dv@));
                assert(design_variant_views(r@) == a.take(k + 1).remove_duplicates(seq![]));
            }
        } else {
            proof {
                assert((a.take(k as int) + seq![]).contains(dv@));
                assert(design_variant_views(r@) == a.take(k + 1).remove_duplicates(seq![]));
            }
        }
        k = k + 1;
    }
    proof {
        assert(a.take(n as int) =~= a);
    }
    r
}

/// The file name of a project's file.
pub open spec fn project_file_name(name: Seq<char>) -> Seq<char> {
    "project-"@ + name + ".mpnp.json"@
}

/// A file name placed in a directory, as a path is extended by one component
/// on a unix system: an absolute name (one that starts with `/`) replaces the
/// directory; otherwise the name alone in an empty directory path, else after
/// a `/` unless the directory path already ends with one.
pub open spec fn path_in_directory(directory: Seq<char>, file: Seq<char>) -> Seq<char> {
    if file.len() > 0 && file[0] == '/' {
        file
    } else if directory.len() == 0 {
        file
    } else if directory.last() == '/' {
        directory + file
    } else {
        directory + "/"@ + file
    }
}

/// Places a file name in a directory (see `path_in_directory`).
pub fn push_file_name(directory: &str, file: &str) -> (r: String)
    ensures
        r@ == path_in_directory(directory@, file@),
{
    proof {
        reveal_strlit("/");
    }
    let file_chars = crate::text::chars_of(file);
    let mut out: Vec<char> = Vec::new();
    if file_chars.len() > 0 && file_chars[0] == '/' {
        push_str(&mut out, file);
        let r = string_from_chars(out);
        proof {
            assert(file@[0] == file_chars@[0]);
            assert(r@ =~= path_in_directory(directory@, file@));
        }
        return r;
    }
    push_str(&mut out, directory);
    let chars = crate::text::chars_of(directory);
    if chars.len() > 0 && chars[chars.len() - 1] != '/' {
        push_str(&mut out, "/");
    }
    push_str(&mut out, file);
    let r = string_from_chars(out);
    proof {
        if directory@.len() > 0 {
            assert(directory@.last() == chars@[chars@.len() - 1]);
        }
        if file@.len() > 0 {
            assert(file@[0] == file_chars@[0]);
        }
        assert(r@ =~= path_in_directory(directory@, file@));
    }
    r
}

/// The path of a project's file in a directory: `project-<name>.mpnp.json`.
pub fn build_project_file_path(name: &str, path: &str) -> (r: String)
    ensures
        r@ == path_in_directory(path@, project_file_name(name@)),
{
    proof {
        reveal_strlit("project-");
        reveal_strlit(".mpnp.json");
    }
    let mut file: Vec<char> = Vec::new();
    push_str(&mut file, "project-");
    push_str(&mut file, name);
    push_str(&mut file, ".mpnp.json");
    let file_name = string_from_chars(file);
    assert(file_name@ =~= project_file_name(name@));
    push_file_name(path, file_name.as_str())
}

} // verus!
