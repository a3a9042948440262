//! The planning state of a part.
use vstd::prelude::*;
use crate::planning::process::ProcessName;
use crate::sorted_map::SortedMap;

verus! {

/// The processes that apply to a part, as an ordered set.
#[derive(Debug, Clone, PartialEq, Eq)]
pub struct PartState {
    pub applicable_processes: SortedMap<ProcessName, ()>,
}

impl PartState {
    /// The state of a part with no applicable processes (`Default`).
    pub fn new() -> (r: PartState)
        ensures
            r.applicable_processes.wf(),
            r.applicable_processes.seq().len() == 0,
            r.applicable_processes.map() == Map::<Seq<char>, ()>::empty(),
    {
        PartState { applicable_processes: SortedMap::new() }
    }
}

} // verus!
