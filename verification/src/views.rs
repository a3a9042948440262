//! The paths and file filters of the planner's views.
use vstd::prelude::*;
use crate::pattern::{Pattern, regex_compiles, regex_captures, captures_view};
use crate::planning::reference::Reference;
use crate::text::{str_eq, parse_usize, usize_of};
use crate::text::{split_str, split_spec, views_of, push_str, string_from_chars, occurs_in, lemma_split_pieces,
    lemma_split_after_leading_sep};

verus! {

/// Why a file is being picked.
#[derive(Debug, Clone, Copy, PartialEq, Eq, Structural)]
pub enum PickReason {
    PcbFile,
    ProjectFile,
}

impl PickReason {
    /// The file name pattern of the files to pick.
    pub fn file_filter(self) -> (r: &'static str)
        ensures
            r@ == match self {
                PickReason::ProjectFile => "*.project.json"@,
                PickReason::PcbFile => "*.pcb.json"@,
            },
    {
        match self {
            PickReason::ProjectFile => "*.project.json",
            PickReason::PcbFile => "*.pcb.json",
        }
    }
}

/// The navigation path of a project view: `/project` before the view's path.
pub fn project_path_from_view_path(view_path: &String) -> (r: String)
    ensures
        r@ == "/project"@ + view_path@,
{
    proof {
        reveal_strlit("/project");
    }
    let mut out: Vec<char> = Vec::new();
    push_str(&mut out, "/project");
    push_str(&mut out, view_path.as_str());
    let r = string_from_chars(out);
    assert(r@ =~= "/project"@ + view_path@);
    r
}

/// The view path of a navigation path: the text between the first and the second
/// occurrence of `/project`; none where `/project` does not occur.
pub fn view_path_from_project_path(project_path: &String) -> (r: Option<String>)
    ensures
        match r {
            Some(v) => split_spec(project_path@, "/project"@).len() > 1 && v@ == split_spec(project_path@, "/project"@)[1],
            None => split_spec(project_path@, "/project"@).len() <= 1,
        },
        (r is None) == !occurs_in(project_path@, "/project"@),
{
    proof {
        reveal_strlit("/project");
        lemma_split_pieces(project_path@, "/project"@);
    }
    let pieces = split_str(project_path.as_str(), "/project");
    if pieces.len() > 1 {
        proof {
            assert(views_of(pieces@)[1] == pieces@[1]@);
        }
        Some(pieces[1].clone())
    } else {
        None
    }
}

/// The view of a project that a navigation path selects.
#[derive(Debug)]
pub enum ProjectViewCommand {
    ShowOverview,
    ShowIssues,
    ShowParts,
    ShowPcb(u16),
    ShowPhase(Reference),
    ShowPhaseLoadout { phase: Reference },
    RefreshPhases,
    ShowPlacements,
    ShowProcess(Reference),
    ShowPcbUnitAssignments(u16),
}

/// The abstract value of a view command.
pub enum ProjectViewCommandView {
    ShowOverview,
    ShowIssues,
    ShowParts,
    ShowPcb(u16),
    ShowPhase(Seq<char>),
    ShowPhaseLoadout(Seq<char>),
    RefreshPhases,
    ShowPlacements,
    ShowProcess(Seq<char>),
    ShowPcbUnitAssignments(u16),
}

impl View for ProjectViewCommand {
    type V = ProjectViewCommandView;

    open spec fn view(&self) -> ProjectViewCommandView {
        match self {
            ProjectViewCommand::ShowOverview => ProjectViewCommandView::ShowOverview,
            ProjectViewCommand::ShowIssues => ProjectViewCommandView::ShowIssues,
            ProjectViewCommand::ShowParts => ProjectViewCommandView::ShowParts,
            ProjectViewCommand::ShowPcb(i) => ProjectViewCommandView::ShowPcb(*i),
            ProjectViewCommand::ShowPhase(r) => ProjectViewCommandView::ShowPhase(r@),
            ProjectViewCommand::ShowPhaseLoadout { phase } => ProjectViewCommandView::ShowPhaseLoadout(phase@),
            ProjectViewCommand::RefreshPhases => ProjectViewCommandView::RefreshPhases,
            ProjectViewCommand::ShowPlacements => ProjectViewCommandView::ShowPlacements,
            ProjectViewCommand::ShowProcess(r) => ProjectViewCommandView::ShowProcess(r@),
            ProjectViewCommand::ShowPcbUnitAssignments(i) => ProjectViewCommandView::ShowPcbUnitAssignments(*i),
        }
    }
}

/// The optional view command, as its abstract value.
pub open spec fn view_command_view(c: Option<ProjectViewCommand>) -> Option<ProjectViewCommandView> {
    match c {
        Some(v) => Some(v@),
        None => None,
    }
}

/// The pattern of a phase's path; its group 1 is the phase.
pub open spec fn phase_path_pattern() -> Seq<char> {
    "^/project/phases/(?<phase>[^/]*){1}$"@
}

/// The pattern of a phase's load-out path; its group 1 is the phase.
pub open spec fn phase_loadout_path_pattern() -> Seq<char> {
    "^/project/phases/(?<phase>[^/]*){1}/loadout$"@
}

/// The pattern of a pcb's path; its group 1 is the pcb's index.
pub open spec fn pcb_path_pattern() -> Seq<char> {
    "^/project/pcbs/(?<pcb>[0-9]?){1}$"@
}

/// The pattern of the paths of a pcb's units; its group 1 is the pcb's index.
pub open spec fn pcb_unit_path_pattern() -> Seq<char> {
    "^/project/pcbs/(?<pcb>[0-9]?){1}/units(?:.*)?$"@
}

/// The pattern of a process's path; its group 1 is the process.
pub open spec fn process_path_pattern() -> Seq<char> {
    "^/project/processes/(?<process>[^/]*){1}$"@
}

/// The text of group 1 of the pattern's match in the path, where the pattern
/// compiles, matches, and the group took part in the match.
pub open spec fn captured_group(pattern: Seq<char>, path: Seq<char>) -> Option<Seq<char>> {
    if regex_compiles(pattern) {
        match regex_captures(pattern, path) {
            Some(groups) => if groups.len() > 1 {
                groups[1]
            } else {
                None
            },
            None => None,
        }
    } else {
        None
    }
}

/// The number a text denotes, as `u16::from_str` reads it.
pub open spec fn u16_of(s: Seq<char>) -> Option<u16> {
    match usize_of(s) {
        Some(v) => if v <= u16::MAX {
            Some(v as u16)
        } else {
            None
        },
        None => None,
    }
}

/// The view a navigation path selects: the first of these that applies, in this
/// order: the overview (`/project/`), the issues, the parts, a pcb, a phase, a
/// phase's load-out, the phases, the placements, a process, a pcb's units. A pcb
/// path whose index is not a number selects nothing.
pub open spec fn project_view_spec(path: Seq<char>) -> Option<ProjectViewCommandView> {
    if path == "/project/"@ {
        Some(ProjectViewCommandView::ShowOverview)
    } else if path == "/project/issues"@ {
        Some(ProjectViewCommandView::ShowIssues)
    } else if path == "/project/parts"@ {
        Some(ProjectViewCommandView::ShowParts)
    } else if captured_group(pcb_path_pattern(), path) is Some {
        match u16_of(captured_group(pcb_path_pattern(), path)->0) {
            Some(i) => Some(ProjectViewCommandView::ShowPcb(i)),
            None => None,
        }
    } else if captured_group(phase_path_pattern(), path) is Some {
        Some(ProjectViewCommandView::ShowPhase(captured_group(phase_path_pattern(), path)->0))
    } else if captured_group(phase_loadout_path_pattern(), path) is Some {
        Some(ProjectViewCommandView::ShowPhaseLoadout(captured_group(phase_loadout_path_pattern(), path)->0))
    } else if path == "/project/phases"@ {
        Some(ProjectViewCommandView::RefreshPhases)
    } else if path == "/project/placements"@ {
        Some(ProjectViewCommandView::ShowPlacements)
    } else if captured_group(process_path_pattern(), path) is Some {
        Some(ProjectViewCommandView::ShowProcess(captured_group(process_path_pattern(), path)->0))
    } else if captured_group(pcb_unit_path_pattern(), path) is Some {
        match u16_of(captured_group(pcb_unit_path_pattern(), path)->0) {
            Some(i) => Some(ProjectViewCommandView::ShowPcbUnitAssignments(i)),
            None => None,
        }
    } else {
        None
    }
}

/// Group 1 of the pattern's match in the path (see `captured_group`).
fn capture_group(pattern: &str, path: &str) -> (r: Option<String>)
    ensures
        match r {
            Some(t) => captured_group(pattern@, path@) == Some(t@),
            None => captured_group(pattern@, path@) is None,
        },
{
    match Pattern::new(pattern) {
        Ok(p) => match p.captures(path) {
            Some(groups) => {
                if groups.len() > 1 {
                    proof {
                        assert(captures_view(Some(groups)) == Some(crate::pattern::group_views(groups@)));
                    }
                    match &groups[1] {
                        Some(t) => Some(t.clone()),
                        None => None,
                    }
                } else {
                    None
                }
            },
            None => None,
        },
        Err(_) => None,
    }
}

/// Reads a `u16` (`u16::from_str`).
fn parse_u16(s: &str) -> (r: Option<u16>)
    ensures
        match r {
            Some(v) => u16_of(s@) == Some(v),
            None => u16_of(s@) is None,
        },
{
    match parse_usize(s) {
        Some(v) => if v <= 65535 {
            Some(v as u16)
        } else {
            None
        },
        None => None,
    }
}

/// The view of the project that a navigation path selects (see
/// `project_view_spec`).
pub fn project_view_of_path(path: &str) -> (r: Option<ProjectViewCommand>)
    ensures
        view_command_view(r) == project_view_spec(path@),
{
    if str_eq(path, "/project/") {
        return Some(ProjectViewCommand::ShowOverview);
    }
    if str_eq(path, "/project/issues") {
        return Some(ProjectViewCommand::ShowIssues);
    }
    if str_eq(path, "/project/parts") {
        return Some(ProjectViewCommand::ShowParts);
    }
    if let Some(index) = capture_group("^/project/pcbs/(?<pcb>[0-9]?){1}$", path) {
        return match parse_u16(index.as_str()) {
            Some(i) => Some(ProjectViewCommand::ShowPcb(i)),
            None => None,
        };
    }
    if let Some(phase) = capture_group("^/project/phases/(?<phase>[^/]*){1}$", path) {
        return Some(ProjectViewCommand::ShowPhase(Reference::new(phase)));
    }
    if let Some(phase) = capture_group("^/project/phases/(?<phase>[^/]*){1}/loadout$", path) {
        return Some(ProjectViewCommand::ShowPhaseLoadout { phase: Reference::new(phase) });
    }
    if str_eq(path, "/project/phases") {
        return Some(ProjectViewCommand::RefreshPhases);
    }
    if str_eq(path, "/project/placements") {
        return Some(ProjectViewCommand::ShowPlacements);
    }
    if let Some(process) = capture_group("^/project/processes/(?<process>[^/]*){1}$", path) {
        return Some(ProjectViewCommand::ShowProcess(Reference::new(process)));
    }
    if let Some(index) = capture_group("^/project/pcbs/(?<pcb>[0-9]?){1}/units(?:.*)?$", path) {
        return match parse_u16(index.as_str()) {
            Some(i) => Some(ProjectViewCommand::ShowPcbUnitAssignments(i)),
            None => None,
        };
    }
    None
}

/// Reading the view path back from the navigation path of a view gives the view
/// path again, where the view path does not itself hold `/project`.
pub proof fn lemma_view_path_round_trip(view_path: Seq<char>)
    requires
        !occurs_in(view_path, "/project"@),
    ensures
        split_spec("/project"@ + view_path, "/project"@).len() > 1,
        split_spec("/project"@ + view_path, "/project"@)[1] == view_path,
{
    reveal_strlit("/project");
    lemma_split_after_leading_sep("/project"@, view_path);
}

} // verus!
