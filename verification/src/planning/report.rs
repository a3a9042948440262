//! Project reports: the issues found in a project and their order.
use vstd::prelude::*;
use crate::text::{Comparison, lex_compare, compare_str};
use crate::pnp::object_path::{ObjectPath, element_compare, path_compare};
use crate::pnp::part::Part;
use crate::order::{int_compare, not_after, total_order_facts, lemma_not_after_transitive, lemma_lex_total_order,
    lemma_element_total_order, lemma_path_total_order};
use crate::planning::project::{Project, path_in_directory, push_file_name};
use crate::planning::pcb::{Pcb, PcbKind};
use crate::planning::placement::{PlacementState, PlacementStatus};
use crate::planning::design::DesignName;
use crate::planning::variant::VariantName;
use crate::planning::reference::Reference;
use crate::planning::phase::Phase;
use crate::pnp::object_path::{pcb_kind_and_index_spec, pcb_unit_spec};
use crate::pnp::load_out_item::LoadOutItem;
use crate::sorted_map::{SortedMap, OrderedKey, keys_increasing};
use crate::text::{push_str, string_from_chars};

verus! {

/// A problem found in a project.
#[derive(Debug, Clone, PartialEq, Eq, PartialOrd, Ord)]
pub struct ProjectReportIssue {
    pub message: String,
    pub severity: IssueSeverity,
    pub kind: IssueKind,
}

#[derive(Debug, Clone, Copy, PartialEq, Eq, PartialOrd, Ord)]
pub enum IssueSeverity {
    Severe,
    Warning,
}

#[derive(Debug, Clone, PartialEq, Eq, PartialOrd, Ord)]
pub enum IssueKind {
    NoPcbsAssigned,
    NoPhasesCreated,
    InvalidUnitAssignment { object_path: ObjectPath },
    UnassignedPlacement { object_path: ObjectPath },
    UnassignedPartFeeder { part: Part },
}

/// The abstract value of an issue kind.
pub enum IssueKindView {
    NoPcbsAssigned,
    NoPhasesCreated,
    InvalidUnitAssignment(Seq<(Seq<char>, Seq<char>)>),
    UnassignedPlacement(Seq<(Seq<char>, Seq<char>)>),
    UnassignedPartFeeder((Seq<char>, Seq<char>)),
}

impl View for IssueKind {
    type V = IssueKindView;

    open spec fn view(&self) -> IssueKindView {
        match self {
            IssueKind::NoPcbsAssigned => IssueKindView::NoPcbsAssigned,
            IssueKind::NoPhasesCreated => IssueKindView::NoPhasesCreated,
            IssueKind::InvalidUnitAssignment { object_path } => IssueKindView::InvalidUnitAssignment(object_path@),
            IssueKind::UnassignedPlacement { object_path } => IssueKindView::UnassignedPlacement(object_path@),
            IssueKind::UnassignedPartFeeder { part } => IssueKindView::UnassignedPartFeeder(part@),
        }
    }
}

impl View for ProjectReportIssue {
    type V = (Seq<char>, IssueSeverity, IssueKindView);

    open spec fn view(&self) -> (Seq<char>, IssueSeverity, IssueKindView) {
        (self.message@, self.severity, self.kind@)
    }
}

/// The rank of a severity; higher ranks sort first.
pub open spec fn severity_ordinal(s: IssueSeverity) -> int {
    match s {
        IssueSeverity::Warning => 0,
        IssueSeverity::Severe => 1,
    }
}

/// The rank of a kind; lower ranks sort first.
pub open spec fn kind_ordinal(k: IssueKindView) -> int {
    match k {
        IssueKindView::NoPcbsAssigned => 0,
        IssueKindView::NoPhasesCreated => 1,
        IssueKindView::InvalidUnitAssignment(_) => 2,
        IssueKindView::UnassignedPlacement(_) => 3,
        IssueKindView::UnassignedPartFeeder(_) => 4,
    }
}

/// Kinds order by rank; kinds of equal rank by their object path or part.
pub open spec fn kind_compare(a: IssueKindView, b: IssueKindView) -> Comparison {
    match int_compare(kind_ordinal(a), kind_ordinal(b)) {
        Comparison::Equal => match (a, b) {
            (IssueKindView::InvalidUnitAssignment(x), IssueKindView::InvalidUnitAssignment(y)) => path_compare(x, y),
            (IssueKindView::UnassignedPlacement(x), IssueKindView::UnassignedPlacement(y)) => path_compare(x, y),
            (IssueKindView::UnassignedPartFeeder(x), IssueKindView::UnassignedPartFeeder(y)) => element_compare(x, y),
            _ => Comparison::Equal,
        },
        c => c,
    }
}

/// The order of report issues: severity descending, then kind ascending, then
/// message ascending.
pub open spec fn issue_compare(
    a: (Seq<char>, IssueSeverity, IssueKindView),
    b: (Seq<char>, IssueSeverity, IssueKindView),
) -> Comparison {
    match int_compare(severity_ordinal(b.1), severity_ordinal(a.1)) {
        Comparison::Equal => match kind_compare(a.2, b.2) {
            Comparison::Equal => lex_compare(a.0, b.0),
            c => c,
        },
        c => c,
    }
}

/// The issues are in report order.
pub open spec fn issues_sorted(s: Seq<ProjectReportIssue>) -> bool {
    forall|i: int, j: int| 0 <= i < j < s.len() ==> not_after(#[trigger] issue_compare(s[i]@, s[j]@))
}

proof fn lemma_kind_total_order(a: IssueKindView, b: IssueKindView, c: IssueKindView)
    ensures
        total_order_facts(|x: IssueKindView, y: IssueKindView| kind_compare(x, y), a, b, c),
{
    match (a, b, c) {
        (IssueKindView::InvalidUnitAssignment(x), IssueKindView::InvalidUnitAssignment(y), IssueKindView::InvalidUnitAssignment(z)) => {
            lemma_path_total_order(x, y, z);
        },
        (IssueKindView::UnassignedPlacement(x), IssueKindView::UnassignedPlacement(y), IssueKindView::UnassignedPlacement(z)) => {
            lemma_path_total_order(x, y, z);
        },
        (IssueKindView::UnassignedPartFeeder(x), IssueKindView::UnassignedPartFeeder(y), IssueKindView::UnassignedPartFeeder(z)) => {
            lemma_element_total_order(x, y, z);
        },
        _ => {
            match (a, b) {
                (IssueKindView::InvalidUnitAssignment(x), IssueKindView::InvalidUnitAssignment(y)) => lemma_path_total_order(x, y, y),
                (IssueKindView::UnassignedPlacement(x), IssueKindView::UnassignedPlacement(y)) => lemma_path_total_order(x, y, y),
                (IssueKindView::UnassignedPartFeeder(x), IssueKindView::UnassignedPartFeeder(y)) => lemma_element_total_order(x, y, y),
                _ => {},
            }
            match (b, c) {
                (IssueKindView::InvalidUnitAssignment(x), IssueKindView::InvalidUnitAssignment(y)) => lemma_path_total_order(x, y, y),
                (IssueKindView::UnassignedPlacement(x), IssueKindView::UnassignedPlacement(y)) => lemma_path_total_order(x, y, y),
                (IssueKindView::UnassignedPartFeeder(x), IssueKindView::UnassignedPartFeeder(y)) => lemma_element_total_order(x, y, y),
                _ => {},
            }
            match (a, c) {
                (IssueKindView::InvalidUnitAssignment(x), IssueKindView::InvalidUnitAssignment(y)) => lemma_path_total_order(x, y, y),
                (IssueKindView::UnassignedPlacement(x), IssueKindView::UnassignedPlacement(y)) => lemma_path_total_order(x, y, y),
                (IssueKindView::UnassignedPartFeeder(x), IssueKindView::UnassignedPartFeeder(y)) => lemma_element_total_order(x, y, y),
                _ => {},
            }
        },
    }
}

/// Report order is a strict total order whose `Equal` is equality of issues.
pub proof fn lemma_issue_total_order(
    a: (Seq<char>, IssueSeverity, IssueKindView),
    b: (Seq<char>, IssueSeverity, IssueKindView),
    c: (Seq<char>, IssueSeverity, IssueKindView),
)
    ensures
        total_order_facts(
            |x: (Seq<char>, IssueSeverity, IssueKindView), y: (Seq<char>, IssueSeverity, IssueKindView)| issue_compare(x, y),
            a,
            b,
            c,
        ),
{
    lemma_kind_total_order(a.2, b.2, c.2);
    lemma_lex_total_order(a.0, b.0, c.0);
}

/// The position at which `x` goes in the sorted `s`: after every issue not after it.
fn insertion_point(s: &Vec<ProjectReportIssue>, x: &ProjectReportIssue) -> (r: usize)
    requires
        issues_sorted(s@),
    ensures
        r <= s@.len(),
        forall|q: int| 0 <= q < r ==> not_after(#[trigger] issue_compare(s@[q]@, x@)),
        r < s@.len() ==> issue_compare(x@, s@[r as int]@) == Comparison::Less,
{
    let mut p: usize = 0;
    while p < s.len()
        invariant
            p <= s@.len(),
            forall|q: int| 0 <= q < p ==> not_after(#[trigger] issue_compare(s@[q]@, x@)),
        decreases s@.len() - p,
    {
        let c = compare_issues(x, &s[p]);
        match c {
            Comparison::Less => {
                return p;
            },
            _ => {
                proof {
                    lemma_issue_total_order(x@, s@[p as int]@, s@[p as int]@);
                }
            },
        }
        p = p + 1;
    }
    p
}

/// Compares two issues in report order.
pub fn compare_issues(a: &ProjectReportIssue, b: &ProjectReportIssue) -> (r: Comparison)
    ensures
        r == issue_compare(a@, b@),
{
    let sa = severity_rank(a.severity);
    let sb = severity_rank(b.severity);
    if sb < sa {
        return Comparison::Less;
    } else if sb > sa {
        return Comparison::Greater;
    }
    let ka = kind_rank(&a.kind);
    let kb = kind_rank(&b.kind);
    if ka < kb {
        return Comparison::Less;
    } else if ka > kb {
        return Comparison::Greater;
    }
    let k = match (&a.kind, &b.kind) {
        (IssueKind::InvalidUnitAssignment { object_path: x }, IssueKind::InvalidUnitAssignment { object_path: y }) => x.compare(y),
        (IssueKind::UnassignedPlacement { object_path: x }, IssueKind::UnassignedPlacement { object_path: y }) => x.compare(y),
        (IssueKind::UnassignedPartFeeder { part: x }, IssueKind::UnassignedPartFeeder { part: y }) => x.compare(y),
        _ => Comparison::Equal,
    };
    match k {
        Comparison::Equal => compare_str(a.message.as_str(), b.message.as_str()),
        c => c,
    }
}

fn severity_rank(s: IssueSeverity) -> (r: u8)
    ensures
        r as int == severity_ordinal(s),
{
    match s {
        IssueSeverity::Warning => 0,
        IssueSeverity::Severe => 1,
    }
}

fn kind_rank(k: &IssueKind) -> (r: u8)
    ensures
        r as int == kind_ordinal(k@),
{
    match k {
        IssueKind::NoPcbsAssigned => 0,
        IssueKind::NoPhasesCreated => 1,
        IssueKind::InvalidUnitAssignment { .. } => 2,
        IssueKind::UnassignedPlacement { .. } => 3,
        IssueKind::UnassignedPartFeeder { .. } => 4,
    }
}

/// Sorts issues into report order: severity descending, then kind ascending
/// (ties by object path or part), then message ascending. The result holds the
/// same issues.
pub fn project_report_sort_issues(issues: &mut Vec<ProjectReportIssue>)
    ensures
        final(issues)@.to_multiset() == old(issues)@.to_multiset(),
        issues_sorted(final(issues)@),
        issues_sorted(old(issues)@) ==> issue_views(final(issues)@) == issue_views(old(issues)@),
{
    let mut input: Vec<ProjectReportIssue> = Vec::new();
    std::mem::swap(issues, &mut input);
    let ghost original = input@;
    let mut sorted: Vec<ProjectReportIssue> = Vec::new();
    proof {
        assert(original.take(0) =~= Seq::<ProjectReportIssue>::empty());
        assert(sorted@ =~= Seq::<ProjectReportIssue>::empty());
    }
    let mut k: usize = 0;
    let n = input.len();
    while k < n
        invariant
            n == original.len(),
            input@.len() == n - k,
            input@ == original.skip(k as int),
            k <= n,
            sorted@.to_multiset() == original.take(k as int).to_multiset(),
            issues_sorted(sorted@),
        decreases n - k,
    {
        let x = input.remove(0);
        proof {
            assert(x == original[k as int]);
            assert(input@ =~= original.skip(k + 1));
        }
        let p = insertion_point(&sorted, &x);
        let ghost before = sorted@;
        sorted.insert(p, x);
        proof {
            assert(sorted@ == before.insert(p as int, x));
            vstd::seq_lib::to_multiset_insert(before, p as int, x);
            assert(original.take(k + 1) =~= original.take(k as int).push(x));
            vstd::seq_lib::to_multiset_build(original.take(k as int), x);
            assert forall|i: int, j: int| 0 <= i < j < sorted@.len() implies not_after(#[trigger] issue_compare(sorted@[i]@, sorted@[j]@)) by {
                let pp = p as int;
                if j < pp {
                    assert(sorted@[i] == before[i] && sorted@[j] == before[j]);
                } else if j == pp {
                    assert(sorted@[i] == before[i]);
                } else if i == pp {
                    assert(sorted@[j] == before[j - 1]);
                    assert(issue_compare(x@, before[pp]@) == Comparison::Less);
                    if j - 1 > pp {
                        assert(not_after(issue_compare(before[pp]@, before[j - 1]@)));
                    }
                    lemma_issue_total_order(x@, before[pp]@, before[j - 1]@);
                    lemma_not_after_transitive(
                        |a: (Seq<char>, IssueSeverity, IssueKindView), b: (Seq<char>, IssueSeverity, IssueKindView)| issue_compare(a, b),
                        x@, before[pp]@, before[j - 1]@);
                } else if i < pp {
                    assert(sorted@[i] == before[i] && sorted@[j] == before[j - 1]);
                } else {
                    assert(sorted@[i] == before[i - 1] && sorted@[j] == before[j - 1]);
                }
            }
        }
        k = k + 1;
    }
    proof {
        assert(original.take(n as int) =~= original);
        if issues_sorted(original) {
            lemma_sorted_issues_unique(sorted@, original);
        }
    }
    *issues = sorted;
}

/// Sequences that hold the same elements hold the same images under any function.
proof fn lemma_map_values_same_multiset<A, B>(a: Seq<A>, b: Seq<A>, f: spec_fn(A) -> B)
    requires
        a.to_multiset() == b.to_multiset(),
    ensures
        a.map_values(f).to_multiset() == b.map_values(f).to_multiset(),
    decreases a.len(),
{
    broadcast use vstd::multiset::group_multiset_axioms;
    broadcast use vstd::seq_lib::group_to_multiset_ensures;

    vstd::seq_lib::to_multiset_len(a);
    vstd::seq_lib::to_multiset_len(b);
    if a.len() == 0 {
        assert(a.map_values(f) =~= Seq::<B>::empty());
        assert(b.map_values(f) =~= Seq::<B>::empty());
    } else {
        let x = a.last();
        assert(a.to_multiset().contains(x));
        assert(b.to_multiset().contains(x));
        let j = choose|j: int| 0 <= j < b.len() && b[j] == x;
        let a1 = a.drop_last();
        let b1 = b.remove(j);
        vstd::seq_lib::to_multiset_remove(b, j);
        assert(a =~= a1.push(x));
        vstd::seq_lib::to_multiset_build(a1, x);
        assert(a1.to_multiset() =~= a.to_multiset().remove(x));
        lemma_map_values_same_multiset(a1, b1, f);
        assert(a.map_values(f) =~= a1.map_values(f).push(f(x)));
        vstd::seq_lib::to_multiset_build(a1.map_values(f), f(x));
        assert(b.map_values(f) =~= b1.map_values(f).insert(j, f(x)));
        vstd::seq_lib::to_multiset_insert(b1.map_values(f), j, f(x));
    }
}

/// Sorted issues are fixed by the issues they hold: two sorted sequences that
/// hold the same issues, in whatever order they came, hold the same issues in
/// the same places. So sorting two lists of the same issues gives the same list,
/// and sorting a sorted list gives it back.
pub proof fn lemma_sorted_issues_unique(a: Seq<ProjectReportIssue>, b: Seq<ProjectReportIssue>)
    requires
        issues_sorted(a),
        issues_sorted(b),
        a.to_multiset() == b.to_multiset(),
    ensures
        issue_views(a) == issue_views(b),
{
    let f = |i: ProjectReportIssue| i@;
    let leq = |x: (Seq<char>, IssueSeverity, IssueKindView), y: (Seq<char>, IssueSeverity, IssueKindView)|
        not_after(issue_compare(x, y));
    let cmp = |x: (Seq<char>, IssueSeverity, IssueKindView), y: (Seq<char>, IssueSeverity, IssueKindView)| issue_compare(x, y);
    lemma_map_values_same_multiset(a, b, f);
    assert forall|x: (Seq<char>, IssueSeverity, IssueKindView)| #[trigger] leq(x, x) by {
        lemma_issue_total_order(x, x, x);
    }
    assert forall|x: (Seq<char>, IssueSeverity, IssueKindView), y: (Seq<char>, IssueSeverity, IssueKindView)|
        #[trigger] leq(x, y) && #[trigger] leq(y, x) implies x == y by {
        lemma_issue_total_order(x, y, y);
    }
    assert forall|x: (Seq<char>, IssueSeverity, IssueKindView), y: (Seq<char>, IssueSeverity, IssueKindView)|
        #[trigger] leq(x, y) || #[trigger] leq(y, x) by {
        lemma_issue_total_order(x, y, y);
    }
    assert forall|x: (Seq<char>, IssueSeverity, IssueKindView), y: (Seq<char>, IssueSeverity, IssueKindView), z: (Seq<char>, IssueSeverity, IssueKindView)|
        #[trigger] leq(x, y) && #[trigger] leq(y, z) implies leq(x, z) by {
        lemma_issue_total_order(x, y, z);
        lemma_not_after_transitive(cmp, x, y, z);
    }
    assert(vstd::relations::total_ordering(leq));
    assert(vstd::relations::sorted_by(a.map_values(f), leq));
    assert(vstd::relations::sorted_by(b.map_values(f), leq));
    vstd::seq_lib::lemma_sorted_unique(a.map_values(f), b.map_values(f), leq);
}

/// Sorting issues does not depend on the order they came in: two lists that hold
/// the same issues, in any two orders, sort to lists that hold the same issues
/// in the same places (equal message, severity and kind at each place). Its
/// premises are what `project_report_sort_issues` ensures of each sort.
pub proof fn lemma_sort_independent_of_order(
    a_in: Seq<ProjectReportIssue>,
    b_in: Seq<ProjectReportIssue>,
    a_out: Seq<ProjectReportIssue>,
    b_out: Seq<ProjectReportIssue>,
)
    requires
        a_in.to_multiset() == b_in.to_multiset(),
        a_out.to_multiset() == a_in.to_multiset(),
        issues_sorted(a_out),
        b_out.to_multiset() == b_in.to_multiset(),
        issues_sorted(b_out),
    ensures
        issue_views(a_out) == issue_views(b_out),
{
    lemma_sorted_issues_unique(a_out, b_out);
}

/// The error of generating a report: the report could not be saved.
#[derive(Debug, Clone, PartialEq, Eq)]
pub enum ReportGenerationError {
    UnableToSaveReport { reason: String },
}

/// A project's report.
#[derive(Debug)]
pub struct ProjectReport {
    pub name: String,
    pub phase_overviews: Vec<PhaseOverview>,
    pub phase_specifications: Vec<PhaseSpecification>,
    /// The issues, each once, in report order.
    pub issues: Vec<ProjectReportIssue>,
}

/// A phase and its process.
#[derive(Debug, Clone)]
pub struct PhaseOverview {
    pub phase_name: String,
    pub process: String,
}

/// What a phase needs: its operations and the load-out it uses.
#[derive(Debug, Clone)]
pub struct PhaseSpecification {
    pub phase_name: String,
    pub operations: Vec<PhaseOperation>,
    pub load_out_assignments: Vec<PhaseLoadOutAssignmentItem>,
}

/// The design variant assigned to a pcb unit.
#[derive(Debug, Clone)]
pub struct PcbUnitAssignmentItem {
    pub unit_path: ObjectPath,
    pub design_name: DesignName,
    pub variant_name: VariantName,
}

/// A pcb to prepare: a panel with the assignments of its units, or a single pcb
/// with its assignment; the assignments may not have been made yet.
#[derive(Debug, Clone)]
pub enum PcbReportItem {
    Panel { name: String, unit_assignments: Vec<PcbUnitAssignmentItem> },
    Single { name: String, unit_assignment: Option<PcbUnitAssignmentItem> },
}

/// An operation of a phase.
#[derive(Debug, Clone)]
pub enum PhaseOperation {
    PreparePcbs { pcbs: Vec<PcbReportItem> },
}

/// A load-out item of a phase and how many placements of the phase use its part.
#[derive(Debug, Clone)]
pub struct PhaseLoadOutAssignmentItem {
    pub feeder_reference: String,
    pub manufacturer: String,
    pub mpn: String,
    pub quantity: u32,
}

/// The values of a list of issues.
pub open spec fn issue_views(s: Seq<ProjectReportIssue>) -> Seq<(Seq<char>, IssueSeverity, IssueKindView)> {
    s.map_values(|i: ProjectReportIssue| i@)
}

/// The issue raised when a project has no pcbs.
pub open spec fn no_pcbs_issue() -> (Seq<char>, IssueSeverity, IssueKindView) {
    ("No PCBs have been assigned to the project."@, IssueSeverity::Severe, IssueKindView::NoPcbsAssigned)
}

/// The issue raised when a project has no phases.
pub open spec fn no_phases_issue() -> (Seq<char>, IssueSeverity, IssueKindView) {
    ("No phases have been created."@, IssueSeverity::Severe, IssueKindView::NoPhasesCreated)
}

/// The issue raised for a placement assigned to no phase.
pub open spec fn unassigned_placement_issue(path: Seq<(Seq<char>, Seq<char>)>) -> (Seq<char>, IssueSeverity, IssueKindView) {
    ("A placement has not been assigned to a phase"@, IssueSeverity::Warning, IssueKindView::UnassignedPlacement(path))
}

/// How many of the pcbs are of the kind.
pub open spec fn pcb_kind_count(pcbs: Seq<Pcb>, kind: PcbKind) -> nat
    decreases pcbs.len(),
{
    if pcbs.len() == 0 {
        0
    } else {
        pcb_kind_count(pcbs.drop_last(), kind) + if pcbs.last().kind == kind { 1nat } else { 0nat }
    }
}

/// The issue, if any, of a unit assignment: a unit path that names a pcb kind and
/// index refers to no pcb of that kind, or to an index beyond their number.
pub open spec fn unit_assignment_issue(pcbs: Seq<Pcb>, path: Seq<(Seq<char>, Seq<char>)>) -> Option<(Seq<char>, IssueSeverity, IssueKindView)> {
    match pcb_kind_and_index_spec(path) {
        Some((kind, index)) => if pcb_kind_count(pcbs, kind) == 0 {
            Some(
                (
                    "Invalid unit assignment, no pcbs match the assignment."@,
                    IssueSeverity::Severe,
                    IssueKindView::InvalidUnitAssignment(path),
                ),
            )
        } else if index > pcb_kind_count(pcbs, kind) {
            Some(("Invalid unit assignment, index out of range."@, IssueSeverity::Severe, IssueKindView::InvalidUnitAssignment(path)))
        } else {
            None
        },
        None => None,
    }
}

/// The issues a report finds in a project.
pub open spec fn project_issues(project: Project) -> Set<(Seq<char>, IssueSeverity, IssueKindView)> {
    Set::new(
        |v: (Seq<char>, IssueSeverity, IssueKindView)|
            (project.pcbs@.len() == 0 && v == no_pcbs_issue()) || (project.phases.seq().len() == 0 && v == no_phases_issue())
                || (exists|x: Seq<(Seq<char>, Seq<char>)>|
                #[trigger] project.unit_assignments.map().contains_key(x) && unit_assignment_issue(project.pcbs@, x) == Some(v))
                || (exists|x: Seq<(Seq<char>, Seq<char>)>|
                #[trigger] project.placements.map().contains_key(x) && project.placements.map()[x].phase is None
                    && project.placements.map()[x].status == PlacementStatus::Known && v == unassigned_placement_issue(x)),
    )
}

/// A set of issues held once each.
pub open spec fn issue_set(s: Seq<ProjectReportIssue>) -> bool {
    issue_views(s).no_duplicates()
}

/// Adds an issue to a set of issues, unless an equal one is there.
pub fn insert_issue(issues: &mut Vec<ProjectReportIssue>, issue: ProjectReportIssue)
    requires
        issue_set(old(issues)@),
    ensures
        issue_set(final(issues)@),
        issue_views(final(issues)@).to_set() == issue_views(old(issues)@).to_set().insert(issue@),
{
    let mut k: usize = 0;
    while k < issues.len()
        invariant
            k <= issues@.len(),
            issue_set(issues@),
            forall|j: int| 0 <= j < k ==> (#[trigger] issues@[j])@ != issue@,
        decreases issues@.len() - k,
    {
        if compare_issues(&issues[k], &issue).is_equal() {
            proof {
                lemma_issue_total_order(issues@[k as int]@, issue@, issue@);
                assert(issue_views(issues@)[k as int] == issue@);
                assert(issue_views(issues@).to_set() =~= issue_views(issues@).to_set().insert(issue@));
            }
            return;
        }
        proof {
            lemma_issue_total_order(issues@[k as int]@, issue@, issue@);
        }
        k = k + 1;
    }
    let ghost before = issues@;
    issues.push(issue);
    proof {
        assert(issue_views(issues@) =~= issue_views(before).push(issue@));
        assert forall|j: int| 0 <= j < before.len() implies issue_views(before)[j] != issue@ by {
            assert(issue_views(before)[j] == before[j]@);
        }
        issue_views(before).lemma_push_to_set_commute(issue@);
        assert(issue_views(issues@).no_duplicates());
    }
}

/// Counts the pcbs of a kind.
fn count_pcbs_of_kind(pcbs: &Vec<Pcb>, kind: PcbKind) -> (r: usize)
    ensures
        r == pcb_kind_count(pcbs@, kind),
{
    let mut count: usize = 0;
    let mut k: usize = 0;
    while k < pcbs.len()
        invariant
            k <= pcbs@.len(),
            count == pcb_kind_count(pcbs@.take(k as int), kind),
            count <= k,
        decreases pcbs@.len() - k,
    {
        proof {
            assert(pcbs@.take(k + 1).drop_last() =~= pcbs@.take(k as int));
        }
        if pcbs[k].kind == kind {
            count = count + 1;
        }
        k = k + 1;
    }
    proof {
        assert(pcbs@.take(k as int) =~= pcbs@);
    }
    count
}

/// The issues of the unit assignments.
pub open spec fn unit_assignment_issues(project: Project) -> Set<(Seq<char>, IssueSeverity, IssueKindView)> {
    Set::new(
        |v: (Seq<char>, IssueSeverity, IssueKindView)|
            exists|x: Seq<(Seq<char>, Seq<char>)>|
                #[trigger] project.unit_assignments.map().contains_key(x) && unit_assignment_issue(project.pcbs@, x) == Some(v),
    )
}

/// The issues of placements assigned to no phase.
pub open spec fn placement_issues(project: Project) -> Set<(Seq<char>, IssueSeverity, IssueKindView)> {
    Set::new(
        |v: (Seq<char>, IssueSeverity, IssueKindView)|
            exists|x: Seq<(Seq<char>, Seq<char>)>|
                #[trigger] project.placements.map().contains_key(x) && project.placements.map()[x].phase is None
                    && project.placements.map()[x].status == PlacementStatus::Known && v == unassigned_placement_issue(x),
    )
}

/// A copy of an issue.
pub fn copy_issue(issue: &ProjectReportIssue) -> (r: ProjectReportIssue)
    ensures
        r@ == issue@,
{
    let kind = match &issue.kind {
        IssueKind::NoPcbsAssigned => IssueKind::NoPcbsAssigned,
        IssueKind::NoPhasesCreated => IssueKind::NoPhasesCreated,
        IssueKind::InvalidUnitAssignment { object_path } => IssueKind::InvalidUnitAssignment { object_path: object_path.copy() },
        IssueKind::UnassignedPlacement { object_path } => IssueKind::UnassignedPlacement { object_path: object_path.copy() },
        IssueKind::UnassignedPartFeeder { part } => IssueKind::UnassignedPartFeeder { part: part.copy() },
    };
    ProjectReportIssue { message: issue.message.clone(), severity: issue.severity, kind }
}

/// Adds the issues of the unit assignments.
fn add_unit_assignment_issues(project: &Project, issues: &mut Vec<ProjectReportIssue>)
    requires
        issue_set(old(issues)@),
        project.unit_assignments.wf(),
    ensures
        issue_set(final(issues)@),
        issue_views(final(issues)@).to_set() == issue_views(old(issues)@).to_set().union(unit_assignment_issues(*project)),
{
    let ghost s = project.unit_assignments.seq();
    let ghost start = issue_views(issues@).to_set();
    let n = project.unit_assignments.len();
    let mut k: usize = 0;
    while k < n
        invariant
            n == s.len(),
            k <= n,
            s == project.unit_assignments.seq(),
            issue_set(issues@),
            issue_views(issues@).to_set() == start.union(Set::new(
                |v: (Seq<char>, IssueSeverity, IssueKindView)|
                    exists|q: int| 0 <= q < k && unit_assignment_issue(project.pcbs@, (#[trigger] s[q]).0@) == Some(v),
            )),
        decreases n - k,
    {
        let object_path = &project.unit_assignments.entry(k).0;
        let ghost before = issue_views(issues@).to_set();
        match object_path.pcb_kind_and_index() {
            Some((pcb_kind, index)) => {
                let count = count_pcbs_of_kind(&project.pcbs, pcb_kind);
                if count == 0 {
                    let issue = ProjectReportIssue {
                        message: "Invalid unit assignment, no pcbs match the assignment.".to_owned(),
                        severity: IssueSeverity::Severe,
                        kind: IssueKind::InvalidUnitAssignment { object_path: object_path.copy() },
                    };
                    insert_issue(issues, issue);
                } else if index > count {
                    let issue = ProjectReportIssue {
                        message: "Invalid unit assignment, index out of range.".to_owned(),
                        severity: IssueSeverity::Severe,
                        kind: IssueKind::InvalidUnitAssignment { object_path: object_path.copy() },
                    };
                    insert_issue(issues, issue);
                }
            },
            None => {},
        }
        proof {
            let cur = Set::new(
                |v: (Seq<char>, IssueSeverity, IssueKindView)|
                    exists|q: int| 0 <= q < k && unit_assignment_issue(project.pcbs@, (#[trigger] s[q]).0@) == Some(v),
            );
            let next = Set::new(
                |v: (Seq<char>, IssueSeverity, IssueKindView)|
                    exists|q: int| 0 <= q < k + 1 && unit_assignment_issue(project.pcbs@, (#[trigger] s[q]).0@) == Some(v),
            );
            let here = unit_assignment_issue(project.pcbs@, s[k as int].0@);
            assert forall|v: (Seq<char>, IssueSeverity, IssueKindView)| #[trigger] next.contains(v) == (cur.contains(v) || here == Some(v)) by {
                if next.contains(v) {
                    let q = choose|q: int| 0 <= q < k + 1 && unit_assignment_issue(project.pcbs@, (#[trigger] s[q]).0@) == Some(v);
                    if q < k {
                        assert(cur.contains(v));
                    }
                }
                if cur.contains(v) {
                    let q = choose|q: int| 0 <= q < k && unit_assignment_issue(project.pcbs@, (#[trigger] s[q]).0@) == Some(v);
                    assert(0 <= q < k + 1);
                }
                if here == Some(v) {
                    assert(unit_assignment_issue(project.pcbs@, s[k as int].0@) == Some(v));
                }
            }
            match here {
                Some(h) => {
                    assert(issue_views(issues@).to_set() == before.insert(h));
                    assert(issue_views(issues@).to_set() =~= start.union(next));
                },
                None => {
                    assert(issue_views(issues@).to_set() =~= start.union(next));
                },
            }
        }
        k = k + 1;
    }
    proof {
        let done = Set::new(
            |v: (Seq<char>, IssueSeverity, IssueKindView)|
                exists|q: int| 0 <= q < n && unit_assignment_issue(project.pcbs@, (#[trigger] s[q]).0@) == Some(v),
        );
        assert forall|v: (Seq<char>, IssueSeverity, IssueKindView)| #[trigger] done.contains(v) == unit_assignment_issues(*project).contains(v) by {
            if done.contains(v) {
                let q = choose|q: int| 0 <= q < n && unit_assignment_issue(project.pcbs@, (#[trigger] s[q]).0@) == Some(v);
                crate::sorted_map::lemma_map_at(s, q);
                assert(project.unit_assignments.map().contains_key(s[q].0@));
            }
            if unit_assignment_issues(*project).contains(v) {
                let x = choose|x: Seq<(Seq<char>, Seq<char>)>|
                    #[trigger] project.unit_assignments.map().contains_key(x) && unit_assignment_issue(project.pcbs@, x) == Some(v);
                let q = choose|q: int| 0 <= q < s.len() && #[trigger] s[q].0.key_view() == x;
                assert(unit_assignment_issue(project.pcbs@, s[q].0@) == Some(v));
            }
        }
        assert(done =~= unit_assignment_issues(*project));
        assert(issue_views(issues@).to_set() =~= start.union(unit_assignment_issues(*project)));
    }
}

/// Adds an issue for each placement of the design assigned to no phase.
fn project_report_add_placement_issues(project: &Project, issues: &mut Vec<ProjectReportIssue>)
    requires
        issue_set(old(issues)@),
        project.placements.wf(),
    ensures
        issue_set(final(issues)@),
        issue_views(final(issues)@).to_set() == issue_views(old(issues)@).to_set().union(placement_issues(*project)),
{
    let ghost s = project.placements.seq();
    let ghost start = issue_views(issues@).to_set();
    let n = project.placements.len();
    let mut k: usize = 0;
    while k < n
        invariant
            n == s.len(),
            k <= n,
            s == project.placements.seq(),
            issue_set(issues@),
            issue_views(issues@).to_set() == start.union(Set::new(
                |v: (Seq<char>, IssueSeverity, IssueKindView)|
                    exists|q: int| 0 <= q < k && (#[trigger] s[q]).1.phase is None && s[q].1.status == PlacementStatus::Known
                        && v == unassigned_placement_issue(s[q].0@),
            )),
        decreases n - k,
    {
        let (object_path, state) = project.placements.entry(k);
        let ghost before = issue_views(issues@).to_set();
        let selected = state.phase.is_none() && state.status == PlacementStatus::Known;
        if selected {
            let issue = ProjectReportIssue {
                message: "A placement has not been assigned to a phase".to_owned(),
                severity: IssueSeverity::Warning,
                kind: IssueKind::UnassignedPlacement { object_path: object_path.copy() },
            };
            insert_issue(issues, issue);
        }
        proof {
            let cur = Set::new(
                |v: (Seq<char>, IssueSeverity, IssueKindView)|
                    exists|q: int| 0 <= q < k && (#[trigger] s[q]).1.phase is None && s[q].1.status == PlacementStatus::Known
                        && v == unassigned_placement_issue(s[q].0@),
            );
            let next = Set::new(
                |v: (Seq<char>, IssueSeverity, IssueKindView)|
                    exists|q: int| 0 <= q < k + 1 && (#[trigger] s[q]).1.phase is None && s[q].1.status == PlacementStatus::Known
                        && v == unassigned_placement_issue(s[q].0@),
            );
            assert forall|v: (Seq<char>, IssueSeverity, IssueKindView)| #[trigger] next.contains(v)
                == (cur.contains(v) || (selected && v == unassigned_placement_issue(s[k as int].0@))) by {
                if next.contains(v) {
                    let q = choose|q: int| 0 <= q < k + 1 && (#[trigger] s[q]).1.phase is None && s[q].1.status == PlacementStatus::Known
                        && v == unassigned_placement_issue(s[q].0@);
                    if q < k {
                        assert(cur.contains(v));
                    }
                }
                if cur.contains(v) {
                    let q = choose|q: int| 0 <= q < k && (#[trigger] s[q]).1.phase is None && s[q].1.status == PlacementStatus::Known
                        && v == unassigned_placement_issue(s[q].0@);
                    assert(0 <= q < k + 1);
                }
                if selected && v == unassigned_placement_issue(s[k as int].0@) {
                    assert(s[k as int].1.phase is None);
                }
            }
            assert(issue_views(issues@).to_set() =~= start.union(next));
        }
        k = k + 1;
    }
    proof {
        let done = Set::new(
            |v: (Seq<char>, IssueSeverity, IssueKindView)|
                exists|q: int| 0 <= q < n && (#[trigger] s[q]).1.phase is None && s[q].1.status == PlacementStatus::Known
                    && v == unassigned_placement_issue(s[q].0@),
        );
        assert forall|v: (Seq<char>, IssueSeverity, IssueKindView)| #[trigger] done.contains(v) == placement_issues(*project).contains(v) by {
            if done.contains(v) {
                let q = choose|q: int| 0 <= q < n && (#[trigger] s[q]).1.phase is None && s[q].1.status == PlacementStatus::Known
                    && v == unassigned_placement_issue(s[q].0@);
                crate::sorted_map::lemma_map_at(s, q);
                assert(project.placements.map().contains_key(s[q].0@));
            }
            if placement_issues(*project).contains(v) {
                let x = choose|x: Seq<(Seq<char>, Seq<char>)>|
                    #[trigger] project.placements.map().contains_key(x) && project.placements.map()[x].phase is None
                        && project.placements.map()[x].status == PlacementStatus::Known && v == unassigned_placement_issue(x);
                let q = choose|q: int| 0 <= q < s.len() && #[trigger] s[q].0.key_view() == x;
                crate::sorted_map::lemma_map_at(s, q);
                assert(0 <= q < n);
            }
        }
        assert(done =~= placement_issues(*project));
        assert(issue_views(issues@).to_set() =~= start.union(placement_issues(*project)));
    }
}

/// Whether a placement of the phase, to be placed, uses the part.
pub open spec fn uses_part(state: PlacementState, phase: Seq<char>, part: (Seq<char>, Seq<char>)) -> bool {
    state.phase is Some && state.phase->0@ == phase && state.placement.place && state.placement.part@ == part
}

/// How many placements of the phase, to be placed, use the part.
pub open spec fn load_out_quantity(s: Seq<(ObjectPath, PlacementState)>, phase: Seq<char>, part: (Seq<char>, Seq<char>)) -> nat
    decreases s.len(),
{
    if s.len() == 0 {
        0
    } else {
        load_out_quantity(s.drop_last(), phase, part) + if uses_part(s.last().1, phase, part) { 1nat } else { 0nat }
    }
}

/// The quantity of a phase's load-out item counts only placements assigned to
/// that phase: where no placement is assigned to the phase, it is zero, whatever
/// the other placements and parts are.
pub proof fn lemma_quantity_without_phase_placements(
    s: Seq<(ObjectPath, PlacementState)>,
    phase: Seq<char>,
    part: (Seq<char>, Seq<char>),
)
    requires
        forall|i: int| 0 <= i < s.len() ==> !((#[trigger] s[i]).1.phase matches Some(r) && r@ == phase),
    ensures
        load_out_quantity(s, phase, part) == 0,
    decreases s.len(),
{
    if s.len() > 0 {
        assert forall|i: int| 0 <= i < s.drop_last().len() implies !((#[trigger] s.drop_last()[i]).1.phase matches Some(r) && r@ == phase) by {
            assert(s.drop_last()[i] == s[i]);
        }
        lemma_quantity_without_phase_placements(s.drop_last(), phase, part);
        assert(!(s[s.len() - 1].1.phase matches Some(r) && r@ == phase));
    }
}

/// The quantity of a phase's load-out item counts exactly the placements of the
/// phase, to be placed, with the item's part: dropping a placement of another
/// phase or of none, one not to be placed, or one with another part leaves it
/// unchanged, and dropping one of the phase, to be placed, with the item's part
/// lowers it by one.
pub proof fn lemma_quantity_counts_phase_placements(
    s: Seq<(ObjectPath, PlacementState)>,
    i: int,
    phase: Seq<char>,
    part: (Seq<char>, Seq<char>),
)
    requires
        0 <= i < s.len(),
    ensures
        !((s[i].1.phase matches Some(r) && r@ == phase) && s[i].1.placement.place && s[i].1.placement.part@ == part)
            ==> load_out_quantity(s.remove(i), phase, part) == load_out_quantity(s, phase, part),
        (s[i].1.phase matches Some(r) && r@ == phase) && s[i].1.placement.place && s[i].1.placement.part@ == part
            ==> load_out_quantity(s.remove(i), phase, part) + 1 == load_out_quantity(s, phase, part),
    decreases s.len(),
{
    if i == s.len() - 1 {
        assert(s.remove(i) =~= s.drop_last());
    } else {
        lemma_quantity_counts_phase_placements(s.drop_last(), i, phase, part);
        assert(s.remove(i).drop_last() =~= s.drop_last().remove(i));
        assert(s.remove(i).last() == s.last());
        assert(s.drop_last()[i] == s[i]);
    }
}

/// The pcb units of the placements to be placed.
pub open spec fn placed_units(m: Map<Seq<(Seq<char>, Seq<char>)>, PlacementState>) -> Set<Seq<(Seq<char>, Seq<char>)>> {
    Set::new(
        |u: Seq<(Seq<char>, Seq<char>)>|
            exists|x: Seq<(Seq<char>, Seq<char>)>| #[trigger] m.contains_key(x) && m[x].placement.place && pcb_unit_spec(x) == u,
    )
}

/// The one-based pcb index that a unit path names.
pub open spec fn pcb_index_of(u: Seq<(Seq<char>, Seq<char>)>) -> nat {
    let kind_and_index = pcb_kind_and_index_spec(u)->0;
    kind_and_index.1
}

/// Whether `u` is the first (in path order) of the placed units that name a pcb
/// kind and index.
pub open spec fn is_first_pcb_unit(m: Map<Seq<(Seq<char>, Seq<char>)>, PlacementState>, u: Seq<(Seq<char>, Seq<char>)>) -> bool {
    &&& placed_units(m).contains(u)
    &&& pcb_kind_and_index_spec(u) is Some
    &&& forall|v: Seq<(Seq<char>, Seq<char>)>| #[trigger] placed_units(m).contains(v) && pcb_kind_and_index_spec(v) is Some
        ==> not_after(path_compare(u, v))
}

/// An assignment item describes the design variant assigned to the unit.
pub open spec fn assignment_item_for(project: Project, u: Seq<(Seq<char>, Seq<char>)>, item: PcbUnitAssignmentItem) -> bool {
    &&& project.unit_assignments.map().contains_key(u)
    &&& item.unit_path@ == u
    &&& item.design_name@ == project.unit_assignments.map()[u].design_name@
    &&& item.variant_name@ == project.unit_assignments.map()[u].variant_name@
}

/// The pcb item of a unit: the pcb its kind and index name, with the unit's
/// assignment where there is one.
pub open spec fn pcb_item_for(project: Project, u: Seq<(Seq<char>, Seq<char>)>, item: PcbReportItem) -> bool {
    let kind_and_index = pcb_kind_and_index_spec(u)->0;
    let kind = kind_and_index.0;
    let index = kind_and_index.1;
    let pcb = project.pcbs@[index - 1];
    match item {
        PcbReportItem::Panel { name, unit_assignments } => {
            &&& kind == PcbKind::Panel
            &&& name@ == pcb.name@
            &&& if project.unit_assignments.map().contains_key(u) {
                unit_assignments@.len() == 1 && assignment_item_for(project, u, unit_assignments@[0])
            } else {
                unit_assignments@.len() == 0
            }
        },
        PcbReportItem::Single { name, unit_assignment } => {
            &&& kind == PcbKind::Single
            &&& name@ == pcb.name@
            &&& if project.unit_assignments.map().contains_key(u) {
                unit_assignment is Some && assignment_item_for(project, u, unit_assignment->0)
            } else {
                unit_assignment is None
            }
        },
    }
}

/// The specification of a phase: its name, a load-out assignment per load-out item
/// with the number of placements that use it, and, where some placement is to be
/// placed, the preparation of the first pcb unit that names a pcb.
pub open spec fn phase_specification_for(
    project: Project,
    reference: Seq<char>,
    items: Seq<LoadOutItem>,
    spec: PhaseSpecification,
) -> bool {
    let phase = project.phases.map()[reference];
    let m = project.placements.map();
    &&& spec.phase_name@ == phase.reference@
    &&& spec.load_out_assignments@.len() == items.len()
    &&& forall|j: int| 0 <= j < items.len() ==> {
        let a = #[trigger] spec.load_out_assignments@[j];
        &&& a.feeder_reference@ == items[j].reference@
        &&& a.manufacturer@ == items[j].manufacturer@
        &&& a.mpn@ == items[j].mpn@
        &&& a.quantity == load_out_quantity(project.placements.seq(), phase.reference@, (items[j].manufacturer@, items[j].mpn@))
    }
    &&& if placed_units(m) == Set::<Seq<(Seq<char>, Seq<char>)>>::empty() {
        spec.operations@.len() == 0
    } else {
        &&& spec.operations@.len() == 1
        &&& match spec.operations@[0] {
            PhaseOperation::PreparePcbs { pcbs } => if exists|u: Seq<(Seq<char>, Seq<char>)>| is_first_pcb_unit(m, u) {
                pcbs@.len() == 1 && pcb_item_for(project, choose|u: Seq<(Seq<char>, Seq<char>)>| is_first_pcb_unit(m, u), pcbs@[0])
            } else {
                pcbs@.len() == 0
            },
        }
    }
}

/// Counts the placements of the phase, to be placed, that use the part.
fn count_load_out_quantity(project: &Project, phase: &Reference, item: &LoadOutItem) -> (r: u32)
    requires
        project.placements.seq().len() <= u32::MAX,
    ensures
        r == load_out_quantity(project.placements.seq(), phase@, (item.manufacturer@, item.mpn@)),
{
    let ghost s = project.placements.seq();
    let ghost part = (item.manufacturer@, item.mpn@);
    let n = project.placements.len();
    let mut quantity: u32 = 0;
    let mut k: usize = 0;
    while k < n
        invariant
            n == s.len(),
            s == project.placements.seq(),
            n <= u32::MAX,
            k <= n,
            part == (item.manufacturer@, item.mpn@),
            quantity == load_out_quantity(s.take(k as int), phase@, part),
            quantity <= k,
        decreases n - k,
    {
        proof {
            assert(s.take(k + 1).drop_last() =~= s.take(k as int));
        }
        let state = &project.placements.entry(k).1;
        let in_phase = match &state.phase {
            Some(p) => phase.equals(p),
            None => false,
        };
        if in_phase && state.placement.place && crate::text::str_eq(item.manufacturer.as_str(), state.placement.part.manufacturer.as_str())
            && crate::text::str_eq(item.mpn.as_str(), state.placement.part.mpn.as_str()) {
            quantity = quantity + 1;
        }
        k = k + 1;
    }
    proof {
        assert(s.take(n as int) =~= s);
    }
    quantity
}

/// The pcb units of the placements to be placed, as an ordered set.
fn placed_pcb_units(project: &Project) -> (r: SortedMap<ObjectPath, ()>)
    requires
        project.placements.wf(),
    ensures
        r.wf(),
        r.map().dom() == placed_units(project.placements.map()),
{
    let ghost s = project.placements.seq();
    let mut units: SortedMap<ObjectPath, ()> = SortedMap::new();
    let n = project.placements.len();
    let mut k: usize = 0;
    while k < n
        invariant
            n == s.len(),
            s == project.placements.seq(),
            keys_increasing(s),
            k <= n,
            units.wf(),
            forall|u: Seq<(Seq<char>, Seq<char>)>| #[trigger] units.map().contains_key(u)
                == exists|q: int| 0 <= q < k && (#[trigger] s[q]).1.placement.place && pcb_unit_spec(s[q].0@) == u,
        decreases n - k,
    {
        let (path, state) = project.placements.entry(k);
        let ghost before = units.map();
        if state.placement.place {
            let _ = units.insert(path.pcb_unit(), ());
        }
        proof {
            assert forall|u: Seq<(Seq<char>, Seq<char>)>| #[trigger] units.map().contains_key(u)
                == exists|q: int| 0 <= q < k + 1 && (#[trigger] s[q]).1.placement.place && pcb_unit_spec(s[q].0@) == u by {
                if exists|q: int| 0 <= q < k + 1 && (#[trigger] s[q]).1.placement.place && pcb_unit_spec(s[q].0@) == u {
                    let q = choose|q: int| 0 <= q < k + 1 && (#[trigger] s[q]).1.placement.place && pcb_unit_spec(s[q].0@) == u;
                    if q < k {
                        assert(before.contains_key(u));
                    }
                }
                if before.contains_key(u) {
                    let q = choose|q: int| 0 <= q < k && (#[trigger] s[q]).1.placement.place && pcb_unit_spec(s[q].0@) == u;
                    assert(0 <= q < k + 1);
                }
            }
        }
        k = k + 1;
    }
    proof {
        let m = project.placements.map();
        assert forall|u: Seq<(Seq<char>, Seq<char>)>| #[trigger] units.map().dom().contains(u) == placed_units(m).contains(u) by {
            if units.map().contains_key(u) {
                let q = choose|q: int| 0 <= q < n && (#[trigger] s[q]).1.placement.place && pcb_unit_spec(s[q].0@) == u;
                crate::sorted_map::lemma_map_at(s, q);
                assert(m.contains_key(s[q].0@));
            }
            if placed_units(m).contains(u) {
                let x = choose|x: Seq<(Seq<char>, Seq<char>)>| #[trigger] m.contains_key(x) && m[x].placement.place && pcb_unit_spec(x) == u;
                let q = choose|q: int| 0 <= q < s.len() && #[trigger] s[q].0.key_view() == x;
                crate::sorted_map::lemma_map_at(s, q);
                assert(0 <= q < n);
            }
        }
        assert(units.map().dom() =~= placed_units(m));
    }
    units
}

/// Whether the first unit (in path order) with placements to place that names a
/// pcb, if there is one, names a pcb of the project: what the report of a project
/// with ordered phases needs.
pub fn first_pcb_unit_in_range(project: &Project) -> (r: bool)
    requires
        project.placements.wf(),
    ensures
        r == forall|u: Seq<(Seq<char>, Seq<char>)>| #[trigger] is_first_pcb_unit(project.placements.map(), u)
            ==> 1 <= pcb_index_of(u) <= project.pcbs@.len(),
{
    let units = placed_pcb_units(project);
    let first = first_pcb_unit(&units);
    let ghost m = project.placements.map();
    match first {
        Some((u, _kind, index)) => {
            proof {
                assert(is_first_pcb_unit(m, u@));
                assert forall|v: Seq<(Seq<char>, Seq<char>)>| #[trigger] is_first_pcb_unit(m, v) implies v == u@ by {
                    lemma_path_total_order(u@, v, v);
                    assert(not_after(path_compare(u@, v)));
                    assert(not_after(path_compare(v, u@)));
                }
            }
            1 <= index && index <= project.pcbs.len()
        },
        None => {
            proof {
                assert forall|v: Seq<(Seq<char>, Seq<char>)>| !#[trigger] is_first_pcb_unit(m, v) by {
                    if is_first_pcb_unit(m, v) {
                        assert(units.map().contains_key(v));
                    }
                }
            }
            true
        },
    }
}

/// The first of the units (in path order) that names a pcb kind and index.
fn first_pcb_unit(units: &SortedMap<ObjectPath, ()>) -> (r: Option<(ObjectPath, PcbKind, usize)>)
    requires
        units.wf(),
    ensures
        match r {
            Some((u, kind, index)) => {
                &&& units.map().contains_key(u@)
                &&& pcb_kind_and_index_spec(u@) == Some((kind, index as nat))
                &&& forall|v: Seq<(Seq<char>, Seq<char>)>| #[trigger] units.map().contains_key(v) && pcb_kind_and_index_spec(v) is Some
                    ==> not_after(path_compare(u@, v))
            },
            None => forall|v: Seq<(Seq<char>, Seq<char>)>| #[trigger] units.map().contains_key(v) ==> pcb_kind_and_index_spec(v) is None,
        },
{
    let ghost s = units.seq();
    let n = units.len();
    let mut k: usize = 0;
    while k < n
        invariant
            n == s.len(),
            s == units.seq(),
            keys_increasing(s),
            k <= n,
            forall|q: int| 0 <= q < k ==> pcb_kind_and_index_spec((#[trigger] s[q]).0@) is None,
        decreases n - k,
    {
        let unit = &units.entry(k).0;
        match unit.pcb_kind_and_index() {
            Some((kind, index)) => {
                proof {
                    crate::sorted_map::lemma_map_at(s, k as int);
                    assert forall|v: Seq<(Seq<char>, Seq<char>)>| #[trigger] units.map().contains_key(v) && pcb_kind_and_index_spec(v) is Some
                        implies not_after(path_compare(s[k as int].0@, v)) by {
                        let q = choose|q: int| 0 <= q < s.len() && #[trigger] s[q].0.key_view() == v;
                        if q > k {
                            assert(ObjectPath::key_order(s[k as int].0.key_view(), s[q].0.key_view()) == Comparison::Less);
                        } else if q == k {
                            crate::pnp::object_path::lemma_path_compare_equal(v, v);
                        }
                    }
                }
                return Some((unit.copy(), kind, index));
            },
            None => {},
        }
        k = k + 1;
    }
    proof {
        assert forall|v: Seq<(Seq<char>, Seq<char>)>| #[trigger] units.map().contains_key(v) implies pcb_kind_and_index_spec(v) is None by {
            let q = choose|q: int| 0 <= q < s.len() && #[trigger] s[q].0.key_view() == v;
        }
    }
    None
}

/// The assignment of the unit, if it has one.
fn find_unit_assignments(project: &Project, unit_path: &ObjectPath) -> (r: Vec<PcbUnitAssignmentItem>)
    requires
        project.unit_assignments.wf(),
    ensures
        if project.unit_assignments.map().contains_key(unit_path@) {
            r@.len() == 1 && assignment_item_for(*project, unit_path@, r@[0])
        } else {
            r@.len() == 0
        },
{
    let mut r: Vec<PcbUnitAssignmentItem> = Vec::new();
    match project.unit_assignments.get(unit_path) {
        Some(design_variant) => {
            r.push(PcbUnitAssignmentItem {
                unit_path: unit_path.copy(),
                design_name: design_variant.design_name.copy(),
                variant_name: design_variant.variant_name.copy(),
            });
        },
        None => {},
    }
    r
}

/// The pcb item of a unit that names a pcb kind and an index within the pcbs.
fn build_pcb_item(project: &Project, unit: &ObjectPath, kind: PcbKind, index: usize) -> (r: PcbReportItem)
    requires
        project.unit_assignments.wf(),
        pcb_kind_and_index_spec(unit@) == Some((kind, index as nat)),
        1 <= index <= project.pcbs@.len(),
    ensures
        pcb_item_for(*project, unit@, r),
{
    let mut unit_assignments = find_unit_assignments(project, unit);
    let pcb = &project.pcbs[index - 1];
    match kind {
        PcbKind::Panel => PcbReportItem::Panel { name: pcb.name.clone(), unit_assignments },
        PcbKind::Single => PcbReportItem::Single { name: pcb.name.clone(), unit_assignment: unit_assignments.pop() },
    }
}

/// Builds the specification of a phase.
fn build_phase_specification(
    project: &Project,
    key: &Reference,
    phase: &Phase,
    items: &Vec<LoadOutItem>,
    units: &SortedMap<ObjectPath, ()>,
    first: &Option<(ObjectPath, PcbKind, usize)>,
) -> (r: PhaseSpecification)
    requires
        project.wf(),
        project.placements.seq().len() <= u32::MAX,
        project.phases.map().contains_key(key@),
        project.phases.map()[key@] == *phase,
        units.wf(),
        units.map().dom() == placed_units(project.placements.map()),
        match *first {
            Some((u, kind, index)) => {
                &&& is_first_pcb_unit(project.placements.map(), u@)
                &&& pcb_kind_and_index_spec(u@) == Some((kind, index as nat))
                &&& 1 <= index <= project.pcbs@.len()
            },
            None => forall|u: Seq<(Seq<char>, Seq<char>)>| !is_first_pcb_unit(project.placements.map(), u),
        },
    ensures
        phase_specification_for(*project, key@, items@, r),
{
    let ghost m = project.placements.map();
    let mut load_out_assignments: Vec<PhaseLoadOutAssignmentItem> = Vec::new();
    let mut j: usize = 0;
    while j < items.len()
        invariant
            j <= items@.len(),
            project.placements.seq().len() <= u32::MAX,
            load_out_assignments@.len() == j,
            forall|q: int| 0 <= q < j ==> {
                let a = #[trigger] load_out_assignments@[q];
                &&& a.feeder_reference@ == items@[q].reference@
                &&& a.manufacturer@ == items@[q].manufacturer@
                &&& a.mpn@ == items@[q].mpn@
                &&& a.quantity == load_out_quantity(project.placements.seq(), phase.reference@, (items@[q].manufacturer@, items@[q].mpn@))
            },
        decreases items@.len() - j,
    {
        let item = &items[j];
        let quantity = count_load_out_quantity(project, &phase.reference, item);
        load_out_assignments.push(PhaseLoadOutAssignmentItem {
            feeder_reference: item.reference.clone(),
            manufacturer: item.manufacturer.clone(),
            mpn: item.mpn.clone(),
            quantity,
        });
        j = j + 1;
    }
    let mut operations: Vec<PhaseOperation> = Vec::new();
    if units.len() > 0 {
        let mut pcbs: Vec<PcbReportItem> = Vec::new();
        match first {
            Some((unit, kind, index)) => {
                let item = build_pcb_item(project, unit, *kind, *index);
                pcbs.push(item);
                proof {
                    let u = choose|u: Seq<(Seq<char>, Seq<char>)>| is_first_pcb_unit(m, u);
                    assert(is_first_pcb_unit(m, unit@));
                    assert(not_after(path_compare(u, unit@)));
                    assert(not_after(path_compare(unit@, u)));
                    crate::pnp::object_path::lemma_path_compare_flip(u, unit@);
                    crate::pnp::object_path::lemma_path_compare_equal(u, unit@);
                    assert(u == unit@);
                }
            },
            None => {},
        }
        operations.push(PhaseOperation::PreparePcbs { pcbs });
        proof {
            crate::sorted_map::lemma_map_at(units.seq(), 0);
            assert(placed_units(m).contains(units.seq()[0].0@));
            assert(placed_units(m) != Set::<Seq<(Seq<char>, Seq<char>)>>::empty());
        }
    } else {
        proof {
            assert forall|u: Seq<(Seq<char>, Seq<char>)>| !#[trigger] placed_units(m).contains(u) by {
                if units.map().contains_key(u) {
                    let q = choose|q: int| 0 <= q < units.seq().len() && #[trigger] units.seq()[q].0.key_view() == u;
                }
            }
            assert(placed_units(m) =~= Set::<Seq<(Seq<char>, Seq<char>)>>::empty());
        }
    }
    PhaseSpecification { phase_name: phase.reference.to_string(), operations, load_out_assignments }
}

/// Reordering a set of issues keeps it a set of the same issues.
proof fn lemma_same_issues(s1: Seq<ProjectReportIssue>, s2: Seq<ProjectReportIssue>)
    requires
        s1.to_multiset() == s2.to_multiset(),
        issue_set(s1),
    ensures
        issue_set(s2),
        issue_views(s2).to_set() == issue_views(s1).to_set(),
{
    broadcast use vstd::seq_lib::group_to_multiset_ensures;
    assert forall|i: int, j: int| 0 <= i < s1.len() && 0 <= j < s1.len() && i != j implies s1[i] != s1[j] by {
        assert(issue_views(s1)[i] == s1[i]@ && issue_views(s1)[j] == s1[j]@);
    }
    assert(s1.no_duplicates());
    s1.lemma_multiset_has_no_duplicates();
    s2.lemma_multiset_has_no_duplicates_conv();
    assert forall|i: int, j: int| 0 <= i < s2.len() && 0 <= j < s2.len() && i != j implies issue_views(s2)[i] != issue_views(s2)[j] by {
        assert(issue_views(s2)[i] == s2[i]@ && issue_views(s2)[j] == s2[j]@);
        assert(s2.contains(s2[i]) && s2.contains(s2[j]));
        assert(s2.to_multiset().count(s2[i]) > 0);
        assert(s1.contains(s2[i]));
        assert(s1.to_multiset().count(s2[j]) > 0);
        assert(s1.contains(s2[j]));
        let p = choose|p: int| 0 <= p < s1.len() && s1[p] == s2[i];
        let q = choose|q: int| 0 <= q < s1.len() && s1[q] == s2[j];
        assert(issue_views(s1)[p] == s1[p]@ && issue_views(s1)[q] == s1[q]@);
    }
    assert forall|v: (Seq<char>, IssueSeverity, IssueKindView)| #[trigger] issue_views(s2).to_set().contains(v) == issue_views(s1).to_set().contains(v) by {
        if issue_views(s2).contains(v) {
            let i = choose|i: int| 0 <= i < issue_views(s2).len() && issue_views(s2)[i] == v;
            assert(s2.contains(s2[i]));
            assert(s2.to_multiset().count(s2[i]) > 0);
            assert(s1.contains(s2[i]));
            let p = choose|p: int| 0 <= p < s1.len() && s1[p] == s2[i];
            assert(issue_views(s1)[p] == v);
        }
        if issue_views(s1).contains(v) {
            let i = choose|i: int| 0 <= i < issue_views(s1).len() && issue_views(s1)[i] == v;
            assert(s1.contains(s1[i]));
            assert(s1.to_multiset().count(s1[i]) > 0);
            assert(s2.contains(s1[i]));
            let p = choose|p: int| 0 <= p < s2.len() && s2[p] == s1[i];
            assert(issue_views(s2)[p] == v);
        }
    }
    assert(issue_views(s2).to_set() =~= issue_views(s1).to_set());
}

/// Generates a project's report. Adds the issues found to the set of issues
/// (which holds the issues already found while generating the phases' artifacts)
/// and returns the report, whose issues are that set in report order.
///
/// Every phase of the ordering must exist and have its load-out items given; the
/// first pcb unit that names a pcb must name one of the project's pcbs.
pub fn project_generate_report(
    project: &Project,
    phase_load_out_items_map: &SortedMap<Reference, Vec<LoadOutItem>>,
    issues: &mut Vec<ProjectReportIssue>,
) -> (r: ProjectReport)
    requires
        project.wf(),
        phase_load_out_items_map.wf(),
        issue_set(old(issues)@),
        project.placements.seq().len() <= u32::MAX,
        forall|i: int| 0 <= i < project.phase_orderings@.len() ==> {
            &&& project.phases.map().contains_key((#[trigger] project.phase_orderings@[i])@)
            &&& phase_load_out_items_map.map().contains_key(project.phase_orderings@[i]@)
        },
        project.phase_orderings@.len() > 0 ==> forall|u: Seq<(Seq<char>, Seq<char>)>| #[trigger] is_first_pcb_unit(project.placements.map(), u)
            ==> 1 <= pcb_index_of(u) <= project.pcbs@.len(),
    ensures
        r.name@ == project.name@,
        project.phases.seq().len() > 0 ==> {
            &&& r.phase_overviews@.len() == project.phase_orderings@.len()
            &&& forall|i: int| 0 <= i < project.phase_orderings@.len() ==> {
                let phase = project.phases.map()[(#[trigger] project.phase_orderings@[i])@];
                &&& r.phase_overviews@[i].phase_name@ == phase.reference@
                &&& r.phase_overviews@[i].process@ == phase.process@
            }
        },
        project.phases.seq().len() == 0 ==> r.phase_overviews@.len() == 0,
        r.phase_specifications@.len() == project.phase_orderings@.len(),
        forall|i: int| 0 <= i < project.phase_orderings@.len() ==> phase_specification_for(
            *project,
            (#[trigger] project.phase_orderings@[i])@,
            phase_load_out_items_map.map()[project.phase_orderings@[i]@]@,
            r.phase_specifications@[i],
        ),
        issue_set(final(issues)@),
        issue_views(final(issues)@).to_set() == issue_views(old(issues)@).to_set().union(project_issues(*project)),
        issue_set(r.issues@),
        issue_views(r.issues@).to_set() == issue_views(final(issues)@).to_set(),
        issues_sorted(r.issues@),
{
    let ghost start = issue_views(issues@).to_set();
    let name = project.name.clone();
    if project.pcbs.len() == 0 {
        insert_issue(issues, ProjectReportIssue {
            message: "No PCBs have been assigned to the project.".to_owned(),
            severity: IssueSeverity::Severe,
            kind: IssueKind::NoPcbsAssigned,
        });
    }
    let ghost after_pcbs = issue_views(issues@).to_set();
    let mut phase_overviews: Vec<PhaseOverview> = Vec::new();
    if project.phases.len() > 0 {
        let mut i: usize = 0;
        while i < project.phase_orderings.len()
            invariant
                i <= project.phase_orderings@.len(),
                project.wf(),
                forall|q: int| 0 <= q < project.phase_orderings@.len() ==> project.phases.map().contains_key((#[trigger] project.phase_orderings@[q])@),
                phase_overviews@.len() == i,
                forall|q: int| 0 <= q < i ==> {
                    let phase = project.phases.map()[(#[trigger] project.phase_orderings@[q])@];
                    &&& phase_overviews@[q].phase_name@ == phase.reference@
                    &&& phase_overviews@[q].process@ == phase.process@
                },
            decreases project.phase_orderings@.len() - i,
        {
            let reference = &project.phase_orderings[i];
            match project.phases.get(reference) {
                Some(phase) => {
                    phase_overviews.push(PhaseOverview { phase_name: phase.reference.to_string(), process: phase.process.to_string() });
                },
                None => {
                    proof {
                        assert(project.phases.map().contains_key(project.phase_orderings@[i as int]@));
                    }
                },
            }
            i = i + 1;
        }
    } else {
        insert_issue(issues, ProjectReportIssue {
            message: "No phases have been created.".to_owned(),
            severity: IssueSeverity::Severe,
            kind: IssueKind::NoPhasesCreated,
        });
    }
    let ghost after_phases = issue_views(issues@).to_set();
    add_unit_assignment_issues(project, issues);
    let ghost after_units = issue_views(issues@).to_set();
    let units = placed_pcb_units(project);
    let first = first_pcb_unit(&units);
    proof {
        match &first {
            Some(t) => {
                assert(is_first_pcb_unit(project.placements.map(), t.0@));
            },
            None => {
                assert forall|u: Seq<(Seq<char>, Seq<char>)>| !is_first_pcb_unit(project.placements.map(), u) by {
                    if is_first_pcb_unit(project.placements.map(), u) {
                        assert(units.map().contains_key(u));
                    }
                }
            },
        }
    }
    let mut phase_specifications: Vec<PhaseSpecification> = Vec::new();
    let mut i: usize = 0;
    while i < project.phase_orderings.len()
        invariant
            i <= project.phase_orderings@.len(),
            project.wf(),
            phase_load_out_items_map.wf(),
            project.placements.seq().len() <= u32::MAX,
            forall|q: int| 0 <= q < project.phase_orderings@.len() ==> {
                &&& project.phases.map().contains_key((#[trigger] project.phase_orderings@[q])@)
                &&& phase_load_out_items_map.map().contains_key(project.phase_orderings@[q]@)
            },
            units.wf(),
            units.map().dom() == placed_units(project.placements.map()),
            project.phase_orderings@.len() > 0 ==> match first {
                Some((u, kind, index)) => {
                    &&& is_first_pcb_unit(project.placements.map(), u@)
                    &&& pcb_kind_and_index_spec(u@) == Some((kind, index as nat))
                    &&& 1 <= index <= project.pcbs@.len()
                },
                None => forall|u: Seq<(Seq<char>, Seq<char>)>| !is_first_pcb_unit(project.placements.map(), u),
            },
            phase_specifications@.len() == i,
            forall|q: int| 0 <= q < i ==> phase_specification_for(
                *project,
                (#[trigger] project.phase_orderings@[q])@,
                phase_load_out_items_map.map()[project.phase_orderings@[q]@]@,
                phase_specifications@[q],
            ),
        decreases project.phase_orderings@.len() - i,
    {
        let reference = &project.phase_orderings[i];
        proof {
            assert(project.phases.map().contains_key(project.phase_orderings@[i as int]@));
            assert(phase_load_out_items_map.map().contains_key(project.phase_orderings@[i as int]@));
        }
        let phase = match project.phases.get(reference) {
            Some(phase) => phase,
            None => {
                return ProjectReport { name, phase_overviews, phase_specifications, issues: Vec::new() };
            },
        };
        let items = match phase_load_out_items_map.get(reference) {
            Some(items) => items,
            None => {
                return ProjectReport { name, phase_overviews, phase_specifications, issues: Vec::new() };
            },
        };
        proof {
            let ph = project.phases.map()[reference@];
            let q = choose|q: int| 0 <= q < project.phases.seq().len() && #[trigger] project.phases.seq()[q].0.key_view() == reference@;
            assert(ph == *phase);
        }
        let spec = build_phase_specification(project, reference, phase, items, &units, &first);
        phase_specifications.push(spec);
        i = i + 1;
    }
    project_report_add_placement_issues(project, issues);
    proof {
        let all = project_issues(*project);
        let pcbs_part = if project.pcbs@.len() == 0 { set![no_pcbs_issue()] } else { Set::empty() };
        let phases_part = if project.phases.seq().len() == 0 { set![no_phases_issue()] } else { Set::empty() };
        assert(after_pcbs =~= start.union(pcbs_part));
        assert(after_phases =~= after_pcbs.union(phases_part));
        assert(issue_views(issues@).to_set() =~= start.union(all));
    }
    let ghost before_sort = issues@;
    project_report_sort_issues(issues);
    proof {
        lemma_same_issues(before_sort, issues@);
    }
    let mut sorted: Vec<ProjectReportIssue> = Vec::new();
    let mut k: usize = 0;
    while k < issues.len()
        invariant
            k <= issues@.len(),
            sorted@.len() == k,
            forall|q: int| 0 <= q < k ==> (#[trigger] sorted@[q])@ == issues@[q]@,
        decreases issues@.len() - k,
    {
        sorted.push(copy_issue(&issues[k]));
        k = k + 1;
    }
    proof {
        assert(issue_views(sorted@) =~= issue_views(issues@));
        assert forall|a: int, b: int| 0 <= a < b < sorted@.len() implies not_after(#[trigger] issue_compare(sorted@[a]@, sorted@[b]@)) by {
            assert(issue_compare(issues@[a]@, issues@[b]@) == issue_compare(sorted@[a]@, sorted@[b]@));
        }
    }
    ProjectReport { name, phase_overviews, phase_specifications, issues: sorted }
}

/// The file name of a project's report.
pub open spec fn report_file_name(name: Seq<char>) -> Seq<char> {
    name + "_report.json"@
}

/// The path of a project's report in a directory: `<name>_report.json`.
pub fn build_report_file_path(name: &str, path: &str) -> (r: String)
    ensures
        r@ == path_in_directory(path@, report_file_name(name@)),
{
    proof {
        reveal_strlit("_report.json");
    }
    let mut file: Vec<char> = Vec::new();
    push_str(&mut file, name);
    push_str(&mut file, "_report.json");
    let file_name = string_from_chars(file);
    assert(file_name@ =~= report_file_name(name@));
    push_file_name(path, file_name.as_str())
}

} // verus!
