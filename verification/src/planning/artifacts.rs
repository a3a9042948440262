//! The artifacts of a phase: its placements in the phase's order, each with the
//! feeder that holds its part, and the issues of parts that no feeder holds.
use vstd::prelude::*;
use crate::text::{Comparison, lex_compare, compare_str, lemma_lex_compare_flip, lemma_lex_compare_equal, lemma_lex_compare_less_transitive};
use crate::order::lemma_path_compare_less_transitive;
use crate::pnp::object_path::{ObjectPath, path_compare, pcb_unit_spec, lemma_path_compare_flip, lemma_path_compare_equal};
use crate::pnp::load_out_item::{LoadOutItem, find_load_out_item_by_part};
use crate::pnp::part::Part;
use crate::pnp::decimal::DecimalValue;
use crate::planning::placement::{PlacementSortingItem, PlacementSortingMode, PlacementState};
use crate::planning::{LoadOutSource, SortOrder};
use crate::planning::phase::Phase;
use crate::planning::project::Project;
use crate::planning::report::{ProjectReportIssue, IssueSeverity, IssueKind, IssueKindView, issue_set, issue_views, insert_issue};
use crate::sorted_map::{SortedMap, keys_increasing, lemma_map_at, lemma_keys_distinct, has_key, index_of_key};

verus! {

/// Errors of generating the artifacts of a project; the causes are given as text.
#[derive(Debug, Clone, PartialEq, Eq)]
pub enum ArtifactGenerationError {
    PhasePlacementsGenerationError(String),
    UnableToLoadItems { load_out_source: LoadOutSource, reason: String },
    ReportGenerationError { reason: String },
}

/// A row of a phase's placements file.
#[derive(Debug, Clone, PartialEq, Eq)]
pub struct PhasePlacementRecord {
    pub object_path: ObjectPath,
    pub feeder_reference: String,
    pub manufacturer: String,
    pub mpn: String,
    pub x: DecimalValue,
    pub y: DecimalValue,
    pub rotation: DecimalValue,
}

/// The reference of the first load-out item that holds the part, or the empty
/// text where none does.
pub open spec fn feeder_of(items: Seq<LoadOutItem>, part: (Seq<char>, Seq<char>)) -> Seq<char>
    decreases items.len(),
{
    if items.len() == 0 {
        Seq::empty()
    } else if items[0].holds(part) {
        items[0].reference@
    } else {
        feeder_of(items.drop_first(), part)
    }
}

proof fn lemma_feeder_at(items: Seq<LoadOutItem>, part: (Seq<char>, Seq<char>), k: int)
    requires
        0 <= k < items.len(),
        items[k].holds(part),
        forall|j: int| 0 <= j < k ==> !items[j].holds(part),
    ensures
        feeder_of(items, part) == items[k].reference@,
    decreases k,
{
    if k > 0 {
        assert(!items[0].holds(part));
        let rest = items.drop_first();
        assert forall|j: int| 0 <= j < k - 1 implies !rest[j].holds(part) by {
            assert(rest[j] == items[j + 1]);
        }
        lemma_feeder_at(rest, part, k - 1);
    }
}

proof fn lemma_feeder_none(items: Seq<LoadOutItem>, part: (Seq<char>, Seq<char>))
    requires
        forall|j: int| 0 <= j < items.len() ==> !items[j].holds(part),
    ensures
        feeder_of(items, part) == Seq::<char>::empty(),
    decreases items.len(),
{
    if items.len() > 0 {
        assert(!items[0].holds(part));
        let rest = items.drop_first();
        assert forall|j: int| 0 <= j < rest.len() implies !rest[j].holds(part) by {
            assert(rest[j] == items[j + 1]);
        }
        lemma_feeder_none(rest, part);
    }
}

/// The reference of the feeder holding the part, or the empty text.
pub fn feeder_reference_for(items: &[LoadOutItem], part: &Part) -> (r: String)
    ensures
        r@ == feeder_of(items@, part@),
{
    match find_load_out_item_by_part(items, part) {
        Some(k) => {
            proof {
                lemma_feeder_at(items@, part@, k as int);
            }
            items[k].reference.clone()
        },
        None => {
            proof {
                lemma_feeder_none(items@, part@);
            }
            String::new()
        },
    }
}

/// The comparison of two placements by one criterion: their feeder references or
/// their pcb units, reversed for a descending order.
pub open spec fn ordering_compare(
    o: PlacementSortingItem,
    fa: Seq<char>,
    fb: Seq<char>,
    ua: Seq<(Seq<char>, Seq<char>)>,
    ub: Seq<(Seq<char>, Seq<char>)>,
) -> Comparison {
    let c = match o.mode {
        PlacementSortingMode::FeederReference => lex_compare(fa, fb),
        PlacementSortingMode::PcbUnit => path_compare(ua, ub),
    };
    match o.sort_order {
        SortOrder::Asc => c,
        SortOrder::Desc => c.flipped(),
    }
}

/// The comparison by the first criterion that tells the placements apart.
pub open spec fn orderings_compare(
    os: Seq<PlacementSortingItem>,
    fa: Seq<char>,
    fb: Seq<char>,
    ua: Seq<(Seq<char>, Seq<char>)>,
    ub: Seq<(Seq<char>, Seq<char>)>,
) -> Comparison
    decreases os.len(),
{
    if os.len() == 0 {
        Comparison::Equal
    } else {
        let c = ordering_compare(os[0], fa, fb, ua, ub);
        if c == Comparison::Equal {
            orderings_compare(os.drop_first(), fa, fb, ua, ub)
        } else {
            c
        }
    }
}

/// The order of a phase's placements, given their feeder references and object
/// paths: by the phase's orderings, then, where they tell two apart not, by path.
#[verifier::opaque]
pub open spec fn placement_order(
    os: Seq<PlacementSortingItem>,
    fa: Seq<char>,
    fb: Seq<char>,
    pa: Seq<(Seq<char>, Seq<char>)>,
    pb: Seq<(Seq<char>, Seq<char>)>,
) -> Comparison {
    let c = orderings_compare(os, fa, fb, pcb_unit_spec(pa), pcb_unit_spec(pb));
    if c == Comparison::Equal {
        path_compare(pa, pb)
    } else {
        c
    }
}

proof fn lemma_orderings_flip(
    os: Seq<PlacementSortingItem>,
    fa: Seq<char>,
    fb: Seq<char>,
    ua: Seq<(Seq<char>, Seq<char>)>,
    ub: Seq<(Seq<char>, Seq<char>)>,
)
    ensures
        orderings_compare(os, fb, fa, ub, ua) == orderings_compare(os, fa, fb, ua, ub).flipped(),
    decreases os.len(),
{
    lemma_lex_compare_flip(fa, fb);
    lemma_path_compare_flip(ua, ub);
    if os.len() > 0 {
        lemma_orderings_flip(os.drop_first(), fa, fb, ua, ub);
    }
}

/// Swapping the placements flips their order.
pub proof fn lemma_placement_order_flip(
    os: Seq<PlacementSortingItem>,
    fa: Seq<char>,
    fb: Seq<char>,
    pa: Seq<(Seq<char>, Seq<char>)>,
    pb: Seq<(Seq<char>, Seq<char>)>,
)
    ensures
        placement_order(os, fb, fa, pb, pa) == placement_order(os, fa, fb, pa, pb).flipped(),
        (placement_order(os, fa, fb, pa, pb) == Comparison::Equal) ==> pa == pb,
{
    reveal(placement_order);
    lemma_orderings_flip(os, fa, fb, pcb_unit_spec(pa), pcb_unit_spec(pb));
    lemma_path_compare_flip(pa, pb);
    lemma_path_compare_equal(pa, pb);
}

proof fn lemma_ordering_equal_right(
    o: PlacementSortingItem,
    fa: Seq<char>,
    fb: Seq<char>,
    fc: Seq<char>,
    ua: Seq<(Seq<char>, Seq<char>)>,
    ub: Seq<(Seq<char>, Seq<char>)>,
    uc: Seq<(Seq<char>, Seq<char>)>,
)
    ensures
        ordering_compare(o, fb, fc, ub, uc) == Comparison::Equal ==> ordering_compare(o, fa, fc, ua, uc) == ordering_compare(o, fa, fb, ua, ub),
        ordering_compare(o, fa, fb, ua, ub) == Comparison::Equal ==> ordering_compare(o, fa, fc, ua, uc) == ordering_compare(o, fb, fc, ub, uc),
{
    lemma_lex_compare_equal(fb, fc);
    lemma_lex_compare_equal(fa, fb);
    lemma_path_compare_equal(ub, uc);
    lemma_path_compare_equal(ua, ub);
}

proof fn lemma_orderings_equal(
    os: Seq<PlacementSortingItem>,
    fa: Seq<char>,
    fb: Seq<char>,
    fc: Seq<char>,
    ua: Seq<(Seq<char>, Seq<char>)>,
    ub: Seq<(Seq<char>, Seq<char>)>,
    uc: Seq<(Seq<char>, Seq<char>)>,
)
    ensures
        orderings_compare(os, fb, fc, ub, uc) == Comparison::Equal ==> orderings_compare(os, fa, fc, ua, uc) == orderings_compare(os, fa, fb, ua, ub),
        orderings_compare(os, fa, fb, ua, ub) == Comparison::Equal ==> orderings_compare(os, fa, fc, ua, uc) == orderings_compare(os, fb, fc, ub, uc),
    decreases os.len(),
{
    if os.len() > 0 {
        lemma_ordering_equal_right(os[0], fa, fb, fc, ua, ub, uc);
        lemma_orderings_equal(os.drop_first(), fa, fb, fc, ua, ub, uc);
    }
}

proof fn lemma_ordering_less_transitive(
    o: PlacementSortingItem,
    fa: Seq<char>,
    fb: Seq<char>,
    fc: Seq<char>,
    ua: Seq<(Seq<char>, Seq<char>)>,
    ub: Seq<(Seq<char>, Seq<char>)>,
    uc: Seq<(Seq<char>, Seq<char>)>,
)
    requires
        ordering_compare(o, fa, fb, ua, ub) == Comparison::Less,
        ordering_compare(o, fb, fc, ub, uc) == Comparison::Less,
    ensures
        ordering_compare(o, fa, fc, ua, uc) == Comparison::Less,
{
    lemma_lex_compare_flip(fa, fb);
    lemma_lex_compare_flip(fb, fc);
    lemma_lex_compare_flip(fa, fc);
    lemma_path_compare_flip(ua, ub);
    lemma_path_compare_flip(ub, uc);
    lemma_path_compare_flip(ua, uc);
    match (o.mode, o.sort_order) {
        (PlacementSortingMode::FeederReference, SortOrder::Asc) => lemma_lex_compare_less_transitive(fa, fb, fc),
        (PlacementSortingMode::FeederReference, SortOrder::Desc) => lemma_lex_compare_less_transitive(fc, fb, fa),
        (PlacementSortingMode::PcbUnit, SortOrder::Asc) => lemma_path_compare_less_transitive(ua, ub, uc),
        (PlacementSortingMode::PcbUnit, SortOrder::Desc) => lemma_path_compare_less_transitive(uc, ub, ua),
    }
}

proof fn lemma_orderings_less_transitive(
    os: Seq<PlacementSortingItem>,
    fa: Seq<char>,
    fb: Seq<char>,
    fc: Seq<char>,
    ua: Seq<(Seq<char>, Seq<char>)>,
    ub: Seq<(Seq<char>, Seq<char>)>,
    uc: Seq<(Seq<char>, Seq<char>)>,
)
    requires
        orderings_compare(os, fa, fb, ua, ub) == Comparison::Less,
        orderings_compare(os, fb, fc, ub, uc) == Comparison::Less,
    ensures
        orderings_compare(os, fa, fc, ua, uc) == Comparison::Less,
    decreases os.len(),
{
    let c1 = ordering_compare(os[0], fa, fb, ua, ub);
    let c2 = ordering_compare(os[0], fb, fc, ub, uc);
    lemma_ordering_equal_right(os[0], fa, fb, fc, ua, ub, uc);
    if c1 == Comparison::Equal && c2 == Comparison::Equal {
        lemma_orderings_less_transitive(os.drop_first(), fa, fb, fc, ua, ub, uc);
    } else if c1 != Comparison::Equal && c2 != Comparison::Equal {
        lemma_ordering_less_transitive(os[0], fa, fb, fc, ua, ub, uc);
    }
}

/// The order of a phase's placements is transitive: with the swap of
/// `lemma_placement_order_flip` it is a strict total order on placements with
/// distinct object paths, so the order of a phase's placements is determined.
pub proof fn lemma_placement_order_transitive(
    os: Seq<PlacementSortingItem>,
    fa: Seq<char>,
    fb: Seq<char>,
    fc: Seq<char>,
    pa: Seq<(Seq<char>, Seq<char>)>,
    pb: Seq<(Seq<char>, Seq<char>)>,
    pc: Seq<(Seq<char>, Seq<char>)>,
)
    requires
        placement_order(os, fa, fb, pa, pb) == Comparison::Less,
        placement_order(os, fb, fc, pb, pc) == Comparison::Less,
    ensures
        placement_order(os, fa, fc, pa, pc) == Comparison::Less,
{
    reveal(placement_order);
    let ua = pcb_unit_spec(pa);
    let ub = pcb_unit_spec(pb);
    let uc = pcb_unit_spec(pc);
    let o1 = orderings_compare(os, fa, fb, ua, ub);
    let o2 = orderings_compare(os, fb, fc, ub, uc);
    lemma_orderings_equal(os, fa, fb, fc, ua, ub, uc);
    if o1 == Comparison::Equal && o2 == Comparison::Equal {
        lemma_path_compare_less_transitive(pa, pb, pc);
    } else if o1 != Comparison::Equal && o2 != Comparison::Equal {
        lemma_orderings_less_transitive(os, fa, fb, fc, ua, ub, uc);
    }
}

/// Compares two placements by the orderings, given their feeder references and
/// pcb units.
fn compare_by_orderings(os: &Vec<PlacementSortingItem>, fa: &str, fb: &str, ua: &ObjectPath, ub: &ObjectPath) -> (r: Comparison)
    ensures
        r == orderings_compare(os@, fa@, fb@, ua@, ub@),
{
    let mut k: usize = os.len();
    let mut acc = Comparison::Equal;
    proof {
        assert(os@.skip(os@.len() as int).len() == 0);
    }
    while k > 0
        invariant
            k <= os@.len(),
            acc == orderings_compare(os@.skip(k as int), fa@, fb@, ua@, ub@),
        decreases k,
    {
        k = k - 1;
        let o = os[k];
        let base = match o.mode {
            PlacementSortingMode::FeederReference => compare_str(fa, fb),
            PlacementSortingMode::PcbUnit => ua.compare(ub),
        };
        let c = match o.sort_order {
            SortOrder::Asc => base,
            SortOrder::Desc => base.reverse(),
        };
        proof {
            assert(os@.skip(k as int).drop_first() =~= os@.skip(k as int + 1));
            assert(os@.skip(k as int)[0] == os@[k as int]);
        }
        if !c.is_equal() {
            acc = c;
        }
    }
    proof {
        assert(os@.skip(0) =~= os@);
    }
    acc
}

/// Whether a placement is assigned to the phase.
pub open spec fn in_phase(s: PlacementState, phase_reference: Seq<char>) -> bool {
    s.phase is Some && s.phase->0@ == phase_reference
}

/// The paths of the placements assigned to the phase.
pub open spec fn phase_placement_paths(
    placements: Map<Seq<(Seq<char>, Seq<char>)>, PlacementState>,
    phase_reference: Seq<char>,
) -> Set<Seq<(Seq<char>, Seq<char>)>> {
    placements.dom().filter(|p: Seq<(Seq<char>, Seq<char>)>| in_phase(placements[p], phase_reference))
}

/// Whether the row describes the placement at the path, with the feeder of its part.
pub open spec fn record_of(rec: PhasePlacementRecord, s: PlacementState, items: Seq<LoadOutItem>) -> bool {
    &&& rec.feeder_reference@ == feeder_of(items, s.placement.part@)
    &&& rec.manufacturer@ == s.placement.part.manufacturer@
    &&& rec.mpn@ == s.placement.part.mpn@
    &&& rec.x == s.placement.x
    &&& rec.y == s.placement.y
    &&& rec.rotation == s.placement.rotation
}

/// The paths of rows, in order.
pub open spec fn record_paths(recs: Seq<PhasePlacementRecord>) -> Seq<Seq<(Seq<char>, Seq<char>)>> {
    recs.map_values(|rec: PhasePlacementRecord| rec.object_path@)
}

/// The issue of a part that no feeder holds.
pub open spec fn unassigned_feeder_issue(part: (Seq<char>, Seq<char>)) -> (Seq<char>, IssueSeverity, IssueKindView) {
    ("A part has not been assigned to a feeder"@, IssueSeverity::Warning, IssueKindView::UnassignedPartFeeder(part))
}

/// The issues of the rows whose feeder reference is empty.
pub open spec fn feeder_issues(recs: Seq<PhasePlacementRecord>) -> Set<(Seq<char>, IssueSeverity, IssueKindView)> {
    Set::new(
        |v: (Seq<char>, IssueSeverity, IssueKindView)|
            exists|c: int|
                0 <= c < recs.len() && (#[trigger] recs[c]).feeder_reference@.len() == 0 && v == unassigned_feeder_issue(
                    (recs[c].manufacturer@, recs[c].mpn@),
                ),
    )
}

/// A placement of the phase to be sorted: its position among the project's
/// placements, its feeder reference and its pcb unit.
type SortEntry = (usize, String, ObjectPath);

/// The facts kept of a sort entry: it is one of the first `bound` placements, of
/// the phase, with its feeder reference and pcb unit.
spec fn entry_ok(
    e: SortEntry,
    es: Seq<(ObjectPath, PlacementState)>,
    phase_reference: Seq<char>,
    items: Seq<LoadOutItem>,
    bound: int,
) -> bool {
    &&& 0 <= e.0 < bound
    &&& bound <= es.len()
    &&& in_phase(es[e.0 as int].1, phase_reference)
    &&& e.1@ == feeder_of(items, es[e.0 as int].1.placement.part@)
    &&& e.2@ == pcb_unit_spec(es[e.0 as int].0@)
}

/// The order of two sort entries.
spec fn entry_order(os: Seq<PlacementSortingItem>, es: Seq<(ObjectPath, PlacementState)>, a: SortEntry, b: SortEntry) -> Comparison {
    placement_order(os, a.1@, b.1@, es[a.0 as int].0@, es[b.0 as int].0@)
}

/// Entries of the first `bound` placements, each once, in order.
spec fn sorted_entries(
    out: Seq<SortEntry>,
    es: Seq<(ObjectPath, PlacementState)>,
    os: Seq<PlacementSortingItem>,
    phase_reference: Seq<char>,
    items: Seq<LoadOutItem>,
    bound: int,
) -> bool {
    &&& forall|c: int| 0 <= c < out.len() ==> entry_ok(#[trigger] out[c], es, phase_reference, items, bound)
    &&& forall|c: int, d: int| 0 <= c < d < out.len() ==> (#[trigger] out[c]).0 != (#[trigger] out[d]).0
    &&& forall|c: int| 0 <= c < out.len() - 1 ==> #[trigger] entry_order(os, es, out[c], out[c + 1]) == Comparison::Less
}

/// Whether placement `j` is of the phase.
spec fn selected_at(es: Seq<(ObjectPath, PlacementState)>, phase_reference: Seq<char>, j: int) -> bool {
    in_phase(es[j].1, phase_reference)
}

/// Every placement of the phase among the first `bound` has an entry.
spec fn covers(out: Seq<SortEntry>, es: Seq<(ObjectPath, PlacementState)>, phase_reference: Seq<char>, bound: int) -> bool {
    forall|j: int| 0 <= j < bound && #[trigger] selected_at(es, phase_reference, j) ==> exists|c: int|
        0 <= c < out.len() && (#[trigger] out[c]).0 == j
}

/// The position where an entry goes among sorted entries: the first whose entry
/// comes after it.
#[verifier::loop_isolation(false)]
fn insertion_position(
    orderings: &Vec<PlacementSortingItem>,
    placements: &SortedMap<ObjectPath, PlacementState>,
    out: &Vec<SortEntry>,
    x: &SortEntry,
) -> (p: usize)
    requires
        x.0 < placements.seq().len(),
        x.2@ == pcb_unit_spec(placements.seq()[x.0 as int].0@),
        forall|c: int| 0 <= c < out@.len() ==> {
            &&& (#[trigger] out@[c]).0 < placements.seq().len()
            &&& out@[c].2@ == pcb_unit_spec(placements.seq()[out@[c].0 as int].0@)
        },
    ensures
        p <= out@.len(),
        p < out@.len() ==> entry_order(orderings@, placements.seq(), *x, out@[p as int]) == Comparison::Less,
        forall|q: int| 0 <= q < p ==> entry_order(orderings@, placements.seq(), *x, #[trigger] out@[q]) != Comparison::Less,
{
    let mut p: usize = 0;
    while p < out.len()
        invariant
            p <= out@.len(),
            forall|q: int| 0 <= q < p ==> entry_order(orderings@, placements.seq(), *x, #[trigger] out@[q]) != Comparison::Less,
        decreases out@.len() - p,
    {
        let o = &out[p];
        proof {
            assert(out@[p as int].0 < placements.seq().len());
        }
        let c = compare_by_orderings(orderings, x.1.as_str(), o.1.as_str(), &x.2, &o.2);
        let c2 = if c.is_equal() {
            placements.entry(x.0).0.compare(&placements.entry(o.0).0)
        } else {
            c
        };
        proof {
            reveal(placement_order);
        }
        if let Comparison::Less = c2 {
            return p;
        }
        p = p + 1;
    }
    p
}

/// Inserts the entry of placement `i` at its position among the sorted entries of
/// the placements before it.
fn insert_entry(
    out: &mut Vec<SortEntry>,
    x: SortEntry,
    p: usize,
    Ghost(es): Ghost<Seq<(ObjectPath, PlacementState)>>,
    Ghost(os): Ghost<Seq<PlacementSortingItem>>,
    Ghost(pref): Ghost<Seq<char>>,
    Ghost(items): Ghost<Seq<LoadOutItem>>,
)
    requires
        keys_increasing(es),
        sorted_entries(old(out)@, es, os, pref, items, x.0 as int),
        covers(old(out)@, es, pref, x.0 as int),
        entry_ok(x, es, pref, items, x.0 + 1),
        p <= old(out)@.len(),
        p < old(out)@.len() ==> entry_order(os, es, x, old(out)@[p as int]) == Comparison::Less,
        forall|q: int| 0 <= q < p ==> entry_order(os, es, x, #[trigger] old(out)@[q]) != Comparison::Less,
    ensures
        sorted_entries(final(out)@, es, os, pref, items, x.0 + 1),
        covers(final(out)@, es, pref, x.0 + 1),
{
    let ghost before = out@;
    let ghost i = x.0 as int;
    proof {
        assert forall|q: int| 0 <= q < before.len() implies #[trigger] before[q].0 != i by {
            assert(entry_ok(before[q], es, pref, items, i));
        }
        if p > 0 {
            let y = before[p - 1];
            assert(entry_ok(y, es, pref, items, i));
            lemma_placement_order_flip(os, x.1@, y.1@, es[i].0@, es[y.0 as int].0@);
            lemma_keys_distinct(es, i, y.0 as int);
            assert(entry_order(os, es, x, y) != Comparison::Less);
            assert(entry_order(os, es, y, x) == Comparison::Less);
        }
    }
    out.insert(p, x);
    proof {
        assert forall|c: int| 0 <= c < out@.len() implies entry_ok(#[trigger] out@[c], es, pref, items, i + 1) by {
            if c < p {
                assert(out@[c] == before[c]);
                assert(entry_ok(before[c], es, pref, items, i));
            } else if c > p {
                assert(out@[c] == before[c - 1]);
                assert(entry_ok(before[c - 1], es, pref, items, i));
            }
        }
        assert forall|c: int, d: int| 0 <= c < d < out@.len() implies (#[trigger] out@[c]).0 != (#[trigger] out@[d]).0 by {
            if c < p && d < p {
                assert(out@[c] == before[c] && out@[d] == before[d]);
            } else if c < p && d == p {
                assert(out@[c] == before[c]);
            } else if c < p {
                assert(out@[c] == before[c] && out@[d] == before[d - 1]);
            } else if c == p {
                assert(out@[d] == before[d - 1]);
            } else {
                assert(out@[c] == before[c - 1] && out@[d] == before[d - 1]);
            }
        }
        assert forall|c: int| 0 <= c < out@.len() - 1 implies #[trigger] entry_order(os, es, out@[c], out@[c + 1]) == Comparison::Less by {
            if c + 1 < p {
                assert(out@[c] == before[c] && out@[c + 1] == before[c + 1]);
                assert(entry_order(os, es, before[c], before[c + 1]) == Comparison::Less);
            } else if c + 1 == p {
                assert(out@[c] == before[c]);
            } else if c == p {
                assert(out@[c + 1] == before[c]);
            } else {
                assert(out@[c] == before[c - 1] && out@[c + 1] == before[c]);
                let d = c - 1;
                assert(entry_order(os, es, before[d], before[d + 1]) == Comparison::Less);
            }
        }
        assert forall|j: int| 0 <= j < i + 1 && #[trigger] selected_at(es, pref, j) implies exists|c: int|
            0 <= c < out@.len() && (#[trigger] out@[c]).0 == j by {
            if j == i {
                assert(out@[p as int].0 == j);
            } else {
                let c = choose|c: int| 0 <= c < before.len() && (#[trigger] before[c]).0 == j;
                if c < p {
                    assert(out@[c] == before[c]);
                } else {
                    assert(out@[c + 1] == before[c]);
                }
            }
        }
    }
}

/// The entries of the phase's placements, in order.
fn sorted_phase_entries(project: &Project, phase: &Phase, load_out_items: &[LoadOutItem]) -> (out: Vec<SortEntry>)
    requires
        project.placements.wf(),
    ensures
        sorted_entries(out@, project.placements.seq(), phase.placement_orderings@, phase.reference@, load_out_items@, project.placements.seq().len() as int),
        covers(out@, project.placements.seq(), phase.reference@, project.placements.seq().len() as int),
{
    let ghost es = project.placements.seq();
    let ghost os = phase.placement_orderings@;
    let ghost pref = phase.reference@;
    let ghost items = load_out_items@;
    let n = project.placements.len();
    let mut out: Vec<SortEntry> = Vec::new();
    let mut i: usize = 0;
    while i < n
        invariant
            n == es.len(),
            es == project.placements.seq(),
            os == phase.placement_orderings@,
            pref == phase.reference@,
            items == load_out_items@,
            keys_increasing(es),
            i <= n,
            sorted_entries(out@, es, os, pref, items, i as int),
            covers(out@, es, pref, i as int),
        decreases n - i,
    {
        let entry = project.placements.entry(i);
        let selected = match &entry.1.phase {
            Some(reference) => reference.equals(&phase.reference),
            None => false,
        };
        if selected {
            let feeder = feeder_reference_for(load_out_items, &entry.1.placement.part);
            let unit = entry.0.pcb_unit();
            let x: SortEntry = (i, feeder, unit);
            proof {
                assert forall|c: int| 0 <= c < out@.len() implies {
                    &&& (#[trigger] out@[c]).0 < project.placements.seq().len()
                    &&& out@[c].2@ == pcb_unit_spec(project.placements.seq()[out@[c].0 as int].0@)
                } by {
                    assert(entry_ok(out@[c], es, pref, items, i as int));
                }
            }
            let p = insertion_position(&phase.placement_orderings, &project.placements, &out, &x);
            insert_entry(&mut out, x, p, Ghost(es), Ghost(os), Ghost(pref), Ghost(items));
        } else {
            proof {
                assert(!selected_at(es, pref, i as int));
                assert forall|c: int| 0 <= c < out@.len() implies entry_ok(#[trigger] out@[c], es, pref, items, i + 1) by {
                    assert(entry_ok(out@[c], es, pref, items, i as int));
                }
            }
        }
        i = i + 1;
    }
    out
}

/// The placements of the phase, each with the feeder holding its part, in the
/// order of the phase's orderings (criteria that tell two placements apart not
/// leave them in object path order), and the issues of the parts that no feeder
/// holds added to the set of issues.
pub fn generate_phase_artifacts(
    project: &Project,
    phase: &Phase,
    load_out_items: &[LoadOutItem],
    issues: &mut Vec<ProjectReportIssue>,
) -> (r: Vec<PhasePlacementRecord>)
    requires
        project.placements.wf(),
        issue_set(old(issues)@),
    ensures
        record_paths(r@).no_duplicates(),
        record_paths(r@).to_set() == phase_placement_paths(project.placements.map(), phase.reference@),
        forall|c: int| 0 <= c < r@.len() ==> {
            &&& project.placements.map().contains_key((#[trigger] r@[c]).object_path@)
            &&& record_of(r@[c], project.placements.map()[r@[c].object_path@], load_out_items@)
        },
        forall|c: int| 0 <= c < r@.len() - 1 ==> #[trigger] placement_order(
            phase.placement_orderings@,
            r@[c].feeder_reference@,
            r@[c + 1].feeder_reference@,
            r@[c].object_path@,
            r@[c + 1].object_path@,
        ) == Comparison::Less,
        issue_set(final(issues)@),
        issue_views(final(issues)@).to_set() == issue_views(old(issues)@).to_set().union(feeder_issues(r@)),
{
    let ghost es = project.placements.seq();
    let ghost os = phase.placement_orderings@;
    let ghost pref = phase.reference@;
    let ghost items = load_out_items@;
    let n = project.placements.len();
    let out = sorted_phase_entries(project, phase, load_out_items);
    // the rows, in order, and the issues of parts without a feeder
    let mut records: Vec<PhasePlacementRecord> = Vec::new();
    let ghost old_issues = issue_views(issues@).to_set();
    let mut c: usize = 0;
    while c < out.len()
        invariant
            n == es.len(),
            es == project.placements.seq(),
            os == phase.placement_orderings@,
            pref == phase.reference@,
            items == load_out_items@,
            project.placements.wf(),
            forall|e: int| 0 <= e < out@.len() ==> entry_ok(#[trigger] out@[e], es, pref, items, n as int),
            c <= out@.len(),
            records@.len() == c,
            forall|e: int| 0 <= e < c ==> {
                let s = es[out@[e].0 as int];
                &&& (#[trigger] records@[e]).object_path@ == s.0@
                &&& records@[e].feeder_reference@ == out@[e].1@
                &&& record_of(records@[e], s.1, items)
            },
            issue_set(issues@),
            issue_views(issues@).to_set() == old_issues.union(feeder_issues(records@)),
        decreases out@.len() - c,
    {
        let k = out[c].0;
        proof {
            assert(entry_ok(out@[c as int], es, pref, items, n as int));
        }
        let entry = project.placements.entry(k);
        let placement = &entry.1.placement;
        let record = PhasePlacementRecord {
            object_path: entry.0.copy(),
            feeder_reference: out[c].1.clone(),
            manufacturer: placement.part.manufacturer.clone(),
            mpn: placement.part.mpn.clone(),
            x: placement.x,
            y: placement.y,
            rotation: placement.rotation,
        };
        let ghost before_records = records@;
        let ghost before_issues = issue_views(issues@).to_set();
        if out[c].1.as_str().is_empty() {
            let issue = ProjectReportIssue {
                message: "A part has not been assigned to a feeder".to_owned(),
                severity: IssueSeverity::Warning,
                kind: IssueKind::UnassignedPartFeeder { part: placement.part.copy() },
            };
            proof {
                reveal_strlit("A part has not been assigned to a feeder");
            }
            insert_issue(issues, issue);
        }
        records.push(record);
        proof {
            assert forall|e: int| 0 <= e < c + 1 implies {
                let s = es[out@[e].0 as int];
                &&& (#[trigger] records@[e]).object_path@ == s.0@
                &&& records@[e].feeder_reference@ == out@[e].1@
                &&& record_of(records@[e], s.1, items)
            } by {
                if e < c {
                    assert(records@[e] == before_records[e]);
                }
            }
            let v = unassigned_feeder_issue((record.manufacturer@, record.mpn@));
            assert(feeder_issues(records@) =~= if record.feeder_reference@.len() == 0 {
                feeder_issues(before_records).insert(v)
            } else {
                feeder_issues(before_records)
            }) by {
                assert forall|w| #[trigger] feeder_issues(records@).contains(w) implies (if record.feeder_reference@.len() == 0 {
                    feeder_issues(before_records).insert(v)
                } else {
                    feeder_issues(before_records)
                }).contains(w) by {
                    let e = choose|e: int|
                        0 <= e < records@.len() && (#[trigger] records@[e]).feeder_reference@.len() == 0 && w == unassigned_feeder_issue(
                            (records@[e].manufacturer@, records@[e].mpn@),
                        );
                    if e < c {
                        assert(records@[e] == before_records[e]);
                    }
                }
                assert forall|w| #[trigger] feeder_issues(before_records).contains(w) implies feeder_issues(records@).contains(w) by {
                    let e = choose|e: int|
                        0 <= e < before_records.len() && (#[trigger] before_records[e]).feeder_reference@.len() == 0 && w
                            == unassigned_feeder_issue((before_records[e].manufacturer@, before_records[e].mpn@));
                    assert(records@[e] == before_records[e]);
                }
                if record.feeder_reference@.len() == 0 {
                    assert(records@[c as int] == record);
                    assert(feeder_issues(records@).contains(v));
                }
            }
        }
        c = c + 1;
    }
    proof {
        let m = project.placements.map();
        assert forall|e: int| 0 <= e < records@.len() implies {
            &&& m.contains_key((#[trigger] records@[e]).object_path@)
            &&& record_of(records@[e], m[records@[e].object_path@], items)
        } by {
            assert(entry_ok(out@[e], es, pref, items, n as int));
            lemma_map_at(es, out@[e].0 as int);
        }
        assert forall|e: int, f: int| 0 <= e < f < records@.len() implies
            #[trigger] record_paths(records@)[e] != #[trigger] record_paths(records@)[f] by {
            assert(entry_ok(out@[e], es, pref, items, n as int));
            assert(entry_ok(out@[f], es, pref, items, n as int));
            lemma_keys_distinct(es, out@[e].0 as int, out@[f].0 as int);
        }
        assert forall|e: int| 0 <= e < records@.len() - 1 implies #[trigger] placement_order(
            os,
            records@[e].feeder_reference@,
            records@[e + 1].feeder_reference@,
            records@[e].object_path@,
            records@[e + 1].object_path@,
        ) == Comparison::Less by {
            assert(entry_order(os, es, out@[e], out@[e + 1]) == Comparison::Less);
        }
        assert(record_paths(records@).to_set() =~= phase_placement_paths(m, pref)) by {
            assert forall|p| #[trigger] record_paths(records@).to_set().contains(p) implies phase_placement_paths(m, pref).contains(p) by {
                let e = choose|e: int| 0 <= e < record_paths(records@).len() && record_paths(records@)[e] == p;
                assert(entry_ok(out@[e], es, pref, items, n as int));
                lemma_map_at(es, out@[e].0 as int);
            }
            assert forall|p| #[trigger] phase_placement_paths(m, pref).contains(p) implies record_paths(records@).to_set().contains(p) by {
                assert(has_key(es, p));
                let j = index_of_key(es, p);
                lemma_map_at(es, j);
                assert(selected_at(es, pref, j));
                let e = choose|e: int| 0 <= e < out@.len() && (#[trigger] out@[e]).0 == j;
                assert(record_paths(records@)[e] == p);
            }
        }
    }
    records
}

} // verus!
