//! Refreshing the placements of a project from the placements of its design
//! variants: placements new to a unit are added, known ones updated, and those
//! no longer in their design marked unknown.
use vstd::prelude::*;
use crate::pnp::object_path::{ObjectPath, set_ref_des_spec, format_path};
use crate::pnp::placement::Placement;
use crate::planning::design::DesignVariant;
use crate::planning::placement::{PlacementState, PlacementStatus};
use crate::planning::project::{Project, part_views, parts_contain, refresh_parts, path_in_directory, push_file_name};
use crate::pnp::part::Part;
use crate::sorted_map::SortedMap;
use crate::text::{has_prefix, starts_with, str_eq, push_str, string_from_chars};

verus! {

/// What a refresh does to a placement.
#[derive(Debug, Clone, Copy, PartialEq, Eq, Structural)]
pub enum Change {
    New,
    Existing,
    Unused,
}

/// The abstract value of a change: its kind, the unit path and the placement.
pub open spec fn change_view(c: (Change, ObjectPath, Placement)) -> (Change, Seq<(Seq<char>, Seq<char>)>, Placement) {
    (c.0, c.1@, c.2)
}

/// The abstract values of changes.
pub open spec fn change_views(s: Seq<(Change, ObjectPath, Placement)>) -> Seq<(Change, Seq<(Seq<char>, Seq<char>)>, Placement)> {
    s.map_values(|c: (Change, ObjectPath, Placement)| change_view(c))
}

/// The change for a placement of a unit's design: existing where the project
/// knows its path (the unit path with its reference designator), new otherwise.
pub open spec fn known_change(
    known: Set<Seq<(Seq<char>, Seq<char>)>>,
    unit: Seq<(Seq<char>, Seq<char>)>,
    pl: Placement,
) -> (Change, Seq<(Seq<char>, Seq<char>)>, Placement) {
    (if known.contains(set_ref_des_spec(unit, pl.ref_des@)) { Change::Existing } else { Change::New }, unit, pl)
}

/// The changes for the placements of a design variant, for each unit assigned to it.
pub open spec fn unit_changes(
    known: Set<Seq<(Seq<char>, Seq<char>)>>,
    design_variant: (Seq<char>, Seq<char>),
    pls: Seq<Placement>,
    units: Seq<(ObjectPath, DesignVariant)>,
) -> Seq<(Change, Seq<(Seq<char>, Seq<char>)>, Placement)>
    decreases units.len(),
{
    if units.len() == 0 {
        Seq::empty()
    } else {
        let rest = unit_changes(known, design_variant, pls, units.drop_last());
        let u = units.last();
        if u.1@ == design_variant {
            rest + pls.map_values(|pl: Placement| known_change(known, u.0@, pl))
        } else {
            rest
        }
    }
}

/// The new and existing changes, design variant by design variant.
pub open spec fn design_changes(
    known: Set<Seq<(Seq<char>, Seq<char>)>>,
    designs: Seq<(DesignVariant, Vec<Placement>)>,
    units: Seq<(ObjectPath, DesignVariant)>,
) -> Seq<(Change, Seq<(Seq<char>, Seq<char>)>, Placement)>
    decreases designs.len(),
{
    if designs.len() == 0 {
        Seq::empty()
    } else {
        design_changes(known, designs.drop_last(), units) + unit_changes(known, designs.last().0@, designs.last().1@, units)
    }
}

/// Whether a placement with the reference designator is among the placements.
pub open spec fn ref_des_listed(pls: Seq<Placement>, ref_des: Seq<char>) -> bool {
    exists|k: int| 0 <= k < pls.len() && (#[trigger] pls[k]).ref_des@ == ref_des
}

/// The unused changes for a known placement: one for each unit whose path text
/// begins its path text, whose design variant is refreshed and lists no
/// placement with its reference designator, while the placement is known.
pub open spec fn unused_changes_of(
    path: Seq<(Seq<char>, Seq<char>)>,
    s: PlacementState,
    designs: Map<(Seq<char>, Seq<char>), Vec<Placement>>,
    units: Seq<(ObjectPath, DesignVariant)>,
) -> Seq<(Change, Seq<(Seq<char>, Seq<char>)>, Placement)>
    decreases units.len(),
{
    if units.len() == 0 {
        Seq::empty()
    } else {
        let rest = unused_changes_of(path, s, designs, units.drop_last());
        let u = units.last();
        if has_prefix(format_path(path), format_path(u.0@)) && designs.contains_key(u.1@) && !ref_des_listed(
            designs[u.1@]@,
            s.placement.ref_des@,
        ) && s.status == PlacementStatus::Known {
            rest.push((Change::Unused, u.0@, s.placement))
        } else {
            rest
        }
    }
}

/// The unused changes, placement by placement.
pub open spec fn unused_changes(
    placements: Seq<(ObjectPath, PlacementState)>,
    designs: Map<(Seq<char>, Seq<char>), Vec<Placement>>,
    units: Seq<(ObjectPath, DesignVariant)>,
) -> Seq<(Change, Seq<(Seq<char>, Seq<char>)>, Placement)>
    decreases placements.len(),
{
    if placements.len() == 0 {
        Seq::empty()
    } else {
        unused_changes(placements.drop_last(), designs, units) + unused_changes_of(
            placements.last().0@,
            placements.last().1,
            designs,
            units,
        )
    }
}

/// The changes a refresh makes, in order: the new and existing placements of the
/// designs, then the placements no longer in their design.
pub open spec fn placement_changes(
    project: Project,
    designs: SortedMap<DesignVariant, Vec<Placement>>,
) -> Seq<(Change, Seq<(Seq<char>, Seq<char>)>, Placement)> {
    design_changes(project.placements.map().dom(), designs.seq(), project.unit_assignments.seq()) + unused_changes(
        project.placements.seq(),
        designs.map(),
        project.unit_assignments.seq(),
    )
}

/// Finds the changes a refresh from the placements of the design variants makes.
pub fn find_placement_changes(
    project: &Project,
    design_variant_placement_map: &SortedMap<DesignVariant, Vec<Placement>>,
) -> (r: Vec<(Change, ObjectPath, Placement)>)
    requires
        project.placements.wf(),
        project.unit_assignments.wf(),
        design_variant_placement_map.wf(),
    ensures
        change_views(r@) == placement_changes(*project, *design_variant_placement_map),
{
    let ghost known = project.placements.map().dom();
    let ghost designs = design_variant_placement_map.seq();
    let ghost units = project.unit_assignments.seq();
    let mut r: Vec<(Change, ObjectPath, Placement)> = Vec::new();
    let mut d: usize = 0;
    while d < design_variant_placement_map.len()
        invariant
            d <= designs.len(),
            designs == design_variant_placement_map.seq(),
            units == project.unit_assignments.seq(),
            known == project.placements.map().dom(),
            project.placements.wf(),
            change_views(r@) == design_changes(known, designs.take(d as int), units),
        decreases designs.len() - d,
    {
        let entry = design_variant_placement_map.entry(d);
        let ghost before_d = change_views(r@);
        let mut u: usize = 0;
        while u < project.unit_assignments.len()
            invariant
                d < designs.len(),
                u <= units.len(),
                designs == design_variant_placement_map.seq(),
                units == project.unit_assignments.seq(),
                known == project.placements.map().dom(),
                project.placements.wf(),
                *entry == designs[d as int],
                change_views(r@) == before_d + unit_changes(known, entry.0@, entry.1@, units.take(u as int)),
            decreases units.len() - u,
        {
            let unit = project.unit_assignments.entry(u);
            let ghost before_u = change_views(r@);
            proof {
                assert(units.take(u as int + 1).drop_last() == units.take(u as int));
                assert(units.take(u as int + 1).last() == units[u as int]);
            }
            if entry.0.equals(&unit.1) {
                let pls = &entry.1;
                let mut k: usize = 0;
                while k < pls.len()
                    invariant
                        k <= pls@.len(),
                        known == project.placements.map().dom(),
                        project.placements.wf(),
                        change_views(r@) == before_u + pls@.take(k as int).map_values(
                            |pl: Placement| known_change(known, unit.0@, pl),
                        ),
                    decreases pls@.len() - k,
                {
                    let mut path = unit.0.copy();
                    path.set_ref_des(pls[k].ref_des.clone());
                    let change = if project.placements.contains_key(&path) {
                        Change::Existing
                    } else {
                        Change::New
                    };
                    let ghost before_k = r@;
                    r.push((change, unit.0.copy(), pls[k].copy()));
                    proof {
                        assert(change_views(r@) == change_views(before_k).push(change_view(r@[r@.len() - 1])));
                        assert(pls@.take(k as int + 1).map_values(|pl: Placement| known_change(known, unit.0@, pl))
                            == pls@.take(k as int).map_values(|pl: Placement| known_change(known, unit.0@, pl)).push(
                            known_change(known, unit.0@, pls@[k as int]),
                        ));
                    }
                    k = k + 1;
                }
                proof {
                    assert(pls@.take(k as int) == pls@);
                }
            }
            u = u + 1;
        }
        proof {
            assert(designs.take(d as int + 1).drop_last() == designs.take(d as int));
            assert(designs.take(d as int + 1).last() == designs[d as int]);
            assert(units.take(u as int) == units);
        }
        d = d + 1;
    }
    proof {
        assert(designs.take(d as int) == designs);
    }
    let ghost first = change_views(r@);
    let ghost placements = project.placements.seq();
    let ghost design_map = design_variant_placement_map.map();
    let mut i: usize = 0;
    while i < project.placements.len()
        invariant
            i <= placements.len(),
            placements == project.placements.seq(),
            units == project.unit_assignments.seq(),
            design_map == design_variant_placement_map.map(),
            design_variant_placement_map.wf(),
            change_views(r@) == first + unused_changes(placements.take(i as int), design_map, units),
        decreases placements.len() - i,
    {
        let entry = project.placements.entry(i);
        let path_text = entry.0.to_string();
        let ghost before_i = change_views(r@);
        let mut u: usize = 0;
        while u < project.unit_assignments.len()
            invariant
                i < placements.len(),
                u <= units.len(),
                units == project.unit_assignments.seq(),
                design_map == design_variant_placement_map.map(),
                design_variant_placement_map.wf(),
                *entry == placements[i as int],
                path_text@ == format_path(entry.0@),
                change_views(r@) == before_i + unused_changes_of(entry.0@, entry.1, design_map, units.take(u as int)),
            decreases units.len() - u,
        {
            let unit = project.unit_assignments.entry(u);
            let unit_text = unit.0.to_string();
            proof {
                assert(units.take(u as int + 1).drop_last() == units.take(u as int));
                assert(units.take(u as int + 1).last() == units[u as int]);
            }
            if starts_with(path_text.as_str(), unit_text.as_str()) {
                match design_variant_placement_map.get(&unit.1) {
                    Some(pls) => {
                        let listed = ref_des_found(pls, &entry.1.placement.ref_des);
                        let known = match entry.1.status {
                            PlacementStatus::Known => true,
                            PlacementStatus::Unknown => false,
                        };
                        if !listed && known {
                            let ghost before_u = r@;
                            r.push((Change::Unused, unit.0.copy(), entry.1.placement.copy()));
                            proof {
                                assert(change_views(r@) == change_views(before_u).push(change_view(r@[r@.len() - 1])));
                            }
                        }
                    },
                    None => {},
                }
            }
            u = u + 1;
        }
        proof {
            assert(units.take(u as int) == units);
            assert(placements.take(i as int + 1).drop_last() == placements.take(i as int));
            assert(placements.take(i as int + 1).last() == placements[i as int]);
        }
        i = i + 1;
    }
    proof {
        assert(placements.take(i as int) == placements);
    }
    r
}

/// The phase of a placement, by its reference's text.
pub open spec fn phase_view(p: Option<crate::planning::reference::Reference>) -> Option<Seq<char>> {
    match p {
        Some(r) => Some(r@),
        None => None,
    }
}

/// The abstract value of a placement state: its unit path, placement, whether it
/// is placed, its status and its phase.
pub open spec fn state_view(s: PlacementState) -> (Seq<(Seq<char>, Seq<char>)>, Placement, bool, PlacementStatus, Option<Seq<char>>) {
    (s.unit_path@, s.placement, s.placed, s.status, phase_view(s.phase))
}

/// The abstract values of the placement states of a project, by object path.
pub open spec fn states_view(m: Map<Seq<(Seq<char>, Seq<char>)>, PlacementState>) -> Map<
    Seq<(Seq<char>, Seq<char>)>,
    (Seq<(Seq<char>, Seq<char>)>, Placement, bool, PlacementStatus, Option<Seq<char>>),
> {
    m.map_values(|s: PlacementState| state_view(s))
}

/// A change applied to the placement states. Its path is the unit path with the
/// placement's reference designator. A new placement is added, known, not placed
/// and in no phase, unless its path is there; an existing one takes the
/// placement where it differs; an unused one becomes unknown.
pub open spec fn apply_change(
    m: Map<Seq<(Seq<char>, Seq<char>)>, (Seq<(Seq<char>, Seq<char>)>, Placement, bool, PlacementStatus, Option<Seq<char>>)>,
    c: (Change, Seq<(Seq<char>, Seq<char>)>, Placement),
) -> Map<Seq<(Seq<char>, Seq<char>)>, (Seq<(Seq<char>, Seq<char>)>, Placement, bool, PlacementStatus, Option<Seq<char>>)> {
    let p = set_ref_des_spec(c.1, c.2.ref_des@);
    match c.0 {
        Change::New => if m.contains_key(p) {
            m
        } else {
            m.insert(p, (c.1, c.2, false, PlacementStatus::Known, None))
        },
        Change::Existing => if m.contains_key(p) && !m[p].1.same_as(&c.2) {
            m.insert(p, (m[p].0, c.2, m[p].2, m[p].3, m[p].4))
        } else {
            m
        },
        Change::Unused => if m.contains_key(p) {
            m.insert(p, (m[p].0, m[p].1, m[p].2, PlacementStatus::Unknown, m[p].4))
        } else {
            m
        },
    }
}

/// The changes applied in order.
pub open spec fn apply_changes(
    m: Map<Seq<(Seq<char>, Seq<char>)>, (Seq<(Seq<char>, Seq<char>)>, Placement, bool, PlacementStatus, Option<Seq<char>>)>,
    cs: Seq<(Change, Seq<(Seq<char>, Seq<char>)>, Placement)>,
) -> Map<Seq<(Seq<char>, Seq<char>)>, (Seq<(Seq<char>, Seq<char>)>, Placement, bool, PlacementStatus, Option<Seq<char>>)>
    decreases cs.len(),
{
    if cs.len() == 0 {
        m
    } else {
        apply_change(apply_changes(m, cs.drop_last()), cs.last())
    }
}

/// Refreshes the project's placements from the placements of the design
/// variants: the changes `find_placement_changes` finds are applied in order;
/// nothing else of the project changes.
pub fn refresh_placements(project: &mut Project, design_variant_placement_map: &SortedMap<DesignVariant, Vec<Placement>>)
    requires
        old(project).wf(),
        design_variant_placement_map.wf(),
    ensures
        final(project).wf(),
        states_view(final(project).placements.map()) == apply_changes(
            states_view(old(project).placements.map()),
            placement_changes(*old(project), *design_variant_placement_map),
        ),
        *final(project) == (Project { placements: final(project).placements, ..*old(project) }),
{
    let changes = find_placement_changes(project, design_variant_placement_map);
    let ghost cs = change_views(changes@);
    let ghost start = states_view(project.placements.map());
    let ghost original = *project;
    let mut c: usize = 0;
    while c < changes.len()
        invariant
            c <= changes@.len(),
            cs == change_views(changes@),
            project.wf(),
            *project == (Project { placements: project.placements, ..original }),
            states_view(project.placements.map()) == apply_changes(start, cs.take(c as int)),
        decreases changes@.len() - c,
    {
        let (kind, unit, pl) = &changes[c];
        let mut path = unit.copy();
        path.set_ref_des(pl.ref_des.clone());
        let ghost m = states_view(project.placements.map());
        let ghost p = set_ref_des_spec(unit@, pl.ref_des@);
        proof {
            assert(cs.take(c as int + 1).drop_last() == cs.take(c as int));
            assert(cs.take(c as int + 1).last() == cs[c as int]);
            assert(cs[c as int] == change_view(changes@[c as int]));
        }
        match kind {
            Change::New => {
                if !project.placements.contains_key(&path) {
                    let state = PlacementState {
                        unit_path: unit.copy(),
                        placement: pl.copy(),
                        placed: false,
                        status: PlacementStatus::Known,
                        phase: None,
                    };
                    let ghost before = project.placements.map();
                    project.placements.insert(path, state);
                    proof {
                        assert(states_view(project.placements.map()) =~= m.insert(p, state_view(state)));
                    }
                }
            },
            Change::Existing => {
                match project.placements.find(&path) {
                    Ok(i) => {
                        proof {
                            crate::sorted_map::lemma_map_at(project.placements.seq(), i as int);
                        }
                        let differs = !project.placements.entry(i).1.placement.equals(pl);
                        if differs {
                            let mut state = project.placements.entry(i).1.copy();
                            state.placement = pl.copy();
                            let ghost old_state = project.placements.map()[p];
                            project.placements.set_value_at(i, state);
                            proof {
                                assert(state_view(state) == (m[p].0, *pl, m[p].2, m[p].3, m[p].4));
                                assert(states_view(project.placements.map()) =~= m.insert(p, state_view(state)));
                            }
                        }
                    },
                    Err(_) => {},
                }
            },
            Change::Unused => {
                match project.placements.find(&path) {
                    Ok(i) => {
                        proof {
                            crate::sorted_map::lemma_map_at(project.placements.seq(), i as int);
                        }
                        let mut state = project.placements.entry(i).1.copy();
                        state.status = PlacementStatus::Unknown;
                        project.placements.set_value_at(i, state);
                        proof {
                            assert(state_view(state) == (m[p].0, m[p].1, m[p].2, PlacementStatus::Unknown, m[p].4));
                            assert(states_view(project.placements.map()) =~= m.insert(p, state_view(state)));
                        }
                    },
                    Err(_) => {},
                }
            },
        }
        c = c + 1;
    }
    proof {
        assert(cs.take(c as int) == cs);
    }
}

/// The parts of the placements of the designs, in order.
pub open spec fn design_parts(designs: Seq<(DesignVariant, Vec<Placement>)>) -> Seq<(Seq<char>, Seq<char>)>
    decreases designs.len(),
{
    if designs.len() == 0 {
        Seq::empty()
    } else {
        design_parts(designs.drop_last()) + designs.last().1@.map_values(|pl: Placement| pl.part@)
    }
}

/// Appends the part unless it is there: the parts stay those of the texts seen,
/// each once, in the order of first sight.
fn push_new_part(r: &mut Vec<Part>, part: &Part, Ghost(seen): Ghost<Seq<(Seq<char>, Seq<char>)>>)
    requires
        part_views(old(r)@) == seen.remove_duplicates(seq![]),
    ensures
        part_views(final(r)@) == seen.push(part@).remove_duplicates(seq![]),
{
    proof {
        seen.lemma_remove_duplicates_append(part@, seq![]);
        seen.lemma_remove_duplicates_properties(seq![]);
        assert(seen + seq![] =~= seen);
        assert(seen + seq![part@] =~= seen.push(part@));
    }
    if !parts_contain(r.as_slice(), part) {
        let ghost before = r@;
        r.push(part.copy());
        proof {
            assert(part_views(r@) =~= part_views(before) + seq![part@]);
        }
    }
}

/// The parts of the placements of the design variants, each once, in the order
/// of first sight.
pub fn build_unique_parts(design_variant_placement_map: &SortedMap<DesignVariant, Vec<Placement>>) -> (r: Vec<Part>)
    ensures
        part_views(r@) == design_parts(design_variant_placement_map.seq()).remove_duplicates(seq![]),
{
    let ghost designs = design_variant_placement_map.seq();
    let mut r: Vec<Part> = Vec::new();
    let mut d: usize = 0;
    proof {
        assert(designs.take(0) =~= Seq::<(DesignVariant, Vec<Placement>)>::empty());
        assert(part_views(r@) =~= Seq::<(Seq<char>, Seq<char>)>::empty().remove_duplicates(seq![]));
    }
    while d < design_variant_placement_map.len()
        invariant
            d <= designs.len(),
            designs == design_variant_placement_map.seq(),
            part_views(r@) == design_parts(designs.take(d as int)).remove_duplicates(seq![]),
        decreases designs.len() - d,
    {
        let pls = &design_variant_placement_map.entry(d).1;
        let ghost start = design_parts(designs.take(d as int));
        let mut k: usize = 0;
        proof {
            assert(start + pls@.take(0).map_values(|pl: Placement| pl.part@) =~= start);
        }
        while k < pls.len()
            invariant
                k <= pls@.len(),
                part_views(r@) == (start + pls@.take(k as int).map_values(|pl: Placement| pl.part@)).remove_duplicates(seq![]),
            decreases pls@.len() - k,
        {
            let ghost seen = start + pls@.take(k as int).map_values(|pl: Placement| pl.part@);
            push_new_part(&mut r, &pls[k].part, Ghost(seen));
            proof {
                assert(seen.push(pls@[k as int].part@) =~= start + pls@.take(k as int + 1).map_values(|pl: Placement| pl.part@));
            }
            k = k + 1;
        }
        proof {
            assert(designs.take(d as int + 1).drop_last() =~= designs.take(d as int));
            assert(pls@.take(k as int) =~= pls@);
            assert(designs.take(d as int + 1).last().1 == *pls);
        }
        d = d + 1;
    }
    proof {
        assert(designs.take(d as int) =~= designs);
    }
    r
}

/// Refreshes the project from the placements of its design variants: the part
/// states follow the unique parts of the placements (as `refresh_parts` does),
/// then the placements are refreshed (as `refresh_placements` does); returns the
/// unique parts.
pub fn refresh_from_design_variants(
    project: &mut Project,
    design_variant_placement_map: &SortedMap<DesignVariant, Vec<Placement>>,
) -> (r: Vec<Part>)
    requires
        old(project).wf(),
        design_variant_placement_map.wf(),
    ensures
        final(project).wf(),
        part_views(r@) == design_parts(design_variant_placement_map.seq()).remove_duplicates(seq![]),
        *final(project) == (Project {
            part_states: final(project).part_states,
            placements: final(project).placements,
            ..*old(project)
        }),
        final(project).part_states.map().dom() == part_views(r@).to_set(),
        forall|x: (Seq<char>, Seq<char>)| #[trigger] final(project).part_states.map().contains_key(x) ==> {
            if old(project).part_states.map().contains_key(x) {
                final(project).part_states.map()[x] == old(project).part_states.map()[x]
            } else {
                final(project).part_states.map()[x].applicable_processes.map().len() == 0
            }
        },
        states_view(final(project).placements.map()) == apply_changes(
            states_view(old(project).placements.map()),
            placement_changes(*old(project), *design_variant_placement_map),
        ),
{
    let unique_parts = build_unique_parts(design_variant_placement_map);
    refresh_parts(project, unique_parts.as_slice());
    refresh_placements(project, design_variant_placement_map);
    unique_parts
}

/// The name of the placements file of a design variant:
/// `<design>_<variant>_placements.csv`.
pub open spec fn placements_file_name(design_variant: (Seq<char>, Seq<char>)) -> Seq<char> {
    design_variant.0 + "_"@ + design_variant.1 + "_placements.csv"@
}

/// The path of the placements file of a design variant in a directory.
pub fn build_placements_file_path(design_variant: &DesignVariant, path: &str) -> (r: String)
    ensures
        r@ == path_in_directory(path@, placements_file_name(design_variant@)),
{
    proof {
        reveal_strlit("_");
        reveal_strlit("_placements.csv");
    }
    let mut file: Vec<char> = Vec::new();
    push_str(&mut file, design_variant.design_name.as_str());
    push_str(&mut file, "_");
    push_str(&mut file, design_variant.variant_name.as_str());
    push_str(&mut file, "_placements.csv");
    let file_name = string_from_chars(file);
    assert(file_name@ =~= placements_file_name(design_variant@));
    push_file_name(path, file_name.as_str())
}

/// Whether a placement with the reference designator is among the placements.
fn ref_des_found(pls: &Vec<Placement>, ref_des: &String) -> (r: bool)
    ensures
        r == ref_des_listed(pls@, ref_des@),
{
    let mut k: usize = 0;
    while k < pls.len()
        invariant
            k <= pls@.len(),
            forall|j: int| 0 <= j < k ==> (#[trigger] pls@[j]).ref_des@ != ref_des@,
        decreases pls@.len() - k,
    {
        if str_eq(pls[k].ref_des.as_str(), ref_des.as_str()) {
            return true;
        }
        k = k + 1;
    }
    false
}

} // verus!
