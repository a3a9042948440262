//! Changes to the items of a phase's load-out: adding the parts a phase needs,
//! and assigning a feeder to the items whose part matches patterns.
use vstd::prelude::*;
use crate::pnp::load_out_item::{LoadOutItem, find_load_out_item_by_part};
use crate::pnp::part::Part;
use crate::planning::process::{Process, ProcessName, ProcessOperationKind};
use crate::planning::reference::Reference;
use crate::pattern::{Pattern, regex_finds};
use crate::sorted_map::SortedMap;

verus! {

/// The abstract value of a load-out item: its reference, manufacturer and mpn.
pub open spec fn item_view(i: LoadOutItem) -> (Seq<char>, Seq<char>, Seq<char>) {
    (i.reference@, i.manufacturer@, i.mpn@)
}

/// The abstract values of load-out items.
pub open spec fn item_views(items: Seq<LoadOutItem>) -> Seq<(Seq<char>, Seq<char>, Seq<char>)> {
    items.map_values(|i: LoadOutItem| item_view(i))
}

/// Whether some item holds the part (manufacturer, mpn).
pub open spec fn views_hold(items: Seq<(Seq<char>, Seq<char>, Seq<char>)>, part: (Seq<char>, Seq<char>)) -> bool {
    exists|j: int| 0 <= j < items.len() && (#[trigger] items[j]).1 == part.0 && items[j].2 == part.1
}

/// The items after the parts were added in order: each part that no item holds
/// yet gets a new item with an empty reference at the end.
pub open spec fn with_parts(
    items: Seq<(Seq<char>, Seq<char>, Seq<char>)>,
    parts: Seq<(Seq<char>, Seq<char>)>,
) -> Seq<(Seq<char>, Seq<char>, Seq<char>)>
    decreases parts.len(),
{
    if parts.len() == 0 {
        items
    } else {
        let before = with_parts(items, parts.drop_last());
        let p = parts.last();
        if views_hold(before, p) {
            before
        } else {
            before.push((Seq::<char>::empty(), p.0, p.1))
        }
    }
}

/// The parts of a set of parts, in order.
pub open spec fn part_keys(parts: Seq<(Part, ())>) -> Seq<(Seq<char>, Seq<char>)> {
    parts.map_values(|e: (Part, ())| e.0@)
}

/// Adds to the load-out items one item, with an empty reference, for each of the
/// parts, in order, that no item holds yet.
pub fn add_parts_to_load_out(load_out_items: &mut Vec<LoadOutItem>, parts: &SortedMap<Part, ()>)
    ensures
        item_views(final(load_out_items)@) == with_parts(item_views(old(load_out_items)@), part_keys(parts.seq())),
{
    let ghost start = item_views(load_out_items@);
    let mut k: usize = 0;
    while k < parts.len()
        invariant
            k <= parts.seq().len(),
            item_views(load_out_items@) == with_parts(start, part_keys(parts.seq()).take(k as int)),
        decreases parts.seq().len() - k,
    {
        let part = &parts.entry(k).0;
        let ghost keys = part_keys(parts.seq());
        proof {
            assert(keys.take(k as int + 1).drop_last() == keys.take(k as int));
            assert(keys.take(k as int + 1).last() == part@);
        }
        let found = find_load_out_item_by_part(load_out_items.as_slice(), part);
        match found {
            Some(j) => {
                proof {
                    let v = item_views(load_out_items@);
                    assert(v[j as int].1 == part@.0 && v[j as int].2 == part@.1);
                }
            },
            None => {
                proof {
                    let v = item_views(load_out_items@);
                    assert forall|j: int| 0 <= j < v.len() implies !((#[trigger] v[j]).1 == part@.0 && v[j].2 == part@.1) by {
                        assert(!load_out_items@[j].holds(part@));
                    }
                }
                let item = LoadOutItem::new(String::new(), part.manufacturer.clone(), part.mpn.clone());
                let ghost before = load_out_items@;
                load_out_items.push(item);
                proof {
                    assert(item_views(load_out_items@) == item_views(before).push(item_view(item)));
                }
            },
        }
        k = k + 1;
    }
    proof {
        assert(part_keys(parts.seq()).take(k as int) == part_keys(parts.seq()));
    }
}

/// After parts are added, every one of them is held by some item, and every
/// part held before still is.
pub proof fn lemma_added_parts_are_held(items: Seq<(Seq<char>, Seq<char>, Seq<char>)>, parts: Seq<(Seq<char>, Seq<char>)>)
    ensures
        forall|j: int| 0 <= j < parts.len() ==> views_hold(with_parts(items, parts), #[trigger] parts[j]),
        forall|p: (Seq<char>, Seq<char>)| views_hold(items, p) ==> #[trigger] views_hold(with_parts(items, parts), p),
    decreases parts.len(),
{
    if parts.len() > 0 {
        let rest = parts.drop_last();
        lemma_added_parts_are_held(items, rest);
        let before = with_parts(items, rest);
        let p = parts.last();
        let after = with_parts(items, parts);
        assert forall|q: (Seq<char>, Seq<char>)| views_hold(before, q) implies views_hold(after, q) by {
            let j = choose|j: int| 0 <= j < before.len() && (#[trigger] before[j]).1 == q.0 && before[j].2 == q.1;
            assert(after[j] == before[j]);
        }
        assert forall|j: int| 0 <= j < parts.len() implies views_hold(after, #[trigger] parts[j]) by {
            if j < parts.len() - 1 {
                assert(rest[j] == parts[j]);
            } else if !views_hold(before, p) {
                assert(after[before.len() as int] == (Seq::<char>::empty(), p.0, p.1));
            }
        }
        assert forall|q: (Seq<char>, Seq<char>)| views_hold(items, q) implies #[trigger] views_hold(after, q) by {
            assert(views_hold(before, q));
        }
    }
}

proof fn lemma_with_held_parts(items: Seq<(Seq<char>, Seq<char>, Seq<char>)>, parts: Seq<(Seq<char>, Seq<char>)>)
    requires
        forall|j: int| 0 <= j < parts.len() ==> views_hold(items, #[trigger] parts[j]),
    ensures
        with_parts(items, parts) == items,
    decreases parts.len(),
{
    if parts.len() > 0 {
        let rest = parts.drop_last();
        assert forall|j: int| 0 <= j < rest.len() implies views_hold(items, #[trigger] rest[j]) by {
            assert(rest[j] == parts[j]);
        }
        lemma_with_held_parts(items, rest);
        assert(views_hold(items, parts[parts.len() - 1]));
    }
}

/// Adding the same parts to a load-out a second time changes nothing.
pub proof fn lemma_add_parts_idempotent(items: Seq<(Seq<char>, Seq<char>, Seq<char>)>, parts: Seq<(Seq<char>, Seq<char>)>)
    ensures
        with_parts(with_parts(items, parts), parts) == with_parts(items, parts),
{
    lemma_added_parts_are_held(items, parts);
    lemma_with_held_parts(with_parts(items, parts), parts);
}

/// Errors of a feeder assignment. The patterns are given by their text.
#[derive(Debug, Clone, PartialEq, Eq)]
pub enum FeederAssignmentError {
    NoMatchingPart { manufacturer: String, mpn: String },
    MultipleMatchingParts { process: ProcessName, manufacturer: String, mpn: String },
}

/// Whether both patterns find a match in the item's manufacturer and mpn.
pub open spec fn item_selected(manufacturer: Seq<char>, mpn: Seq<char>, item: LoadOutItem) -> bool {
    regex_finds(manufacturer, item.manufacturer@) && regex_finds(mpn, item.mpn@)
}

/// The positions, in order, of the selected items among the first `n`.
pub open spec fn selected_positions(manufacturer: Seq<char>, mpn: Seq<char>, items: Seq<LoadOutItem>, n: int) -> Seq<int>
    decreases n,
{
    if n <= 0 {
        Seq::empty()
    } else {
        let before = selected_positions(manufacturer, mpn, items, n - 1);
        if item_selected(manufacturer, mpn, items[n - 1]) {
            before.push(n - 1)
        } else {
            before
        }
    }
}

/// Whether the assignment is refused: no item selected, or more than one where
/// the process places parts automatically.
pub open spec fn assignment_refused(automated: bool, selected: Seq<int>) -> bool {
    selected.len() == 0 || (automated && selected.len() > 1)
}

proof fn lemma_selected_positions(manufacturer: Seq<char>, mpn: Seq<char>, items: Seq<LoadOutItem>, n: int)
    requires
        0 <= n <= items.len(),
    ensures
        forall|c: int| 0 <= c < selected_positions(manufacturer, mpn, items, n).len() ==> {
            let q = #[trigger] selected_positions(manufacturer, mpn, items, n)[c];
            0 <= q < n && item_selected(manufacturer, mpn, items[q])
        },
        forall|c: int, d: int| 0 <= c < d < selected_positions(manufacturer, mpn, items, n).len() ==>
            #[trigger] selected_positions(manufacturer, mpn, items, n)[c] < #[trigger] selected_positions(manufacturer, mpn, items, n)[d],
        forall|q: int| 0 <= q < n && item_selected(manufacturer, mpn, items[q]) ==>
            selected_positions(manufacturer, mpn, items, n).contains(q),
    decreases n,
{
    if n > 0 {
        lemma_selected_positions(manufacturer, mpn, items, n - 1);
        let before = selected_positions(manufacturer, mpn, items, n - 1);
        assert forall|q: int| 0 <= q < n && item_selected(manufacturer, mpn, items[q]) implies
            selected_positions(manufacturer, mpn, items, n).contains(q) by {
            if q < n - 1 {
                assert(before.contains(q));
                let c = choose|c: int| 0 <= c < before.len() && before[c] == q;
                if item_selected(manufacturer, mpn, items[n - 1]) {
                    assert(before.push(n - 1)[c] == q);
                }
            } else {
                assert(selected_positions(manufacturer, mpn, items, n)[before.len() as int] == q);
            }
        }
    }
}

/// Assigns the feeder to the load-out items whose manufacturer and mpn the
/// patterns find a match in, and returns their parts in order. It is refused,
/// leaving the items unchanged, where no item is selected, or where more than
/// one is and the phase's process places parts automatically.
pub fn assign_feeder_to_load_out_item(
    phase_process: &ProcessName,
    process: &Process,
    load_out_items: &mut Vec<LoadOutItem>,
    feeder_reference: &Reference,
    manufacturer: &Pattern,
    mpn: &Pattern,
) -> (r: Result<Vec<Part>, FeederAssignmentError>)
    ensures
        ({
            let selected = selected_positions(manufacturer@, mpn@, old(load_out_items)@, old(load_out_items)@.len() as int);
            let automated = process.operations@.contains(ProcessOperationKind::AutomatedPnp);
            match r {
                Ok(parts) => {
                    &&& !assignment_refused(automated, selected)
                    &&& parts@.len() == selected.len()
                    &&& forall|c: int| 0 <= c < selected.len() ==>
                        (#[trigger] parts@[c])@ == (old(load_out_items)@[selected[c]].manufacturer@, old(load_out_items)@[selected[c]].mpn@)
                    &&& final(load_out_items)@.len() == old(load_out_items)@.len()
                    &&& forall|j: int| 0 <= j < old(load_out_items)@.len() ==> {
                        let before = old(load_out_items)@[j];
                        let after = #[trigger] final(load_out_items)@[j];
                        &&& after.manufacturer == before.manufacturer
                        &&& after.mpn == before.mpn
                        &&& after.reference@ == (if item_selected(manufacturer@, mpn@, before) {
                            feeder_reference@
                        } else {
                            before.reference@
                        })
                    }
                },
                Err(FeederAssignmentError::NoMatchingPart { manufacturer: m, mpn: n }) => {
                    &&& selected.len() == 0
                    &&& m@ == manufacturer@
                    &&& n@ == mpn@
                    &&& final(load_out_items)@ == old(load_out_items)@
                },
                Err(FeederAssignmentError::MultipleMatchingParts { process: p, manufacturer: m, mpn: n }) => {
                    &&& selected.len() > 1
                    &&& automated
                    &&& p@ == phase_process@
                    &&& m@ == manufacturer@
                    &&& n@ == mpn@
                    &&& final(load_out_items)@ == old(load_out_items)@
                },
            }
        }),
{
    let ghost old_items = load_out_items@;
    let ghost mfr = manufacturer@;
    let ghost mp = mpn@;
    // find the selected items
    let mut positions: Vec<usize> = Vec::new();
    let mut k: usize = 0;
    while k < load_out_items.len()
        invariant
            k <= load_out_items@.len(),
            positions@.len() == selected_positions(mfr, mp, load_out_items@, k as int).len(),
            forall|c: int| 0 <= c < positions@.len() ==>
                positions@[c] as int == #[trigger] selected_positions(mfr, mp, load_out_items@, k as int)[c],
            mfr == manufacturer@,
            mp == mpn@,
            load_out_items@ == old_items,
        decreases load_out_items@.len() - k,
    {
        let selected = manufacturer.is_match(load_out_items[k].manufacturer.as_str())
            && mpn.is_match(load_out_items[k].mpn.as_str());
        if selected {
            positions.push(k);
        }
        k = k + 1;
    }
    let ghost selected = selected_positions(mfr, mp, old_items, old_items.len() as int);
    proof {
        lemma_selected_positions(mfr, mp, old_items, old_items.len() as int);
    }
    if positions.len() == 0 {
        return Err(FeederAssignmentError::NoMatchingPart {
            manufacturer: manufacturer.as_str().to_string(),
            mpn: mpn.as_str().to_string(),
        });
    }
    let automated = process.has_operation(&ProcessOperationKind::AutomatedPnp);
    if automated && positions.len() > 1 {
        return Err(FeederAssignmentError::MultipleMatchingParts {
            process: phase_process.copy(),
            manufacturer: manufacturer.as_str().to_string(),
            mpn: mpn.as_str().to_string(),
        });
    }
    let mut parts: Vec<Part> = Vec::new();
    let mut c: usize = 0;
    while c < positions.len()
        invariant
            c <= positions@.len(),
            positions@.len() == selected.len(),
            forall|e: int| 0 <= e < positions@.len() ==> positions@[e] as int == #[trigger] selected[e],
            forall|e: int| 0 <= e < selected.len() ==> {
                let q = #[trigger] selected[e];
                0 <= q < old_items.len() && item_selected(mfr, mp, old_items[q])
            },
            forall|e: int, f: int| 0 <= e < f < selected.len() ==> #[trigger] selected[e] < #[trigger] selected[f],
            forall|q: int| 0 <= q < old_items.len() && item_selected(mfr, mp, old_items[q]) ==> selected.contains(q),
            parts@.len() == c,
            forall|e: int| 0 <= e < c ==>
                (#[trigger] parts@[e])@ == (old_items[selected[e]].manufacturer@, old_items[selected[e]].mpn@),
            load_out_items@.len() == old_items.len(),
            forall|j: int| 0 <= j < old_items.len() ==> {
                let before = old_items[j];
                let after = #[trigger] load_out_items@[j];
                &&& after.manufacturer == before.manufacturer
                &&& after.mpn == before.mpn
                &&& after.reference@ == (if exists|e: int| 0 <= e < c && selected[e] == j {
                    feeder_reference@
                } else {
                    before.reference@
                })
            },
        decreases positions@.len() - c,
    {
        let q = positions[c];
        proof {
            assert(selected[c as int] == q as int);
        }
        let part = Part::new(load_out_items[q].manufacturer.clone(), load_out_items[q].mpn.clone());
        parts.push(part);
        let old_item = load_out_items[q].copy();
        let item = LoadOutItem::new(feeder_reference.to_string(), old_item.manufacturer, old_item.mpn);
        let ghost before_set = load_out_items@;
        load_out_items.set(q, item);
        proof {
            assert forall|j: int| 0 <= j < old_items.len() implies {
                let before = old_items[j];
                let after = #[trigger] load_out_items@[j];
                &&& after.manufacturer == before.manufacturer
                &&& after.mpn == before.mpn
                &&& after.reference@ == (if exists|e: int| 0 <= e < c + 1 && selected[e] == j {
                    feeder_reference@
                } else {
                    before.reference@
                })
            } by {
                if j == q as int {
                    assert(selected[c as int] == j);
                } else {
                    assert(before_set[j] == load_out_items@[j]);
                    if exists|e: int| 0 <= e < c + 1 && selected[e] == j {
                        let e = choose|e: int| 0 <= e < c + 1 && selected[e] == j;
                        assert(e != c as int);
                    }
                }
            }
        }
        c = c + 1;
    }
    proof {
        assert forall|j: int| 0 <= j < old_items.len() implies
            (exists|e: int| 0 <= e < selected.len() && selected[e] == j) == item_selected(mfr, mp, old_items[j]) by {
            if item_selected(mfr, mp, old_items[j]) {
                assert(selected.contains(j));
                let e = choose|e: int| 0 <= e < selected.len() && selected[e] == j;
                assert(selected[e] == j);
            }
        }
    }
    Ok(parts)
}

} // verus!
