//! Substitutions: rules that change the fields of the placements they match,
//! applied until no rule matches.
use vstd::prelude::*;
use crate::eda::placement::{EdaPlacement, EdaPlacementField, field_views};
use crate::eda::criteria::{FieldCriterion, field_criterion_matches, quoted_pair, quoted_pair_text, criterion_text};
use crate::text::{str_eq, join_spec, join_str, views_of};

verus! {

/// A change: the field with this name gets this value.
#[derive(Debug, Clone, PartialEq, Eq)]
pub struct EdaSubstitutionRuleTransformItem {
    pub field_name: String,
    pub field_value: String,
}

/// A substitution rule: when a placement's fields meet all the criteria, the
/// transforms change its fields.
#[derive(Debug)]
pub struct EdaSubstitutionRule {
    pub criteria: Vec<FieldCriterion>,
    pub transforms: Vec<EdaSubstitutionRuleTransformItem>,
}

/// The values of transforms.
pub open spec fn transform_views(s: Seq<EdaSubstitutionRuleTransformItem>) -> Seq<(Seq<char>, Seq<char>)> {
    s.map_values(|t: EdaSubstitutionRuleTransformItem| (t.field_name@, t.field_value@))
}

/// Whether some field meets the criterion.
pub open spec fn criterion_met(c: FieldCriterion, fields: Seq<(Seq<char>, Seq<char>)>) -> bool {
    exists|i: int| 0 <= i < fields.len() && field_criterion_matches(c, (#[trigger] fields[i]).0, fields[i].1)
}

/// Whether a rule matches fields: it has criteria and each is met by some field.
pub open spec fn rule_matches(rule: EdaSubstitutionRule, fields: Seq<(Seq<char>, Seq<char>)>) -> bool {
    rule.criteria@.len() > 0 && forall|j: int| 0 <= j < rule.criteria@.len() ==> criterion_met(#[trigger] rule.criteria@[j], fields)
}

/// The first field with the name.
pub open spec fn first_named(fields: Seq<(Seq<char>, Seq<char>)>, name: Seq<char>) -> Option<int> {
    if exists|i: int| 0 <= i < fields.len() && (#[trigger] fields[i]).0 == name {
        Some(choose|i: int| 0 <= i < fields.len() && (#[trigger] fields[i]).0 == name && forall|p: int| 0 <= p < i ==> (#[trigger] fields[p]).0 != name)
    } else {
        None
    }
}

/// One change: the first field with the name gets the value; with no such field,
/// nothing changes.
pub open spec fn apply_change(fields: Seq<(Seq<char>, Seq<char>)>, change: (Seq<char>, Seq<char>)) -> Seq<(Seq<char>, Seq<char>)> {
    match first_named(fields, change.0) {
        Some(i) => fields.update(i, (fields[i].0, change.1)),
        None => fields,
    }
}

/// The changes, in order.
pub open spec fn apply_changes(fields: Seq<(Seq<char>, Seq<char>)>, changes: Seq<(Seq<char>, Seq<char>)>) -> Seq<(Seq<char>, Seq<char>)>
    decreases changes.len(),
{
    if changes.len() == 0 {
        fields
    } else {
        apply_change(apply_changes(fields, changes.drop_last()), changes.last())
    }
}

/// One pass over the first `n` rules: each rule that matches the fields as they
/// are then changes them. Gives the fields and the indices of the rules applied.
pub open spec fn substitution_pass(rules: Seq<EdaSubstitutionRule>, fields: Seq<(Seq<char>, Seq<char>)>, n: int) -> (Seq<(Seq<char>, Seq<char>)>, Seq<int>)
    decreases n,
{
    if n <= 0 {
        (fields, Seq::empty())
    } else {
        let before = substitution_pass(rules, fields, n - 1);
        if rule_matches(rules[n - 1], before.0) {
            (apply_changes(before.0, transform_views(rules[n - 1].transforms@)), before.1.push(n - 1))
        } else {
            before
        }
    }
}

/// `k` full passes: the fields after them, and the rules applied, in order.
pub open spec fn substitution_passes(rules: Seq<EdaSubstitutionRule>, fields: Seq<(Seq<char>, Seq<char>)>, k: nat) -> (Seq<(Seq<char>, Seq<char>)>, Seq<int>)
    decreases k,
{
    if k == 0 {
        (fields, Seq::empty())
    } else {
        let before = substitution_passes(rules, fields, (k - 1) as nat);
        let pass = substitution_pass(rules, before.0, rules.len() as int);
        (pass.0, before.1 + pass.1)
    }
}

/// After `k` passes, a pass applies no rule.
pub open spec fn stable_after(rules: Seq<EdaSubstitutionRule>, fields: Seq<(Seq<char>, Seq<char>)>, k: nat) -> bool {
    substitution_pass(rules, substitution_passes(rules, fields, k).0, rules.len() as int).1.len() == 0
}

/// Whether the substitution of the fields comes to an end.
pub open spec fn substitution_ends(rules: Seq<EdaSubstitutionRule>, fields: Seq<(Seq<char>, Seq<char>)>) -> bool {
    exists|k: nat| stable_after(rules, fields, k)
}

impl EdaSubstitutionRule {
    /// The criteria as text: `name: 'pattern'`, separated by `, `.
    pub fn format_criteria(&self) -> (r: String)
        ensures
            r@ == join_spec(self.criteria@.map_values(|c: FieldCriterion| criterion_text(c)), ", "@),
    {
        let mut parts: Vec<String> = Vec::new();
        let mut k: usize = 0;
        while k < self.criteria.len()
            invariant
                k <= self.criteria@.len(),
                views_of(parts@) == self.criteria@.take(k as int).map_values(|c: FieldCriterion| criterion_text(c)),
            decreases self.criteria@.len() - k,
        {
            let text = self.criteria[k].format();
            let ghost before = parts@;
            parts.push(text);
            proof {
                assert(views_of(parts@) =~= views_of(before).push(text@));
                assert(self.criteria@.take(k + 1).map_values(|c: FieldCriterion| criterion_text(c))
                    =~= self.criteria@.take(k as int).map_values(|c: FieldCriterion| criterion_text(c)).push(criterion_text(self.criteria@[k as int])));
            }
            k = k + 1;
        }
        proof {
            assert(self.criteria@.take(k as int) =~= self.criteria@);
        }
        join_str(&parts, ", ")
    }

    /// The changes as text: `name: 'value'`, separated by `, `.
    pub fn format_transform(&self) -> (r: String)
        ensures
            r@ == join_spec(transform_views(self.transforms@).map_values(|t: (Seq<char>, Seq<char>)| quoted_pair_text(t.0, t.1)), ", "@),
    {
        let mut parts: Vec<String> = Vec::new();
        let mut k: usize = 0;
        let ghost texts = transform_views(self.transforms@).map_values(|t: (Seq<char>, Seq<char>)| quoted_pair_text(t.0, t.1));
        while k < self.transforms.len()
            invariant
                k <= self.transforms@.len(),
                texts == transform_views(self.transforms@).map_values(|t: (Seq<char>, Seq<char>)| quoted_pair_text(t.0, t.1)),
                views_of(parts@) == texts.take(k as int),
            decreases self.transforms@.len() - k,
        {
            let t = &self.transforms[k];
            let text = quoted_pair(t.field_name.as_str(), t.field_value.as_str());
            let ghost before = parts@;
            parts.push(text);
            proof {
                assert(views_of(parts@) =~= views_of(before).push(text@));
                assert(texts.take(k + 1) =~= texts.take(k as int).push(texts[k as int]));
            }
            k = k + 1;
        }
        proof {
            assert(texts.take(k as int) =~= texts);
        }
        join_str(&parts, ", ")
    }

    /// Whether the rule matches the placement: it has criteria and each is met by
    /// some field of the placement.
    pub fn matches(&self, eda_placement: &EdaPlacement) -> (r: bool)
        ensures
            r == rule_matches(*self, field_views(eda_placement.fields@)),
    {
        let ghost fv = field_views(eda_placement.fields@);
        let mut matched: Option<bool> = None;
        let mut j: usize = 0;
        while j < self.criteria.len()
            invariant
                j <= self.criteria@.len(),
                fv == field_views(eda_placement.fields@),
                j == 0 <==> matched is None,
                matched matches Some(m) ==> m == forall|q: int| 0 <= q < j ==> criterion_met(#[trigger] self.criteria@[q], fv),
            decreases self.criteria@.len() - j,
        {
            let criterion = &self.criteria[j];
            let mut found = false;
            let mut i: usize = 0;
            while i < eda_placement.fields.len()
                invariant
                    i <= eda_placement.fields@.len(),
                    fv == field_views(eda_placement.fields@),
                    found == exists|p: int| 0 <= p < i && field_criterion_matches(*criterion, (#[trigger] fv[p]).0, fv[p].1),
                decreases eda_placement.fields@.len() - i,
            {
                let field = &eda_placement.fields[i];
                proof {
                    assert(fv[i as int] == (field.name@, field.value@));
                }
                if criterion.matches(field.name.as_str(), field.value.as_str()) {
                    found = true;
                }
                i = i + 1;
            }
            matched = match matched {
                Some(m) => Some(m && found),
                None => Some(found),
            };
            j = j + 1;
        }
        match matched {
            Some(m) => m,
            None => false,
        }
    }

    /// The placement with the rule's changes applied in order: each sets the value
    /// of the first field with its name, if any.
    pub fn apply(&self, eda_placement: &EdaPlacement) -> (r: EdaPlacement)
        ensures
            r.ref_des == eda_placement.ref_des,
            r.place == eda_placement.place,
            r.pcb_side == eda_placement.pcb_side,
            r.x == eda_placement.x,
            r.y == eda_placement.y,
            r.rotation == eda_placement.rotation,
            field_views(r.fields@) == apply_changes(field_views(eda_placement.fields@), transform_views(self.transforms@)),
    {
        let mut placement = eda_placement.copy();
        let ghost start = field_views(eda_placement.fields@);
        let ghost changes = transform_views(self.transforms@);
        let mut t: usize = 0;
        while t < self.transforms.len()
            invariant
                t <= self.transforms@.len(),
                changes == transform_views(self.transforms@),
                start == field_views(eda_placement.fields@),
                placement.ref_des == eda_placement.ref_des,
                placement.place == eda_placement.place,
                placement.pcb_side == eda_placement.pcb_side,
                placement.x == eda_placement.x,
                placement.y == eda_placement.y,
                placement.rotation == eda_placement.rotation,
                field_views(placement.fields@) == apply_changes(start, changes.take(t as int)),
            decreases self.transforms@.len() - t,
        {
            let change = &self.transforms[t];
            let ghost fv = field_views(placement.fields@);
            proof {
                assert(changes.take(t + 1).drop_last() =~= changes.take(t as int));
                assert(changes.take(t + 1).last() == (change.field_name@, change.field_value@));
            }
            let mut i: usize = 0;
            let mut found = false;
            while i < placement.fields.len() && !found
                invariant
                    i <= placement.fields@.len(),
                    fv == field_views(placement.fields@),
                    found ==> i < fv.len() && fv[i as int].0 == change.field_name@,
                    forall|p: int| 0 <= p < i ==> (#[trigger] fv[p]).0 != change.field_name@,
                decreases placement.fields@.len() - i + (if found { 0int } else { 1int }),
            {
                if str_eq(placement.fields[i].name.as_str(), change.field_name.as_str()) {
                    found = true;
                } else {
                    i = i + 1;
                }
            }
            if found {
                proof {
                    assert(fv[i as int].0 == change.field_name@);
                    let f = choose|f: int| 0 <= f < fv.len() && (#[trigger] fv[f]).0 == change.field_name@
                        && forall|p: int| 0 <= p < f ==> (#[trigger] fv[p]).0 != change.field_name@;
                    if f < i {
                    } else if f > i {
                        assert(fv[i as int].0 != change.field_name@);
                    }
                    assert(f == i);
                }
                let name = placement.fields[i].name.clone();
                placement.fields.set(i, EdaPlacementField::new(name, change.field_value.clone()));
                proof {
                    assert(field_views(placement.fields@) =~= fv.update(i as int, (fv[i as int].0, change.field_value@)));
                }
            }
            t = t + 1;
        }
        proof {
            assert(changes.take(t as int) =~= changes);
        }
        placement
    }
}

/// A rule applied in a substitution.
#[derive(Debug)]
pub struct EdaSubstitutionChainEntry<'rule> {
    pub rule: &'rule EdaSubstitutionRule,
}

/// A placement, the placement its substitutions lead to, and the rules applied.
#[derive(Debug)]
pub struct EdaSubstitutionResult<'placement, 'rule> {
    pub original_placement: &'placement EdaPlacement,
    pub resulting_placement: EdaPlacement,
    pub chain: Vec<EdaSubstitutionChainEntry<'rule>>,
}

/// The number of passes after which the substitution of the fields ends: the
/// least after which a pass applies no rule.
pub open spec fn passes_needed(rules: Seq<EdaSubstitutionRule>, fields: Seq<(Seq<char>, Seq<char>)>) -> nat {
    choose|k: nat| stable_after(rules, fields, k) && forall|j: nat| j < k ==> !#[trigger] stable_after(rules, fields, j)
}

/// The substitution of a placement: the original, the placement after the passes
/// needed, and the rules applied, in order.
pub open spec fn substituted(result: EdaSubstitutionResult, original: EdaPlacement, rules: Seq<EdaSubstitutionRule>) -> bool {
    let fields = field_views(original.fields@);
    let outcome = substitution_passes(rules, fields, passes_needed(rules, fields));
    &&& *result.original_placement == original
    &&& result.resulting_placement.ref_des == original.ref_des
    &&& result.resulting_placement.place == original.place
    &&& result.resulting_placement.pcb_side == original.pcb_side
    &&& result.resulting_placement.x == original.x
    &&& result.resulting_placement.y == original.y
    &&& result.resulting_placement.rotation == original.rotation
    &&& field_views(result.resulting_placement.fields@) == outcome.0
    &&& result.chain@.len() == outcome.1.len()
    &&& forall|c: int| 0 <= c < result.chain@.len() ==> *(#[trigger] result.chain@[c]).rule == rules[outcome.1[c]]
}

proof fn lemma_pass_indices(rules: Seq<EdaSubstitutionRule>, fields: Seq<(Seq<char>, Seq<char>)>, n: int)
    requires
        0 <= n <= rules.len(),
    ensures
        forall|c: int| 0 <= c < substitution_pass(rules, fields, n).1.len() ==> 0 <= #[trigger] substitution_pass(rules, fields, n).1[c] < n,
    decreases n,
{
    if n > 0 {
        lemma_pass_indices(rules, fields, n - 1);
        let before = substitution_pass(rules, fields, n - 1);
        if rule_matches(rules[n - 1], before.0) {
            let after = substitution_pass(rules, fields, n);
            assert forall|c: int| 0 <= c < after.1.len() implies 0 <= #[trigger] after.1[c] < n by {
                if c < before.1.len() {
                    assert(after.1[c] == before.1[c]);
                }
            }
        }
    }
}

proof fn lemma_pass_len(rules: Seq<EdaSubstitutionRule>, fields: Seq<(Seq<char>, Seq<char>)>, n: int)
    requires
        0 <= n,
    ensures
        substitution_pass(rules, fields, n).1.len() <= n,
        substitution_pass(rules, fields, n).1.len() == 0 ==> substitution_pass(rules, fields, n).0 == fields,
    decreases n,
{
    if n > 0 {
        lemma_pass_len(rules, fields, n - 1);
    }
}

proof fn lemma_quiet_pass(rules: Seq<EdaSubstitutionRule>, fields: Seq<(Seq<char>, Seq<char>)>, n: int)
    requires
        0 <= n <= rules.len(),
        substitution_pass(rules, fields, n).1.len() == 0,
    ensures
        forall|j: int| 0 <= j < n ==> !rule_matches(#[trigger] rules[j], fields),
    decreases n,
{
    if n > 0 {
        let before = substitution_pass(rules, fields, n - 1);
        assert(!rule_matches(rules[n - 1], before.0));
        lemma_pass_len(rules, fields, n - 1);
        assert(before.0 == fields);
        lemma_quiet_pass(rules, fields, n - 1);
    }
}

proof fn lemma_least_stable(rules: Seq<EdaSubstitutionRule>, fields: Seq<(Seq<char>, Seq<char>)>, k: nat)
    requires
        stable_after(rules, fields, k),
    ensures
        stable_after(rules, fields, passes_needed(rules, fields)),
    decreases k,
{
    if exists|j: nat| j < k && #[trigger] stable_after(rules, fields, j) {
        let j = choose|j: nat| j < k && #[trigger] stable_after(rules, fields, j);
        lemma_least_stable(rules, fields, j);
    } else {
        assert(stable_after(rules, fields, k) && forall|j: nat| j < k ==> !#[trigger] stable_after(rules, fields, j));
    }
}

/// A substitution that comes to an end leaves what no rule matches: after the
/// passes needed, no rule matches the outcome.
pub proof fn lemma_substitution_result_is_stable(rules: Seq<EdaSubstitutionRule>, fields: Seq<(Seq<char>, Seq<char>)>)
    requires
        substitution_ends(rules, fields),
    ensures
        forall|j: int| 0 <= j < rules.len() ==> !rule_matches(
            #[trigger] rules[j],
            substitution_passes(rules, fields, passes_needed(rules, fields)).0,
        ),
{
    let k = choose|k: nat| stable_after(rules, fields, k);
    lemma_least_stable(rules, fields, k);
    let outcome = substitution_passes(rules, fields, passes_needed(rules, fields)).0;
    lemma_quiet_pass(rules, outcome, rules.len() as int);
}

/// Applies substitution rules to placements.
pub struct EdaSubstitutor {}

impl EdaSubstitutor {
    /// For each placement, applies passes over the rules, in order, each rule that
    /// matches the placement as it then is changing it, until a pass applies no
    /// rule. The substitution of each placement must come to an end.
    pub fn substitute<'placement, 'rule>(
        original_eda_placements: &'placement [EdaPlacement],
        eda_substitution_rules: &'rule [EdaSubstitutionRule],
    ) -> (r: Vec<EdaSubstitutionResult<'placement, 'rule>>)
        requires
            forall|i: int| 0 <= i < original_eda_placements@.len() ==> substitution_ends(
                eda_substitution_rules@,
                field_views((#[trigger] original_eda_placements@[i]).fields@),
            ),
        ensures
            r@.len() == original_eda_placements@.len(),
            forall|i: int| 0 <= i < r@.len() ==> substituted(#[trigger] r@[i], original_eda_placements@[i], eda_substitution_rules@),
    {
        let ghost rules = eda_substitution_rules@;
        let mut results: Vec<EdaSubstitutionResult<'placement, 'rule>> = Vec::new();
        let mut p: usize = 0;
        while p < original_eda_placements.len()
            invariant
                p <= original_eda_placements@.len(),
                rules == eda_substitution_rules@,
                forall|i: int| 0 <= i < original_eda_placements@.len() ==> substitution_ends(
                    rules,
                    field_views((#[trigger] original_eda_placements@[i]).fields@),
                ),
                results@.len() == p,
                forall|i: int| 0 <= i < p ==> substituted(#[trigger] results@[i], original_eda_placements@[i], rules),
            decreases original_eda_placements@.len() - p,
        {
            let original = &original_eda_placements[p];
            let ghost fields = field_views(original.fields@);
            proof {
                assert(substitution_ends(rules, field_views(original_eda_placements@[p as int].fields@)));
            }
            let ghost bound: nat = choose|k: nat| stable_after(rules, fields, k);
            let mut placement = original.copy();
            let mut chain: Vec<EdaSubstitutionChainEntry<'rule>> = Vec::new();
            let ghost mut passes: nat = 0;
            let mut done = false;
            while !done
                invariant
                    rules == eda_substitution_rules@,
                    fields == field_views(original.fields@),
                    stable_after(rules, fields, bound),
                    passes <= bound,
                    forall|j: nat| j < passes ==> !#[trigger] stable_after(rules, fields, j),
                    done ==> stable_after(rules, fields, passes),
                    placement.ref_des == original.ref_des,
                    placement.place == original.place,
                    placement.pcb_side == original.pcb_side,
                    placement.x == original.x,
                    placement.y == original.y,
                    placement.rotation == original.rotation,
                    field_views(placement.fields@) == substitution_passes(rules, fields, passes).0,
                    chain@.len() == substitution_passes(rules, fields, passes).1.len(),
                    forall|c: int| 0 <= c < chain@.len() ==> *(#[trigger] chain@[c]).rule == rules[substitution_passes(rules, fields, passes).1[c]],
                decreases bound - passes, if done { 0int } else { 1int },
            {
                let ghost start = field_views(placement.fields@);
                let ghost chain_start = chain@;
                let mut applied: usize = 0;
                let mut k: usize = 0;
                while k < eda_substitution_rules.len()
                    invariant
                        k <= rules.len(),
                        rules == eda_substitution_rules@,
                        placement.ref_des == original.ref_des,
                        placement.place == original.place,
                        placement.pcb_side == original.pcb_side,
                        placement.x == original.x,
                        placement.y == original.y,
                        placement.rotation == original.rotation,
                        field_views(placement.fields@) == substitution_pass(rules, start, k as int).0,
                        applied == substitution_pass(rules, start, k as int).1.len(),
                        applied <= k,
                        chain@.len() == chain_start.len() + applied,
                        forall|c: int| 0 <= c < chain_start.len() ==> #[trigger] chain@[c] == chain_start[c],
                        forall|c: int| 0 <= c < applied ==> *(#[trigger] chain@[chain_start.len() + c]).rule == rules[substitution_pass(rules, start, k as int).1[c]],
                    decreases rules.len() - k,
                {
                    let rule = &eda_substitution_rules[k];
                    proof {
                        lemma_pass_len(rules, start, k as int);
                    }
                    if rule.matches(&placement) {
                        proof {
                            lemma_pass_indices(rules, start, k as int);
                        }
                        placement = rule.apply(&placement);
                        chain.push(EdaSubstitutionChainEntry { rule });
                        applied = applied + 1;
                    }
                    k = k + 1;
                }
                proof {
                    lemma_pass_len(rules, start, rules.len() as int);
                    let before = substitution_passes(rules, fields, passes);
                    let after = substitution_passes(rules, fields, (passes + 1) as nat);
                    assert(start == before.0);
                    assert(after.0 == substitution_pass(rules, start, rules.len() as int).0);
                    assert(after.1 == before.1 + substitution_pass(rules, start, rules.len() as int).1);
                }
                if applied == 0 {
                    done = true;
                    proof {
                        assert(stable_after(rules, fields, passes));
                        assert(chain@ =~= chain_start);
                    }
                } else {
                    proof {
                        if passes == bound {
                            assert(false);
                        }
                        assert forall|j: nat| j < passes + 1 implies !#[trigger] stable_after(rules, fields, j) by {
                            if j == passes {
                            }
                        }
                        let after = substitution_passes(rules, fields, (passes + 1) as nat);
                        assert forall|c: int| 0 <= c < chain@.len() implies *(#[trigger] chain@[c]).rule == rules[after.1[c]] by {
                            if c >= chain_start.len() {
                                assert(chain@[chain_start.len() + (c - chain_start.len())] == chain@[c]);
                            }
                        }
                        passes = passes + 1;
                    }
                }
            }
            proof {
                let k = passes_needed(rules, fields);
                assert(stable_after(rules, fields, passes) && forall|j: nat| j < passes ==> !#[trigger] stable_after(rules, fields, j));
                if k < passes {
                    assert(!stable_after(rules, fields, k));
                } else if k > passes {
                    assert(!stable_after(rules, fields, passes));
                }
                assert(k == passes);
            }
            results.push(EdaSubstitutionResult { original_placement: original, resulting_placement: placement, chain });
            p = p + 1;
        }
        results
    }
}

} // verus!
