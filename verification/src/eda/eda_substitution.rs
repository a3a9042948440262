//! Substitutions of tool-specific placement details: a rule matches placements
//! of its tool with exactly its name and value (DipTrace) or package and value
//! (KiCad), and replaces them.
use vstd::prelude::*;
use crate::eda::eda_placement::{EdaPlacement, EdaPlacementDetails, DipTracePlacementDetails, KiCadPlacementDetails};
use crate::eda::criteria::{quoted_pair, quoted_pair_text};
use crate::text::{str_eq, push_str, string_from_chars};

verus! {

/// A substitution rule for the details of one tool.
#[derive(Debug, Clone, PartialEq, Eq)]
pub struct EdaSubstitutionRule {
    pub details: EdaSubstitutionRuleDetails,
}

/// The tool-specific part of a rule.
#[derive(Debug, Clone, PartialEq, Eq)]
pub enum EdaSubstitutionRuleDetails {
    DipTrace(DipTraceSubstitutionRuleDetails),
    KiCad(KiCadSubstitutionRuleDetails),
}

/// Replaces the name and value of DipTrace placements with these exact ones.
#[derive(Debug, Clone, PartialEq, Eq)]
pub struct DipTraceSubstitutionRuleDetails {
    pub name_pattern: String,
    pub value_pattern: String,
    pub name: String,
    pub value: String,
}

/// Replaces the package and value of KiCad placements with these exact ones.
#[derive(Debug, Clone, PartialEq, Eq)]
pub struct KiCadSubstitutionRuleDetails {
    pub package_pattern: String,
    pub val_pattern: String,
    pub package: String,
    pub val: String,
}

/// The text `a: 'x', b: 'y'`.
pub open spec fn two_pairs_text(a: Seq<char>, x: Seq<char>, b: Seq<char>, y: Seq<char>) -> Seq<char> {
    quoted_pair_text(a, x) + ", "@ + quoted_pair_text(b, y)
}

/// Builds the text `a: 'x', b: 'y'`.
fn two_pairs(a: &str, x: &str, b: &str, y: &str) -> (r: String)
    ensures
        r@ == two_pairs_text(a@, x@, b@, y@),
{
    proof {
        reveal_strlit(", ");
    }
    let first = quoted_pair(a, x);
    let second = quoted_pair(b, y);
    let mut out: Vec<char> = Vec::new();
    push_str(&mut out, first.as_str());
    push_str(&mut out, ", ");
    push_str(&mut out, second.as_str());
    let r = string_from_chars(out);
    assert(r@ =~= two_pairs_text(a@, x@, b@, y@));
    r
}

impl DipTraceSubstitutionRuleDetails {
    /// The replacement as text: `name: '..', value: '..'`.
    pub fn format_change(&self) -> (r: String)
        ensures
            r@ == two_pairs_text("name"@, self.name@, "value"@, self.value@),
    {
        two_pairs("name", self.name.as_str(), "value", self.value.as_str())
    }

    /// The criteria as text: `name_pattern: '..', value_pattern: '..'`.
    pub fn format_critera(&self) -> (r: String)
        ensures
            r@ == two_pairs_text("name_pattern"@, self.name_pattern@, "value_pattern"@, self.value_pattern@),
    {
        two_pairs("name_pattern", self.name_pattern.as_str(), "value_pattern", self.value_pattern.as_str())
    }

    /// Whether the placement is a DipTrace placement with exactly this name and value.
    pub fn matches(&self, eda_placement: &EdaPlacement) -> (r: bool)
        ensures
            r == rule_matches(EdaSubstitutionRule { details: EdaSubstitutionRuleDetails::DipTrace(*self) }, *eda_placement),
    {
        match &eda_placement.details {
            EdaPlacementDetails::DipTrace(d) => str_eq(self.name_pattern.as_str(), d.name.as_str())
                && str_eq(self.value_pattern.as_str(), d.value.as_str()),
            _ => false,
        }
    }
}

impl KiCadSubstitutionRuleDetails {
    /// The replacement as text: `package: '..', val: '..'`.
    pub fn format_change(&self) -> (r: String)
        ensures
            r@ == two_pairs_text("package"@, self.package@, "val"@, self.val@),
    {
        two_pairs("package", self.package.as_str(), "val", self.val.as_str())
    }

    /// The criteria as text: `package_pattern: '..', val_pattern: '..'`.
    pub fn format_critera(&self) -> (r: String)
        ensures
            r@ == two_pairs_text("package_pattern"@, self.package_pattern@, "val_pattern"@, self.val_pattern@),
    {
        two_pairs("package_pattern", self.package_pattern.as_str(), "val_pattern", self.val_pattern.as_str())
    }

    /// Whether the placement is a KiCad placement with exactly this package and value.
    pub fn matches(&self, eda_placement: &EdaPlacement) -> (r: bool)
        ensures
            r == rule_matches(EdaSubstitutionRule { details: EdaSubstitutionRuleDetails::KiCad(*self) }, *eda_placement),
    {
        match &eda_placement.details {
            EdaPlacementDetails::KiCad(d) => str_eq(self.package_pattern.as_str(), d.package.as_str())
                && str_eq(self.val_pattern.as_str(), d.val.as_str()),
            _ => false,
        }
    }
}

/// Whether a rule matches a placement: same tool, and the details equal the rule's
/// patterns exactly.
pub open spec fn rule_matches(rule: EdaSubstitutionRule, p: EdaPlacement) -> bool {
    match (rule.details, p.details) {
        (EdaSubstitutionRuleDetails::DipTrace(d), EdaPlacementDetails::DipTrace(pd)) => d.name_pattern@ == pd.name@
            && d.value_pattern@ == pd.value@,
        (EdaSubstitutionRuleDetails::KiCad(d), EdaPlacementDetails::KiCad(pd)) => d.package_pattern@ == pd.package@ && d.val_pattern@
            == pd.val@,
        _ => false,
    }
}

/// Whether the rule is for the tool of the placement.
pub open spec fn same_tool(rule: EdaSubstitutionRule, p: EdaPlacement) -> bool {
    match (rule.details, p.details) {
        (EdaSubstitutionRuleDetails::DipTrace(_), EdaPlacementDetails::DipTrace(_)) => true,
        (EdaSubstitutionRuleDetails::KiCad(_), EdaPlacementDetails::KiCad(_)) => true,
        _ => false,
    }
}

/// The placement with the rule's replacement, for a placement of the rule's tool.
pub open spec fn rule_applied(rule: EdaSubstitutionRule, p: EdaPlacement) -> EdaPlacement {
    match (rule.details, p.details) {
        (EdaSubstitutionRuleDetails::DipTrace(d), EdaPlacementDetails::DipTrace(_)) => EdaPlacement {
            details: EdaPlacementDetails::DipTrace(DipTracePlacementDetails { name: d.name, value: d.value }),
            ..p
        },
        (EdaSubstitutionRuleDetails::KiCad(d), EdaPlacementDetails::KiCad(_)) => EdaPlacement {
            details: EdaPlacementDetails::KiCad(KiCadPlacementDetails { package: d.package, val: d.val }),
            ..p
        },
        _ => p,
    }
}

impl EdaSubstitutionRule {
    /// The criteria as text, as the details format them.
    pub fn format_criteria(&self) -> (r: String)
        ensures
            r@ == match self.details {
                EdaSubstitutionRuleDetails::DipTrace(d) => two_pairs_text("name_pattern"@, d.name_pattern@, "value_pattern"@, d.value_pattern@),
                EdaSubstitutionRuleDetails::KiCad(d) => two_pairs_text("package_pattern"@, d.package_pattern@, "val_pattern"@, d.val_pattern@),
            },
    {
        match &self.details {
            EdaSubstitutionRuleDetails::DipTrace(details) => details.format_critera(),
            EdaSubstitutionRuleDetails::KiCad(details) => details.format_critera(),
        }
    }

    /// The replacement as text, as the details format it.
    pub fn format_change(&self) -> (r: String)
        ensures
            r@ == match self.details {
                EdaSubstitutionRuleDetails::DipTrace(d) => two_pairs_text("name"@, d.name@, "value"@, d.value@),
                EdaSubstitutionRuleDetails::KiCad(d) => two_pairs_text("package"@, d.package@, "val"@, d.val@),
            },
    {
        match &self.details {
            EdaSubstitutionRuleDetails::DipTrace(details) => details.format_change(),
            EdaSubstitutionRuleDetails::KiCad(details) => details.format_change(),
        }
    }

    /// Whether the rule matches the placement.
    pub fn matches(&self, eda_placement: &EdaPlacement) -> (r: bool)
        ensures
            r == rule_matches(*self, *eda_placement),
    {
        match &self.details {
            EdaSubstitutionRuleDetails::DipTrace(details) => details.matches(eda_placement),
            EdaSubstitutionRuleDetails::KiCad(details) => details.matches(eda_placement),
        }
    }

    /// The placement with the rule's replacement; the rule must be for the
    /// placement's tool.
    pub fn apply(&self, eda_placement: &EdaPlacement) -> (r: EdaPlacement)
        requires
            same_tool(*self, *eda_placement),
        ensures
            r == rule_applied(*self, *eda_placement),
    {
        match (&self.details, &eda_placement.details) {
            (EdaSubstitutionRuleDetails::DipTrace(d), EdaPlacementDetails::DipTrace(_)) => EdaPlacement {
                ref_des: eda_placement.ref_des.clone(),
                place: eda_placement.place,
                details: EdaPlacementDetails::DipTrace(DipTracePlacementDetails { name: d.name.clone(), value: d.value.clone() }),
            },
            (EdaSubstitutionRuleDetails::KiCad(d), EdaPlacementDetails::KiCad(_)) => EdaPlacement {
                ref_des: eda_placement.ref_des.clone(),
                place: eda_placement.place,
                details: EdaPlacementDetails::KiCad(KiCadPlacementDetails { package: d.package.clone(), val: d.val.clone() }),
            },
            _ => eda_placement.copy(),
        }
    }
}

/// One pass over the first `n` rules: each rule that matches the placement as it
/// is then replaces its details. Gives the placement and the rules applied.
pub open spec fn substitution_pass(rules: Seq<EdaSubstitutionRule>, p: EdaPlacement, n: int) -> (EdaPlacement, Seq<int>)
    decreases n,
{
    if n <= 0 {
        (p, Seq::empty())
    } else {
        let before = substitution_pass(rules, p, n - 1);
        if rule_matches(rules[n - 1], before.0) {
            (rule_applied(rules[n - 1], before.0), before.1.push(n - 1))
        } else {
            before
        }
    }
}

/// `k` full passes.
pub open spec fn substitution_passes(rules: Seq<EdaSubstitutionRule>, p: EdaPlacement, k: nat) -> (EdaPlacement, Seq<int>)
    decreases k,
{
    if k == 0 {
        (p, Seq::empty())
    } else {
        let before = substitution_passes(rules, p, (k - 1) as nat);
        let pass = substitution_pass(rules, before.0, rules.len() as int);
        (pass.0, before.1 + pass.1)
    }
}

/// After `k` passes, a pass applies no rule.
pub open spec fn stable_after(rules: Seq<EdaSubstitutionRule>, p: EdaPlacement, k: nat) -> bool {
    substitution_pass(rules, substitution_passes(rules, p, k).0, rules.len() as int).1.len() == 0
}

/// Whether the substitution of the placement comes to an end.
pub open spec fn substitution_ends(rules: Seq<EdaSubstitutionRule>, p: EdaPlacement) -> bool {
    exists|k: nat| stable_after(rules, p, k)
}

/// The least number of passes after which a pass applies no rule.
pub open spec fn passes_needed(rules: Seq<EdaSubstitutionRule>, p: EdaPlacement) -> nat {
    choose|k: nat| stable_after(rules, p, k) && forall|j: nat| j < k ==> !#[trigger] stable_after(rules, p, j)
}

proof fn lemma_pass_facts(rules: Seq<EdaSubstitutionRule>, p: EdaPlacement, n: int)
    requires
        0 <= n <= rules.len(),
    ensures
        substitution_pass(rules, p, n).1.len() <= n,
        substitution_pass(rules, p, n).1.len() == 0 ==> substitution_pass(rules, p, n).0 == p,
        forall|c: int| 0 <= c < substitution_pass(rules, p, n).1.len() ==> 0 <= #[trigger] substitution_pass(rules, p, n).1[c] < n,
    decreases n,
{
    if n > 0 {
        lemma_pass_facts(rules, p, n - 1);
        let before = substitution_pass(rules, p, n - 1);
        if rule_matches(rules[n - 1], before.0) {
            let after = substitution_pass(rules, p, n);
            assert forall|c: int| 0 <= c < after.1.len() implies 0 <= #[trigger] after.1[c] < n by {
                if c < before.1.len() {
                    assert(after.1[c] == before.1[c]);
                }
            }
        }
    }
}

/// A rule applied in a substitution.
#[derive(Debug, PartialEq, Eq)]
pub struct EdaSubstitutionChainEntry<'rule> {
    pub rule: &'rule EdaSubstitutionRule,
}

/// A placement, the placement its substitutions lead to, and the rules applied.
#[derive(Debug, PartialEq, Eq)]
pub struct EdaSubstitutionResult<'placement, 'rule> {
    pub original_placement: &'placement EdaPlacement,
    pub resulting_placement: EdaPlacement,
    pub chain: Vec<EdaSubstitutionChainEntry<'rule>>,
}

/// The substitution of a placement: the original, the placement after the passes
/// needed, and the rules applied, in order.
pub open spec fn substituted(result: EdaSubstitutionResult, original: EdaPlacement, rules: Seq<EdaSubstitutionRule>) -> bool {
    let outcome = substitution_passes(rules, original, passes_needed(rules, original));
    &&& *result.original_placement == original
    &&& result.resulting_placement == outcome.0
    &&& result.chain@.len() == outcome.1.len()
    &&& forall|c: int| 0 <= c < result.chain@.len() ==> *(#[trigger] result.chain@[c]).rule == rules[outcome.1[c]]
}

proof fn lemma_quiet_pass(rules: Seq<EdaSubstitutionRule>, p: EdaPlacement, n: int)
    requires
        0 <= n <= rules.len(),
        substitution_pass(rules, p, n).1.len() == 0,
    ensures
        forall|j: int| 0 <= j < n ==> !rule_matches(#[trigger] rules[j], p),
    decreases n,
{
    if n > 0 {
        let before = substitution_pass(rules, p, n - 1);
        assert(!rule_matches(rules[n - 1], before.0));
        lemma_pass_facts(rules, p, n - 1);
        assert(before.0 == p);
        lemma_quiet_pass(rules, p, n - 1);
    }
}

proof fn lemma_least_stable(rules: Seq<EdaSubstitutionRule>, p: EdaPlacement, k: nat)
    requires
        stable_after(rules, p, k),
    ensures
        stable_after(rules, p, passes_needed(rules, p)),
    decreases k,
{
    if exists|j: nat| j < k && #[trigger] stable_after(rules, p, j) {
        let j = choose|j: nat| j < k && #[trigger] stable_after(rules, p, j);
        lemma_least_stable(rules, p, j);
    } else {
        assert(stable_after(rules, p, k) && forall|j: nat| j < k ==> !#[trigger] stable_after(rules, p, j));
    }
}

/// A substitution that comes to an end leaves what no rule matches: after the
/// passes needed, no rule matches the outcome.
pub proof fn lemma_substitution_result_is_stable(rules: Seq<EdaSubstitutionRule>, p: EdaPlacement)
    requires
        substitution_ends(rules, p),
    ensures
        forall|j: int| 0 <= j < rules.len() ==> !rule_matches(
            #[trigger] rules[j],
            substitution_passes(rules, p, passes_needed(rules, p)).0,
        ),
{
    let k = choose|k: nat| stable_after(rules, p, k);
    lemma_least_stable(rules, p, k);
    let outcome = substitution_passes(rules, p, passes_needed(rules, p)).0;
    lemma_quiet_pass(rules, outcome, rules.len() as int);
}

/// A pass over rules none of which matches the placement leaves it as it is.
proof fn lemma_pass_without_match(rules: Seq<EdaSubstitutionRule>, p: EdaPlacement, n: int)
    requires
        0 <= n <= rules.len(),
        forall|j: int| 0 <= j < rules.len() ==> !rule_matches(#[trigger] rules[j], p),
    ensures
        substitution_pass(rules, p, n) == (p, Seq::<int>::empty()),
    decreases n,
{
    if n > 0 {
        lemma_pass_without_match(rules, p, n - 1);
        assert(!rule_matches(rules[n - 1], p));
    }
}

/// Where no rule matches the placement, its substitution leaves it as it is and
/// applies no rule.
proof fn lemma_substitution_without_match(result: EdaSubstitutionResult, p: EdaPlacement, rules: Seq<EdaSubstitutionRule>)
    requires
        substituted(result, p, rules),
        forall|j: int| 0 <= j < rules.len() ==> !rule_matches(#[trigger] rules[j], p),
    ensures
        result.resulting_placement == p,
        result.chain@.len() == 0,
{
    lemma_pass_without_match(rules, p, rules.len() as int);
    assert(substitution_passes(rules, p, 0) == (p, Seq::<int>::empty()));
    assert(stable_after(rules, p, 0));
    let k = passes_needed(rules, p);
    assert(stable_after(rules, p, 0) && forall|j: nat| j < 0 ==> !#[trigger] stable_after(rules, p, j));
    assert(stable_after(rules, p, k) && forall|j: nat| j < k ==> !#[trigger] stable_after(rules, p, j));
    if k > 0 {
        assert(!stable_after(rules, p, 0));
    }
    assert(k == 0);
}

/// A KiCad placement is substituted only by a KiCad rule whose package pattern
/// and val pattern are both the placement's package and val: where every KiCad
/// rule differs from the placement in its package or its val, the substitution
/// leaves the placement as it is and applies no rule.
pub proof fn lemma_kicad_substitution_needs_package_and_val(
    result: EdaSubstitutionResult,
    p: EdaPlacement,
    rules: Seq<EdaSubstitutionRule>,
)
    requires
        substituted(result, p, rules),
        p.details matches EdaPlacementDetails::KiCad(pd) && forall|j: int| 0 <= j < rules.len() ==> (
            (#[trigger] rules[j]).details matches EdaSubstitutionRuleDetails::KiCad(d)
            ==> d.package_pattern@ != pd.package@ || d.val_pattern@ != pd.val@),
    ensures
        result.resulting_placement == p,
        result.chain@.len() == 0,
{
    assert forall|j: int| 0 <= j < rules.len() implies !rule_matches(#[trigger] rules[j], p) by {
        match rules[j].details {
            EdaSubstitutionRuleDetails::KiCad(d) => {},
            EdaSubstitutionRuleDetails::DipTrace(d) => {},
        }
    }
    lemma_substitution_without_match(result, p, rules);
}

/// A DipTrace placement is substituted only by a DipTrace rule whose name
/// pattern and value pattern are both the placement's name and value: where
/// every DipTrace rule differs from the placement in its name or its value, the
/// substitution leaves the placement as it is and applies no rule.
pub proof fn lemma_diptrace_substitution_needs_name_and_value(
    result: EdaSubstitutionResult,
    p: EdaPlacement,
    rules: Seq<EdaSubstitutionRule>,
)
    requires
        substituted(result, p, rules),
        p.details matches EdaPlacementDetails::DipTrace(pd) && forall|j: int| 0 <= j < rules.len() ==> (
            (#[trigger] rules[j]).details matches EdaSubstitutionRuleDetails::DipTrace(d)
            ==> d.name_pattern@ != pd.name@ || d.value_pattern@ != pd.value@),
    ensures
        result.resulting_placement == p,
        result.chain@.len() == 0,
{
    assert forall|j: int| 0 <= j < rules.len() implies !rule_matches(#[trigger] rules[j], p) by {
        match rules[j].details {
            EdaSubstitutionRuleDetails::KiCad(d) => {},
            EdaSubstitutionRuleDetails::DipTrace(d) => {},
        }
    }
    lemma_substitution_without_match(result, p, rules);
}

/// Applies substitution rules to placements.
pub struct EdaSubstitutor {}

impl EdaSubstitutor {
    /// For each placement, applies passes over the rules, in order, until a pass
    /// applies no rule. The substitution of each placement must come to an end.
    pub fn substitute<'placement, 'rule>(
        original_eda_placements: &'placement [EdaPlacement],
        eda_substitution_rules: &'rule [EdaSubstitutionRule],
    ) -> (r: Vec<EdaSubstitutionResult<'placement, 'rule>>)
        requires
            forall|i: int| 0 <= i < original_eda_placements@.len() ==> substitution_ends(
                eda_substitution_rules@,
                #[trigger] original_eda_placements@[i],
            ),
        ensures
            r@.len() == original_eda_placements@.len(),
            forall|i: int| 0 <= i < r@.len() ==> substituted(#[trigger] r@[i], original_eda_placements@[i], eda_substitution_rules@),
    {
        let ghost rules = eda_substitution_rules@;
        let mut results: Vec<EdaSubstitutionResult<'placement, 'rule>> = Vec::new();
        let mut p: usize = 0;
        while p < original_eda_placements.len()
            invariant
                p <= original_eda_placements@.len(),
                rules == eda_substitution_rules@,
                forall|i: int| 0 <= i < original_eda_placements@.len() ==> substitution_ends(rules, #[trigger] original_eda_placements@[i]),
                results@.len() == p,
                forall|i: int| 0 <= i < p ==> substituted(#[trigger] results@[i], original_eda_placements@[i], rules),
            decreases original_eda_placements@.len() - p,
        {
            let original = &original_eda_placements[p];
            proof {
                assert(substitution_ends(rules, original_eda_placements@[p as int]));
            }
            let ghost bound: nat = choose|k: nat| stable_after(rules, *original, k);
            let mut placement = original.copy();
            let mut chain: Vec<EdaSubstitutionChainEntry<'rule>> = Vec::new();
            let ghost mut passes: nat = 0;
            let mut done = false;
            while !done
                invariant
                    rules == eda_substitution_rules@,
                    stable_after(rules, *original, bound),
                    passes <= bound,
                    forall|j: nat| j < passes ==> !#[trigger] stable_after(rules, *original, j),
                    done ==> stable_after(rules, *original, passes),
                    placement == substitution_passes(rules, *original, passes).0,
                    chain@.len() == substitution_passes(rules, *original, passes).1.len(),
                    forall|c: int| 0 <= c < chain@.len() ==> *(#[trigger] chain@[c]).rule == rules[substitution_passes(rules, *original, passes).1[c]],
                decreases bound - passes, if done { 0int } else { 1int },
            {
                let ghost start = placement;
                let ghost chain_start = chain@;
                let mut applied: usize = 0;
                let mut k: usize = 0;
                while k < eda_substitution_rules.len()
                    invariant
                        k <= rules.len(),
                        rules == eda_substitution_rules@,
                        placement == substitution_pass(rules, start, k as int).0,
                        applied == substitution_pass(rules, start, k as int).1.len(),
                        applied <= k,
                        chain@.len() == chain_start.len() + applied,
                        forall|c: int| 0 <= c < chain_start.len() ==> #[trigger] chain@[c] == chain_start[c],
                        forall|c: int| 0 <= c < applied ==> *(#[trigger] chain@[chain_start.len() + c]).rule == rules[substitution_pass(rules, start, k as int).1[c]],
                    decreases rules.len() - k,
                {
                    let rule = &eda_substitution_rules[k];
                    proof {
                        lemma_pass_facts(rules, start, k as int);
                    }
                    if rule.matches(&placement) {
                        placement = rule.apply(&placement);
                        chain.push(EdaSubstitutionChainEntry { rule });
                        applied = applied + 1;
                    }
                    k = k + 1;
                }
                proof {
                    lemma_pass_facts(rules, start, rules.len() as int);
                }
                if applied == 0 {
                    done = true;
                    proof {
                        assert(chain@ =~= chain_start);
                    }
                } else {
                    proof {
                        if passes == bound {
                            assert(false);
                        }
                        assert forall|j: nat| j < passes + 1 implies !#[trigger] stable_after(rules, *original, j) by {
                        }
                        let after = substitution_passes(rules, *original, (passes + 1) as nat);
                        assert forall|c: int| 0 <= c < chain@.len() implies *(#[trigger] chain@[c]).rule == rules[after.1[c]] by {
                            if c >= chain_start.len() {
                                assert(chain@[chain_start.len() + (c - chain_start.len())] == chain@[c]);
                            }
                        }
                        passes = passes + 1;
                    }
                }
            }
            proof {
                let k = passes_needed(rules, *original);
                assert(stable_after(rules, *original, passes) && forall|j: nat| j < passes ==> !#[trigger] stable_after(rules, *original, j));
                if k < passes {
                    assert(!stable_after(rules, *original, k));
                } else if k > passes {
                    assert(!stable_after(rules, *original, passes));
                }
                assert(k == passes);
            }
            results.push(EdaSubstitutionResult { original_placement: original, resulting_placement: placement, chain });
            p = p + 1;
        }
        results
    }
}

} // verus!
