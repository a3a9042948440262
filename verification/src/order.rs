//! Order facts shared by the comparisons of the library: every comparison here
//! is a strict total order whose `Equal` is equality of the compared views.
use vstd::prelude::*;
use crate::text::{Comparison, lex_compare, lemma_lex_compare_equal, lemma_lex_compare_flip, lemma_lex_compare_less_transitive};
use crate::pnp::object_path::{element_compare, path_compare, lemma_element_compare_equal, lemma_element_compare_flip,
    lemma_path_compare_equal, lemma_path_compare_flip};

verus! {

/// Three-way comparison of integers.
pub open spec fn int_compare(a: int, b: int) -> Comparison {
    if a < b {
        Comparison::Less
    } else if a > b {
        Comparison::Greater
    } else {
        Comparison::Equal
    }
}

/// `a` is not after `b`.
pub open spec fn not_after(c: Comparison) -> bool {
    c != Comparison::Greater
}

pub proof fn lemma_element_compare_less_transitive(
    a: (Seq<char>, Seq<char>),
    b: (Seq<char>, Seq<char>),
    c: (Seq<char>, Seq<char>),
)
    requires
        element_compare(a, b) == Comparison::Less,
        element_compare(b, c) == Comparison::Less,
    ensures
        element_compare(a, c) == Comparison::Less,
{
    lemma_lex_compare_equal(a.0, b.0);
    lemma_lex_compare_equal(b.0, c.0);
    lemma_lex_compare_equal(a.0, c.0);
    if lex_compare(a.0, b.0) == Comparison::Less && lex_compare(b.0, c.0) == Comparison::Less {
        lemma_lex_compare_less_transitive(a.0, b.0, c.0);
    } else if lex_compare(a.0, b.0) == Comparison::Equal && lex_compare(b.0, c.0) == Comparison::Equal {
        lemma_lex_compare_less_transitive(a.1, b.1, c.1);
    }
}

pub proof fn lemma_path_compare_less_transitive(
    a: Seq<(Seq<char>, Seq<char>)>,
    b: Seq<(Seq<char>, Seq<char>)>,
    c: Seq<(Seq<char>, Seq<char>)>,
)
    requires
        path_compare(a, b) == Comparison::Less,
        path_compare(b, c) == Comparison::Less,
    ensures
        path_compare(a, c) == Comparison::Less,
    decreases a.len(),
{
    if a.len() > 0 && b.len() > 0 && c.len() > 0 {
        lemma_element_compare_equal(a[0], b[0]);
        lemma_element_compare_equal(b[0], c[0]);
        let e1 = element_compare(a[0], b[0]);
        let e2 = element_compare(b[0], c[0]);
        if e1 == Comparison::Less && e2 == Comparison::Less {
            lemma_element_compare_less_transitive(a[0], b[0], c[0]);
        } else if e1 == Comparison::Equal && e2 == Comparison::Equal {
            lemma_path_compare_less_transitive(a.drop_first(), b.drop_first(), c.drop_first());
        }
    }
}

/// The facts that make `cmp` a strict total order over views `v`, for three values.
pub open spec fn total_order_facts<V>(cmp: spec_fn(V, V) -> Comparison, a: V, b: V, c: V) -> bool {
    &&& (cmp(a, b) == Comparison::Equal) == (a == b)
    &&& (cmp(b, c) == Comparison::Equal) == (b == c)
    &&& (cmp(a, c) == Comparison::Equal) == (a == c)
    &&& cmp(b, a) == cmp(a, b).flipped()
    &&& cmp(c, b) == cmp(b, c).flipped()
    &&& cmp(c, a) == cmp(a, c).flipped()
    &&& (cmp(a, b) == Comparison::Less && cmp(b, c) == Comparison::Less ==> cmp(a, c) == Comparison::Less)
}

/// With the facts of a strict total order, "not after" is transitive.
pub proof fn lemma_not_after_transitive<V>(cmp: spec_fn(V, V) -> Comparison, a: V, b: V, c: V)
    requires
        total_order_facts(cmp, a, b, c),
        not_after(cmp(a, b)),
        not_after(cmp(b, c)),
    ensures
        not_after(cmp(a, c)),
{
}

pub proof fn lemma_lex_total_order(a: Seq<char>, b: Seq<char>, c: Seq<char>)
    ensures
        total_order_facts(|x: Seq<char>, y: Seq<char>| lex_compare(x, y), a, b, c),
{
    lemma_lex_compare_equal(a, b);
    lemma_lex_compare_equal(b, c);
    lemma_lex_compare_equal(a, c);
    lemma_lex_compare_flip(a, b);
    lemma_lex_compare_flip(b, c);
    lemma_lex_compare_flip(a, c);
    if lex_compare(a, b) == Comparison::Less && lex_compare(b, c) == Comparison::Less {
        lemma_lex_compare_less_transitive(a, b, c);
    }
}

pub proof fn lemma_element_total_order(a: (Seq<char>, Seq<char>), b: (Seq<char>, Seq<char>), c: (Seq<char>, Seq<char>))
    ensures
        total_order_facts(|x: (Seq<char>, Seq<char>), y: (Seq<char>, Seq<char>)| element_compare(x, y), a, b, c),
{
    lemma_element_compare_equal(a, b);
    lemma_element_compare_equal(b, c);
    lemma_element_compare_equal(a, c);
    lemma_element_compare_flip(a, b);
    lemma_element_compare_flip(b, c);
    lemma_element_compare_flip(a, c);
    if element_compare(a, b) == Comparison::Less && element_compare(b, c) == Comparison::Less {
        lemma_element_compare_less_transitive(a, b, c);
    }
}

pub proof fn lemma_path_total_order(
    a: Seq<(Seq<char>, Seq<char>)>,
    b: Seq<(Seq<char>, Seq<char>)>,
    c: Seq<(Seq<char>, Seq<char>)>,
)
    ensures
        total_order_facts(|x: Seq<(Seq<char>, Seq<char>)>, y: Seq<(Seq<char>, Seq<char>)>| path_compare(x, y), a, b, c),
{
    lemma_path_compare_equal(a, b);
    lemma_path_compare_equal(b, c);
    lemma_path_compare_equal(a, c);
    lemma_path_compare_flip(a, b);
    lemma_path_compare_flip(b, c);
    lemma_path_compare_flip(a, c);
    if path_compare(a, b) == Comparison::Less && path_compare(b, c) == Comparison::Less {
        lemma_path_compare_less_transitive(a, b, c);
    }
}

} // verus!
