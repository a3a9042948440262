//! Ordered maps kept as vectors of entries sorted by strictly increasing keys;
//! iteration goes in key order, as for a `BTreeMap`.
use vstd::prelude::*;
use crate::text::Comparison;
use crate::order::total_order_facts;

verus! {

/// Keys with a strict total order over their views.
pub trait OrderedKey: Sized {
    type KeyView;

    spec fn key_view(&self) -> Self::KeyView;

    spec fn key_order(a: Self::KeyView, b: Self::KeyView) -> Comparison;

    proof fn lemma_key_order(a: Self::KeyView, b: Self::KeyView, c: Self::KeyView)
        ensures
            total_order_facts(|x: Self::KeyView, y: Self::KeyView| Self::key_order(x, y), a, b, c),
    ;

    fn compare_key(&self, other: &Self) -> (r: Comparison)
        ensures
            r == Self::key_order(self.key_view(), other.key_view()),
    ;
}

/// Entries whose keys strictly increase.
pub open spec fn keys_increasing<K: OrderedKey, V>(s: Seq<(K, V)>) -> bool {
    forall|i: int, j: int|
        0 <= i < j < s.len() ==> #[trigger] K::key_order(s[i].0.key_view(), s[j].0.key_view()) == Comparison::Less
}

/// Whether some entry has the key.
pub open spec fn has_key<K: OrderedKey, V>(s: Seq<(K, V)>, k: K::KeyView) -> bool {
    exists|i: int| 0 <= i < s.len() && #[trigger] s[i].0.key_view() == k
}

/// The position of an entry holding the key, where there is one.
pub open spec fn index_of_key<K: OrderedKey, V>(s: Seq<(K, V)>, k: K::KeyView) -> int {
    choose|i: int| 0 <= i < s.len() && #[trigger] s[i].0.key_view() == k
}

/// The value stored under a key, if any.
pub open spec fn lookup<K: OrderedKey, V>(s: Seq<(K, V)>, k: K::KeyView) -> Option<V> {
    if has_key(s, k) {
        Some(s[index_of_key(s, k)].1)
    } else {
        None
    }
}

/// The entries as a map from key views to values.
pub open spec fn map_of<K: OrderedKey, V>(s: Seq<(K, V)>) -> Map<K::KeyView, V> {
    Map::new(|k: K::KeyView| has_key(s, k), |k: K::KeyView| lookup(s, k).unwrap())
}

/// Entries with strictly increasing keys have distinct key views.
pub proof fn lemma_keys_distinct<K: OrderedKey, V>(s: Seq<(K, V)>, i: int, j: int)
    requires
        keys_increasing(s),
        0 <= i < s.len(),
        0 <= j < s.len(),
        i != j,
    ensures
        s[i].0.key_view() != s[j].0.key_view(),
{
    let a = s[i].0.key_view();
    K::lemma_key_order(a, a, a);
    if i < j {
        assert(K::key_order(s[i].0.key_view(), s[j].0.key_view()) == Comparison::Less);
    } else {
        assert(K::key_order(s[j].0.key_view(), s[i].0.key_view()) == Comparison::Less);
    }
}

/// The map holds each entry's value under the entry's key.
pub proof fn lemma_map_at<K: OrderedKey, V>(s: Seq<(K, V)>, i: int)
    requires
        keys_increasing(s),
        0 <= i < s.len(),
    ensures
        map_of(s).contains_key(s[i].0.key_view()),
        map_of(s)[s[i].0.key_view()] == s[i].1,
{
    let k = s[i].0.key_view();
    assert(has_key(s, k));
    let j = index_of_key(s, k);
    if j != i {
        lemma_keys_distinct(s, i, j);
    }
}

/// Replacing an entry by one with the same key changes the map only there.
pub proof fn lemma_map_update<K: OrderedKey, V>(s: Seq<(K, V)>, i: int, e: (K, V))
    requires
        keys_increasing(s),
        0 <= i < s.len(),
        s[i].0.key_view() == e.0.key_view(),
    ensures
        keys_increasing(s.update(i, e)),
        map_of(s.update(i, e)) == map_of(s).insert(e.0.key_view(), e.1),
{
    let t = s.update(i, e);
    let v = e.1;
    assert forall|a: int, b: int| 0 <= a < b < t.len() implies #[trigger] K::key_order(t[a].0.key_view(), t[b].0.key_view()) == Comparison::Less by {
        assert(t[a].0.key_view() == s[a].0.key_view() && t[b].0.key_view() == s[b].0.key_view());
    }
    lemma_update_keys(s, i, e);
    assert forall|x: K::KeyView| #[trigger] map_of(t).contains_key(x) implies map_of(t)[x] == map_of(s).insert(s[i].0.key_view(), v)[x] by {
        let j = choose|j: int| 0 <= j < t.len() && #[trigger] t[j].0.key_view() == x;
        lemma_map_at(t, j);
        if j != i {
            lemma_map_at(s, j);
            lemma_keys_distinct(s, i, j);
        }
    }
    assert(map_of(t) =~= map_of(s).insert(s[i].0.key_view(), v));
}

proof fn lemma_update_keys<K: OrderedKey, V>(s: Seq<(K, V)>, i: int, e: (K, V))
    requires
        0 <= i < s.len(),
        s[i].0.key_view() == e.0.key_view(),
    ensures
        forall|x: K::KeyView| #[trigger] has_key(s.update(i, e), x) == has_key(s, x),
{
    assert forall|x: K::KeyView| #[trigger] has_key(s.update(i, e), x) == has_key(s, x) by {
        if has_key(s, x) {
            let j = choose|j: int| 0 <= j < s.len() && #[trigger] s[j].0.key_view() == x;
            assert(s.update(i, e)[j].0.key_view() == x);
        }
        if has_key(s.update(i, e), x) {
            let j = choose|j: int| 0 <= j < s.len() && #[trigger] s.update(i, e)[j].0.key_view() == x;
            assert(s[j].0.key_view() == x);
        }
    }
}

proof fn lemma_insert_keys<K: OrderedKey, V>(s: Seq<(K, V)>, p: int, e: (K, V))
    requires
        0 <= p <= s.len(),
    ensures
        forall|x: K::KeyView| #[trigger] has_key(s.insert(p, e), x) == (has_key(s, x) || x == e.0.key_view()),
{
    let t = s.insert(p, e);
    assert forall|x: K::KeyView| #[trigger] has_key(t, x) == (has_key(s, x) || x == e.0.key_view()) by {
        if has_key(s, x) {
            let j = choose|j: int| 0 <= j < s.len() && #[trigger] s[j].0.key_view() == x;
            if j < p {
                assert(t[j].0.key_view() == x);
            } else {
                assert(t[j + 1].0.key_view() == x);
            }
        }
        if x == e.0.key_view() {
            assert(t[p].0.key_view() == x);
        }
        if has_key(t, x) {
            let j = choose|j: int| 0 <= j < t.len() && #[trigger] t[j].0.key_view() == x;
            if j < p {
                assert(s[j].0.key_view() == x);
            } else if j > p {
                assert(s[j - 1].0.key_view() == x);
            }
        }
    }
}

/// Inserting an entry with a new key, in order, adds it to the map.
pub proof fn lemma_map_insert<K: OrderedKey, V>(s: Seq<(K, V)>, p: int, e: (K, V))
    requires
        keys_increasing(s),
        keys_increasing(s.insert(p, e)),
        0 <= p <= s.len(),
    ensures
        map_of(s.insert(p, e)) == map_of(s).insert(e.0.key_view(), e.1),
{
    let t = s.insert(p, e);
    lemma_insert_keys(s, p, e);
    assert forall|x: K::KeyView| #[trigger] map_of(t).contains_key(x) implies map_of(t)[x] == map_of(s).insert(e.0.key_view(), e.1)[x] by {
        let j = choose|j: int| 0 <= j < t.len() && #[trigger] t[j].0.key_view() == x;
        lemma_map_at(t, j);
        if j < p {
            lemma_map_at(s, j);
            lemma_keys_distinct(t, j, p);
        } else if j > p {
            lemma_map_at(s, j - 1);
            lemma_keys_distinct(t, j, p);
        }
    }
    assert(map_of(t) =~= map_of(s).insert(e.0.key_view(), e.1));
}

/// Removing an entry removes its key from the map.
pub proof fn lemma_map_remove<K: OrderedKey, V>(s: Seq<(K, V)>, i: int)
    requires
        keys_increasing(s),
        0 <= i < s.len(),
    ensures
        keys_increasing(s.remove(i)),
        map_of(s.remove(i)) == map_of(s).remove(s[i].0.key_view()),
{
    let t = s.remove(i);
    assert forall|a: int, b: int| 0 <= a < b < t.len() implies #[trigger] K::key_order(t[a].0.key_view(), t[b].0.key_view()) == Comparison::Less by {
        let a0 = if a < i { a } else { a + 1 };
        let b0 = if b < i { b } else { b + 1 };
        assert(t[a] == s[a0] && t[b] == s[b0]);
        assert(K::key_order(s[a0].0.key_view(), s[b0].0.key_view()) == Comparison::Less);
    }
    assert forall|x: K::KeyView| #[trigger] map_of(t).contains_key(x) == map_of(s).remove(s[i].0.key_view()).contains_key(x) by {
        if has_key(t, x) {
            let j = choose|j: int| 0 <= j < t.len() && #[trigger] t[j].0.key_view() == x;
            let j0 = if j < i { j } else { j + 1 };
            assert(t[j] == s[j0]);
            lemma_keys_distinct(s, i, j0);
        }
        if has_key(s, x) && x != s[i].0.key_view() {
            let j = choose|j: int| 0 <= j < s.len() && #[trigger] s[j].0.key_view() == x;
            if j < i {
                assert(t[j] == s[j]);
            } else {
                assert(t[j - 1] == s[j]);
            }
        }
    }
    assert forall|x: K::KeyView| #[trigger] map_of(t).contains_key(x) implies map_of(t)[x] == map_of(s)[x] by {
        let j = choose|j: int| 0 <= j < t.len() && #[trigger] t[j].0.key_view() == x;
        let j0 = if j < i { j } else { j + 1 };
        assert(t[j] == s[j0]);
        lemma_map_at(t, j);
        lemma_map_at(s, j0);
    }
    assert(map_of(t) =~= map_of(s).remove(s[i].0.key_view()));
}

/// An ordered map.
#[derive(Debug, Clone, PartialEq, Eq)]
pub struct SortedMap<K, V> {
    entries: Vec<(K, V)>,
}

impl<K: OrderedKey, V> SortedMap<K, V> {
    /// The entries, in key order.
    pub closed spec fn seq(&self) -> Seq<(K, V)> {
        self.entries@
    }

    pub open spec fn wf(&self) -> bool {
        keys_increasing(self.seq())
    }

    /// The entries as a map from key views to values.
    pub open spec fn map(&self) -> Map<K::KeyView, V> {
        map_of(self.seq())
    }

    pub fn new() -> (r: SortedMap<K, V>)
        ensures
            r.wf(),
            r.seq() == Seq::<(K, V)>::empty(),
            r.map() == Map::<K::KeyView, V>::empty(),
    {
        let r = SortedMap { entries: Vec::new() };
        assert(r.map() =~= Map::<K::KeyView, V>::empty());
        r
    }

    pub fn len(&self) -> (r: usize)
        ensures
            r == self.seq().len(),
    {
        self.entries.len()
    }

    pub fn is_empty(&self) -> (r: bool)
        ensures
            r == (self.seq().len() == 0),
    {
        self.entries.len() == 0
    }

    /// The entry at position `i`.
    pub fn entry(&self, i: usize) -> (r: &(K, V))
        requires
            i < self.seq().len(),
        ensures
            *r == self.seq()[i as int],
    {
        &self.entries[i]
    }

    /// Finds a key: `Ok(i)` for the entry holding it, or `Err(p)` for the position
    /// where it would go.
    pub fn find(&self, k: &K) -> (r: Result<usize, usize>)
        requires
            self.wf(),
        ensures
            match r {
                Ok(i) => i < self.seq().len() && self.seq()[i as int].0.key_view() == k.key_view(),
                Err(p) => p <= self.seq().len() && !has_key(self.seq(), k.key_view()) && (forall|q: int|
                    0 <= q < p ==> #[trigger] K::key_order(self.seq()[q].0.key_view(), k.key_view()) == Comparison::Less)
                    && (forall|q: int|
                    p <= q < self.seq().len() ==> #[trigger] K::key_order(k.key_view(), self.seq()[q].0.key_view())
                        == Comparison::Less),
            },
    {
        let mut p: usize = 0;
        while p < self.entries.len()
            invariant
                self.wf(),
                p <= self.seq().len(),
                forall|q: int| 0 <= q < p ==> #[trigger] K::key_order(self.seq()[q].0.key_view(), k.key_view()) == Comparison::Less,
            decreases self.seq().len() - p,
        {
            let c = self.entries[p].0.compare_key(k);
            proof {
                K::lemma_key_order(self.seq()[p as int].0.key_view(), k.key_view(), k.key_view());
            }
            match c {
                Comparison::Equal => {
                    return Ok(p);
                },
                Comparison::Greater => {
                    proof {
                        assert forall|q: int| p <= q < self.seq().len() implies #[trigger] K::key_order(k.key_view(), self.seq()[q].0.key_view()) == Comparison::Less by {
                            if q > p {
                                assert(K::key_order(self.seq()[p as int].0.key_view(), self.seq()[q].0.key_view()) == Comparison::Less);
                                K::lemma_key_order(k.key_view(), self.seq()[p as int].0.key_view(), self.seq()[q].0.key_view());
                            }
                        }
                        assert forall|q: int| 0 <= q < self.seq().len() implies #[trigger] self.seq()[q].0.key_view() != k.key_view() by {
                            K::lemma_key_order(k.key_view(), self.seq()[q].0.key_view(), self.seq()[q].0.key_view());
                            K::lemma_key_order(self.seq()[q].0.key_view(), k.key_view(), k.key_view());
                        }
                    }
                    return Err(p);
                },
                Comparison::Less => {},
            }
            p = p + 1;
        }
        proof {
            assert forall|q: int| 0 <= q < self.seq().len() implies #[trigger] self.seq()[q].0.key_view() != k.key_view() by {
                K::lemma_key_order(self.seq()[q].0.key_view(), k.key_view(), k.key_view());
            }
        }
        Err(p)
    }

    /// The value stored under a key, if any.
    pub fn get(&self, k: &K) -> (r: Option<&V>)
        requires
            self.wf(),
        ensures
            match r {
                Some(v) => self.map().contains_key(k.key_view()) && *v == self.map()[k.key_view()],
                None => !self.map().contains_key(k.key_view()),
            },
    {
        match self.find(k) {
            Ok(i) => {
                proof {
                    lemma_map_at(self.seq(), i as int);
                }
                Some(&self.entries[i].1)
            },
            Err(_) => None,
        }
    }

    /// Whether a key is stored.
    pub fn contains_key(&self, k: &K) -> (r: bool)
        requires
            self.wf(),
        ensures
            r == self.map().contains_key(k.key_view()),
    {
        match self.find(k) {
            Ok(i) => {
                proof {
                    lemma_map_at(self.seq(), i as int);
                }
                true
            },
            Err(_) => false,
        }
    }

    /// Replaces the value of the entry at position `i`; returns the value it held.
    pub fn set_value_at(&mut self, i: usize, v: V) -> (r: V)
        requires
            old(self).wf(),
            i < old(self).seq().len(),
        ensures
            final(self).wf(),
            r == old(self).seq()[i as int].1,
            final(self).seq().len() == old(self).seq().len(),
            final(self).seq()[i as int].0 == old(self).seq()[i as int].0,
            final(self).seq() == old(self).seq().update(i as int, (old(self).seq()[i as int].0, v)),
            final(self).map() == old(self).map().insert(old(self).seq()[i as int].0.key_view(), v),
    {
        let ghost s = self.seq();
        let (k, old_v) = self.entries.remove(i);
        self.entries.insert(i, (k, v));
        proof {
            assert(self.seq() =~= s.update(i as int, (s[i as int].0, v)));
            lemma_map_update(s, i as int, (s[i as int].0, v));
        }
        old_v
    }

    /// Replaces the entry at position `i` by one with the same key; returns the
    /// entry it replaced.
    pub fn replace_entry_at(&mut self, i: usize, e: (K, V)) -> (r: (K, V))
        requires
            old(self).wf(),
            i < old(self).seq().len(),
            e.0.key_view() == old(self).seq()[i as int].0.key_view(),
        ensures
            final(self).wf(),
            r == old(self).seq()[i as int],
            final(self).seq() == old(self).seq().update(i as int, e),
            final(self).map() == old(self).map().insert(e.0.key_view(), e.1),
    {
        let ghost s = self.seq();
        proof {
            lemma_map_update(s, i as int, e);
        }
        let r = self.entries.remove(i);
        self.entries.insert(i, e);
        assert(self.seq() =~= s.update(i as int, e));
        r
    }

    /// Removes the entry of a key, if any; returns its value.
    pub fn remove(&mut self, k: &K) -> (r: Option<V>)
        requires
            old(self).wf(),
        ensures
            final(self).wf(),
            final(self).map() == old(self).map().remove(k.key_view()),
            r == old(self).map().get(k.key_view()),
    {
        match self.find(k) {
            Ok(i) => {
                let ghost s = self.seq();
                proof {
                    lemma_map_at(s, i as int);
                    lemma_map_remove(s, i as int);
                }
                let (_k, v) = self.remove_at(i);
                Some(v)
            },
            Err(_) => {
                proof {
                    assert(self.map().remove(k.key_view()) =~= self.map());
                }
                None
            },
        }
    }

    /// Removes the entry at position `i`.
    pub fn remove_at(&mut self, i: usize) -> (r: (K, V))
        requires
            old(self).wf(),
            i < old(self).seq().len(),
        ensures
            final(self).wf(),
            r == old(self).seq()[i as int],
            final(self).seq() == old(self).seq().remove(i as int),
            final(self).map() == old(self).map().remove(old(self).seq()[i as int].0.key_view()),
    {
        proof {
            lemma_map_remove(self.seq(), i as int);
        }
        let r = self.entries.remove(i);
        proof {
            let s = old(self).seq();
            assert forall|a: int, b: int| 0 <= a < b < self.seq().len() implies #[trigger] K::key_order(self.seq()[a].0.key_view(), self.seq()[b].0.key_view()) == Comparison::Less by {
                let a0 = if a < i { a } else { a + 1 };
                let b0 = if b < i { b } else { b + 1 };
                assert(self.seq()[a] == s[a0]);
                assert(self.seq()[b] == s[b0]);
                assert(K::key_order(s[a0].0.key_view(), s[b0].0.key_view()) == Comparison::Less);
            }
        }
        r
    }

    /// Inserts an entry at position `p`, between smaller and greater keys.
    pub fn insert_at(&mut self, p: usize, k: K, v: V)
        requires
            old(self).wf(),
            p <= old(self).seq().len(),
            forall|q: int| 0 <= q < p ==> #[trigger] K::key_order(old(self).seq()[q].0.key_view(), k.key_view()) == Comparison::Less,
            forall|q: int|
                p <= q < old(self).seq().len() ==> #[trigger] K::key_order(k.key_view(), old(self).seq()[q].0.key_view())
                    == Comparison::Less,
        ensures
            final(self).wf(),
            final(self).seq() == old(self).seq().insert(p as int, (k, v)),
    {
        let ghost kv = k.key_view();
        self.entries.insert(p, (k, v));
        proof {
            let s = old(self).seq();
            assert forall|a: int, b: int| 0 <= a < b < self.seq().len() implies #[trigger] K::key_order(self.seq()[a].0.key_view(), self.seq()[b].0.key_view()) == Comparison::Less by {
                if b < p {
                    assert(self.seq()[a] == s[a] && self.seq()[b] == s[b]);
                } else if b == p {
                    assert(self.seq()[a] == s[a]);
                } else if a == p {
                    assert(self.seq()[b] == s[b - 1]);
                } else if a < p {
                    assert(self.seq()[a] == s[a] && self.seq()[b] == s[b - 1]);
                    K::lemma_key_order(s[a].0.key_view(), kv, s[b - 1].0.key_view());
                } else {
                    assert(self.seq()[a] == s[a - 1] && self.seq()[b] == s[b - 1]);
                }
            }
        }
    }

    /// Inserts or replaces the entry of a key; returns the position of the entry
    /// and the value it replaced, if any.
    pub fn insert(&mut self, k: K, v: V) -> (r: (usize, Option<V>))
        requires
            old(self).wf(),
        ensures
            final(self).wf(),
            final(self).map() == old(self).map().insert(k.key_view(), v),
            r.0 < final(self).seq().len(),
            final(self).seq()[r.0 as int] == (k, v),
            forall|x: K::KeyView| #[trigger] has_key(final(self).seq(), x) == (has_key(old(self).seq(), x) || x == k.key_view()),
            forall|i: int| 0 <= i < final(self).seq().len() && i != r.0 ==> old(self).seq().contains(#[trigger] final(self).seq()[i]),
            match r.1 {
                Some(old_v) => {
                    &&& r.0 < old(self).seq().len()
                    &&& old(self).seq()[r.0 as int].0.key_view() == k.key_view()
                    &&& old_v == old(self).seq()[r.0 as int].1
                    &&& final(self).seq() == old(self).seq().update(r.0 as int, (k, v))
                },
                None => {
                    &&& !has_key(old(self).seq(), k.key_view())
                    &&& final(self).seq() == old(self).seq().insert(r.0 as int, (k, v))
                },
            },
    {
        match self.find(&k) {
            Ok(i) => {
                let ghost s = self.seq();
                let (_old_k, old_v) = self.remove_at(i);
                proof {
                    assert forall|q: int| 0 <= q < i implies #[trigger] K::key_order(self.seq()[q].0.key_view(), k.key_view()) == Comparison::Less by {
                        assert(self.seq()[q] == s[q]);
                        assert(K::key_order(s[q].0.key_view(), s[i as int].0.key_view()) == Comparison::Less);
                    }
                    assert forall|q: int| i <= q < self.seq().len() implies #[trigger] K::key_order(k.key_view(), self.seq()[q].0.key_view()) == Comparison::Less by {
                        assert(self.seq()[q] == s[q + 1]);
                        assert(K::key_order(s[i as int].0.key_view(), s[q + 1].0.key_view()) == Comparison::Less);
                    }
                }
                let ghost kv = k.key_view();
                self.insert_at(i, k, v);
                proof {
                    assert(self.seq() =~= s.update(i as int, (k, v)));
                    lemma_update_keys(s, i as int, (k, v));
                    assert forall|j: int| 0 <= j < self.seq().len() && j != i implies s.contains(#[trigger] self.seq()[j]) by {
                        assert(self.seq()[j] == s[j]);
                    }
                    lemma_map_update(s, i as int, self.seq()[i as int]);
                }
                (i, Some(old_v))
            },
            Err(p) => {
                let ghost s = self.seq();
                let ghost e = (k, v);
                self.insert_at(p, k, v);
                proof {
                    lemma_insert_keys(s, p as int, e);
                    assert forall|j: int| 0 <= j < self.seq().len() && j != p implies s.contains(#[trigger] self.seq()[j]) by {
                        if j < p {
                            assert(self.seq()[j] == s[j]);
                        } else {
                            assert(self.seq()[j] == s[j - 1]);
                        }
                    }
                    lemma_map_insert(s, p as int, e);
                }
                (p, None)
            },
        }
    }
}

} // verus!
