//! Object paths: `key=value` pairs separated by `::`, e.g.
//! `panel=1::unit=1::ref_des=R1`.
use vstd::prelude::*;
use crate::text::{
    Comparison, lex_compare, lemma_lex_compare_flip, lemma_lex_compare_equal, split_spec, join_spec,
    lemma_join_split, lemma_split_join, has_char, pieces_free_of, views_of, split_str, push_str,
    string_from_chars, join_str, str_eq, compare_str,
};
use crate::sorted_map::OrderedKey;
use crate::planning::pcb::{PcbKind, pcb_kind_named, lowercase_of};
use crate::text::{usize_of, parse_usize};
use crate::order::lemma_path_total_order;

verus! {

/// A path to an object, as an ordered list of `(key, value)` elements.
#[derive(Debug, Clone, PartialEq, Eq, PartialOrd, Ord, Hash, Default)]
pub struct ObjectPath {
    elements: Vec<(String, String)>,
}

/// The error of parsing an object path.
#[derive(Debug, Clone, PartialEq, Eq)]
pub enum ObjectPathError {
    Invalid(String),
}

/// The abstract elements of an object path.
pub open spec fn element_views(v: Seq<(String, String)>) -> Seq<(Seq<char>, Seq<char>)> {
    v.map_values(|e: (String, String)| (e.0@, e.1@))
}

impl View for ObjectPath {
    type V = Seq<(Seq<char>, Seq<char>)>;

    closed spec fn view(&self) -> Seq<(Seq<char>, Seq<char>)> {
        element_views(self.elements@)
    }
}

/// The separator between elements.
pub open spec fn path_separator() -> Seq<char> {
    seq![':', ':']
}

/// The separator between the key and the value of an element.
pub open spec fn pair_separator() -> Seq<char> {
    seq!['=']
}

/// The text of one element: `key=value`.
pub open spec fn chunk_of(e: (Seq<char>, Seq<char>)) -> Seq<char> {
    e.0 + pair_separator() + e.1
}

/// The text of a path: its elements' texts joined by `::`.
pub open spec fn format_path(p: Seq<(Seq<char>, Seq<char>)>) -> Seq<char> {
    join_spec(p.map_values(|e: (Seq<char>, Seq<char>)| chunk_of(e)), path_separator())
}

/// A chunk is an element exactly when splitting it at `=` gives two pieces.
pub open spec fn chunk_is_pair(c: Seq<char>) -> bool {
    split_spec(c, pair_separator()).len() == 2
}

pub open spec fn pair_of_chunk(c: Seq<char>) -> (Seq<char>, Seq<char>) {
    (split_spec(c, pair_separator())[0], split_spec(c, pair_separator())[1])
}

/// Parsing: split at `::`; every chunk must split at `=` into exactly two pieces.
pub open spec fn parse_path(s: Seq<char>) -> Option<Seq<(Seq<char>, Seq<char>)>> {
    let chunks = split_spec(s, path_separator());
    if forall|k: int| 0 <= k < chunks.len() ==> chunk_is_pair(#[trigger] chunks[k]) {
        Some(chunks.map_values(|c: Seq<char>| pair_of_chunk(c)))
    } else {
        None
    }
}

/// The keys that name the pcb unit of a path.
pub open spec fn is_pcb_unit_key(k: Seq<char>) -> bool {
    k == "panel"@ || k == "unit"@
}

/// The pcb unit of a path: its `panel` and `unit` elements, in order.
pub open spec fn pcb_unit_spec(p: Seq<(Seq<char>, Seq<char>)>) -> Seq<(Seq<char>, Seq<char>)> {
    p.filter(|e: (Seq<char>, Seq<char>)| is_pcb_unit_key(e.0))
}

/// A path with its `ref_des` element set: the first such element gets the value,
/// or, with none, one is appended.
pub open spec fn set_ref_des_spec(p: Seq<(Seq<char>, Seq<char>)>, ref_des: Seq<char>) -> Seq<(Seq<char>, Seq<char>)> {
    if exists|k: int| 0 <= k < p.len() && #[trigger] p[k].0 == "ref_des"@ {
        let k = choose|k: int|
            0 <= k < p.len() && #[trigger] p[k].0 == "ref_des"@ && (forall|j: int| 0 <= j < k ==> p[j].0 != "ref_des"@);
        p.update(k, ("ref_des"@, ref_des))
    } else {
        p.push(("ref_des"@, ref_des))
    }
}

/// Lexicographic order of elements: by key, then by value.
pub open spec fn element_compare(a: (Seq<char>, Seq<char>), b: (Seq<char>, Seq<char>)) -> Comparison {
    match lex_compare(a.0, b.0) {
        Comparison::Equal => lex_compare(a.1, b.1),
        c => c,
    }
}

/// Lexicographic order of paths by their elements (the derived `Ord`).
pub open spec fn path_compare(a: Seq<(Seq<char>, Seq<char>)>, b: Seq<(Seq<char>, Seq<char>)>) -> Comparison
    decreases a.len(),
{
    if a.len() == 0 {
        if b.len() == 0 {
            Comparison::Equal
        } else {
            Comparison::Less
        }
    } else if b.len() == 0 {
        Comparison::Greater
    } else {
        match element_compare(a[0], b[0]) {
            Comparison::Equal => path_compare(a.drop_first(), b.drop_first()),
            c => c,
        }
    }
}

pub proof fn lemma_element_compare_flip(a: (Seq<char>, Seq<char>), b: (Seq<char>, Seq<char>))
    ensures
        element_compare(b, a) == element_compare(a, b).flipped(),
{
    lemma_lex_compare_flip(a.0, b.0);
    lemma_lex_compare_flip(a.1, b.1);
}

pub proof fn lemma_element_compare_equal(a: (Seq<char>, Seq<char>), b: (Seq<char>, Seq<char>))
    ensures
        (element_compare(a, b) == Comparison::Equal) == (a == b),
{
    lemma_lex_compare_equal(a.0, b.0);
    lemma_lex_compare_equal(a.1, b.1);
}

/// Path order is antisymmetric.
pub proof fn lemma_path_compare_flip(a: Seq<(Seq<char>, Seq<char>)>, b: Seq<(Seq<char>, Seq<char>)>)
    ensures
        path_compare(b, a) == path_compare(a, b).flipped(),
    decreases a.len(),
{
    if a.len() > 0 && b.len() > 0 {
        lemma_element_compare_flip(a[0], b[0]);
        lemma_path_compare_flip(a.drop_first(), b.drop_first());
    }
}

/// Path order is `Equal` exactly on equal paths.
pub proof fn lemma_path_compare_equal(a: Seq<(Seq<char>, Seq<char>)>, b: Seq<(Seq<char>, Seq<char>)>)
    ensures
        (path_compare(a, b) == Comparison::Equal) == (a == b),
    decreases a.len(),
{
    if a.len() == 0 || b.len() == 0 {
        if a.len() != b.len() {
            assert(a != b);
        } else {
            assert(a =~= b);
        }
    } else {
        lemma_element_compare_equal(a[0], b[0]);
        lemma_path_compare_equal(a.drop_first(), b.drop_first());
        if a == b {
            assert(a.drop_first() =~= b.drop_first());
        }
        if a[0] == b[0] && a.drop_first() == b.drop_first() {
            assert(a =~= seq![a[0]] + a.drop_first());
            assert(b =~= seq![b[0]] + b.drop_first());
        }
    }
}

proof fn lemma_chunk_round_trip(c: Seq<char>)
    requires
        chunk_is_pair(c),
    ensures
        chunk_of(pair_of_chunk(c)) == c,
{
    let parts = split_spec(c, pair_separator());
    lemma_join_split(c, pair_separator());
    assert(parts.drop_first() =~= seq![parts[1]]);
    assert(join_spec(parts.drop_first(), pair_separator()) == parts[1]);
}

/// Formatting a parsed path gives back the text that was parsed.
pub proof fn lemma_format_parse(s: Seq<char>)
    requires
        parse_path(s) is Some,
    ensures
        format_path(parse_path(s)->0) == s,
{
    let chunks = split_spec(s, path_separator());
    let p = parse_path(s)->0;
    assert forall|k: int| 0 <= k < chunks.len() implies chunk_of(pair_of_chunk(#[trigger] chunks[k])) == chunks[k] by {
        assert(chunk_is_pair(chunks[k]));
        lemma_chunk_round_trip(chunks[k]);
    }
    assert(p.map_values(|e: (Seq<char>, Seq<char>)| chunk_of(e)) =~= chunks);
    lemma_join_split(s, path_separator());
}

/// The characters that cannot occur in the keys and values of a path that
/// formats and parses back to itself.
pub open spec fn plain_text(s: Seq<char>) -> bool {
    !has_char(s, ':') && !has_char(s, '=')
}

/// Every element's key and value is plain text.
pub open spec fn plain_path(p: Seq<(Seq<char>, Seq<char>)>) -> bool {
    forall|k: int| 0 <= k < p.len() ==> plain_text((#[trigger] p[k]).0) && plain_text(p[k].1)
}

proof fn lemma_has_char_concat(a: Seq<char>, b: Seq<char>, c: char)
    ensures
        has_char(a + b, c) == (has_char(a, c) || has_char(b, c)),
{
    if has_char(a + b, c) {
        let k = choose|k: int| 0 <= k < (a + b).len() && #[trigger] (a + b)[k] == c;
        if k < a.len() {
            assert(a[k] == c);
        } else {
            assert(b[k - a.len()] == c);
        }
    }
    if has_char(a, c) {
        let k = choose|k: int| 0 <= k < a.len() && #[trigger] a[k] == c;
        assert((a + b)[k] == c);
    }
    if has_char(b, c) {
        let k = choose|k: int| 0 <= k < b.len() && #[trigger] b[k] == c;
        assert((a + b)[k + a.len()] == c);
    }
}

/// Parsing the text of a non-empty path of plain keys and values gives back the path.
pub proof fn lemma_parse_format(p: Seq<(Seq<char>, Seq<char>)>)
    requires
        p.len() > 0,
        plain_path(p),
    ensures
        parse_path(format_path(p)) == Some(p),
{
    let chunks = p.map_values(|e: (Seq<char>, Seq<char>)| chunk_of(e));
    assert(!has_char(pair_separator(), ':'));
    assert forall|k: int| 0 <= k < chunks.len() implies !has_char(#[trigger] chunks[k], path_separator()[0]) by {
        assert(plain_text(p[k].0) && plain_text(p[k].1));
        lemma_has_char_concat(p[k].0, pair_separator(), ':');
        lemma_has_char_concat(p[k].0 + pair_separator(), p[k].1, ':');
    }
    lemma_split_join(chunks, path_separator());
    let s = format_path(p);
    assert(split_spec(s, path_separator()) == chunks);
    assert forall|k: int| 0 <= k < chunks.len() implies chunk_is_pair(#[trigger] chunks[k]) && pair_of_chunk(chunks[k]) == p[k] by {
        let pieces = seq![p[k].0, p[k].1];
        assert(plain_text(p[k].0) && plain_text(p[k].1));
        assert(pieces_free_of(pieces, pair_separator()[0])) by {
            assert forall|m: int| 0 <= m < pieces.len() implies !has_char(#[trigger] pieces[m], pair_separator()[0]) by {
                if m == 0 {
                } else {
                }
            }
        }
        assert(pieces.drop_first() =~= seq![p[k].1]);
        assert(join_spec(seq![p[k].1], pair_separator()) == p[k].1);
        assert(join_spec(pieces, pair_separator()) == p[k].0 + pair_separator() + p[k].1);
        assert(chunks[k] == chunk_of(p[k]));
        assert(join_spec(pieces, pair_separator()) == chunks[k]);
        lemma_split_join(pieces, pair_separator());
    }
    assert(chunks.map_values(|c: Seq<char>| pair_of_chunk(c)) =~= p);
}

impl ObjectPath {
    /// The empty path.
    pub fn new() -> (r: ObjectPath)
        ensures
            r@ == Seq::<(Seq<char>, Seq<char>)>::empty(),
    {
        let r = ObjectPath { elements: Vec::new() };
        assert(r@ =~= Seq::<(Seq<char>, Seq<char>)>::empty());
        r
    }

    /// Appends an element.
    pub fn push(&mut self, key: String, value: String)
        ensures
            final(self)@ == old(self)@.push((key@, value@)),
    {
        self.elements.push((key, value));
        assert(self@ =~= old(self)@.push((key@, value@)));
    }

    /// The number of elements.
    pub fn len(&self) -> (r: usize)
        ensures
            r == self@.len(),
    {
        self.elements.len()
    }

    /// A copy of the key and value of the element at `index`.
    pub fn element(&self, index: usize) -> (r: (String, String))
        requires
            index < self@.len(),
        ensures
            r.0@ == self@[index as int].0,
            r.1@ == self@[index as int].1,
    {
        let e = &self.elements[index];
        (e.0.clone(), e.1.clone())
    }

    /// A copy of this path.
    pub fn copy(&self) -> (r: ObjectPath)
        ensures
            r@ == self@,
    {
        let mut r = ObjectPath::new();
        let mut k: usize = 0;
        while k < self.elements.len()
            invariant
                k <= self@.len(),
                r@ == self@.take(k as int),
            decreases self@.len() - k,
        {
            let (key, value) = self.element(k);
            r.push(key, value);
            k = k + 1;
            assert(r@ =~= self@.take(k as int));
        }
        assert(self@.take(k as int) =~= self@);
        r
    }

    /// Parses a path (`FromStr`).
    pub fn from_str(value: &str) -> (r: Result<ObjectPath, ObjectPathError>)
        ensures
            match r {
                Ok(p) => parse_path(value@) == Some(p@),
                Err(ObjectPathError::Invalid(v)) => parse_path(value@) is None && v@ == value@,
            },
    {
        proof {
            reveal_strlit("::");
            reveal_strlit("=");
            assert("::"@ =~= path_separator());
            assert("="@ =~= pair_separator());
        }
        let chunks = split_str(value, "::");
        let ghost chunk_views = split_spec(value@, path_separator());
        let mut path = ObjectPath::new();
        let mut k: usize = 0;
        while k < chunks.len()
            invariant
                views_of(chunks@) == chunk_views,
                chunk_views == split_spec(value@, path_separator()),
                "="@ == pair_separator(),
                k <= chunks.len(),
                forall|m: int| 0 <= m < k ==> chunk_is_pair(#[trigger] chunk_views[m]),
                path@ == chunk_views.take(k as int).map_values(|c: Seq<char>| pair_of_chunk(c)),
            decreases chunks.len() - k,
        {
            let pieces = split_str(chunks[k].as_str(), "=");
            assert(chunk_views[k as int] == chunks@[k as int]@);
            if pieces.len() != 2 {
                assert(!chunk_is_pair(chunk_views[k as int]));
                return Err(ObjectPathError::Invalid(value.to_owned()));
            }
            assert(views_of(pieces@)[0] == pieces@[0]@);
            assert(views_of(pieces@)[1] == pieces@[1]@);
            path.push(pieces[0].clone(), pieces[1].clone());
            k = k + 1;
            assert(path@ =~= chunk_views.take(k as int).map_values(|c: Seq<char>| pair_of_chunk(c)));
        }
        assert(chunk_views.take(k as int) =~= chunk_views);
        Ok(path)
    }

    /// The text of this path (`Display`): `key=value` elements joined by `::`.
    pub fn to_string(&self) -> (r: String)
        ensures
            r@ == format_path(self@),
    {
        proof {
            reveal_strlit("::");
            reveal_strlit("=");
            assert("::"@ =~= path_separator());
            assert("="@ =~= pair_separator());
        }
        let ghost target = self@.map_values(|e: (Seq<char>, Seq<char>)| chunk_of(e));
        let mut chunks: Vec<String> = Vec::new();
        let mut k: usize = 0;
        while k < self.elements.len()
            invariant
                "="@ == pair_separator(),
                target == self@.map_values(|e: (Seq<char>, Seq<char>)| chunk_of(e)),
                k <= self@.len(),
                views_of(chunks@) == target.take(k as int),
            decreases self@.len() - k,
        {
            let mut out: Vec<char> = Vec::new();
            let e = &self.elements[k];
            push_str(&mut out, e.0.as_str());
            push_str(&mut out, "=");
            push_str(&mut out, e.1.as_str());
            let chunk = string_from_chars(out);
            assert(chunk@ =~= chunk_of(self@[k as int]));
            let ghost before = chunks@;
            chunks.push(chunk);
            assert(views_of(chunks@) =~= views_of(before).push(chunk@));
            assert(target.take(k + 1) =~= target.take(k as int).push(target[k as int]));
            k = k + 1;
            assert(views_of(chunks@) =~= target.take(k as int));
        }
        assert(target.take(k as int) =~= target);
        join_str(&chunks, "::")
    }

    /// The pcb unit of this path: its `panel` and `unit` elements.
    pub fn pcb_unit(&self) -> (r: ObjectPath)
        ensures
            r@ == pcb_unit_spec(self@),
    {
        let mut r = ObjectPath::new();
        let mut k: usize = 0;
        while k < self.elements.len()
            invariant
                k <= self@.len(),
                r@ == pcb_unit_spec(self@.take(k as int)),
            decreases self@.len() - k,
        {
            let e = &self.elements[k];
            let keep = str_eq(e.0.as_str(), "panel") || str_eq(e.0.as_str(), "unit");
            proof {
                reveal(Seq::filter);
                assert(self@.take(k + 1).drop_last() =~= self@.take(k as int));
                assert(self@.take(k + 1).last() == self@[k as int]);
            }
            if keep {
                r.push(e.0.clone(), e.1.clone());
            }
            k = k + 1;
        }
        assert(self@.take(k as int) =~= self@);
        r
    }

    /// Sets the `ref_des` element: the first such element gets the value; with none,
    /// one is appended.
    pub fn set_ref_des(&mut self, ref_des: String)
        ensures
            final(self)@ == set_ref_des_spec(old(self)@, ref_des@),
    {
        let mut k: usize = 0;
        while k < self.elements.len()
            invariant
                self@ == old(self)@,
                k <= self@.len(),
                forall|j: int| 0 <= j < k ==> self@[j].0 != "ref_des"@,
            decreases self@.len() - k,
        {
            if str_eq(self.elements[k].0.as_str(), "ref_des") {
                let ghost p = old(self)@;
                let key = self.elements[k].0.clone();
                self.elements.set(k, (key, ref_des));
                proof {
                    assert(p[k as int].0 == "ref_des"@);
                    let c = choose|c: int|
                        0 <= c < p.len() && #[trigger] p[c].0 == "ref_des"@ && (forall|j: int| 0 <= j < c ==> p[j].0 != "ref_des"@);
                    assert(c == k) by {
                        if c < k {
                        } else if c > k {
                        }
                    }
                    assert(self@ =~= p.update(k as int, ("ref_des"@, ref_des@)));
                }
                return;
            }
            k = k + 1;
        }
        let key = "ref_des".to_owned();
        self.push(key, ref_des);
    }

    /// Builds the path of a placement from the path of its unit and its reference designator.
    pub fn try_from_unit_path_and_refdes(unit_path: &str, ref_des: &String) -> (r: Result<ObjectPath, ObjectPathError>)
        ensures
            match r {
                Ok(p) => parse_path(unit_path@) is Some && p@ == parse_path(unit_path@)->0.push(("ref_des"@, ref_des@)),
                Err(ObjectPathError::Invalid(v)) => parse_path(unit_path@) is None && v@ == unit_path@,
            },
    {
        let mut path = ObjectPath::from_str(unit_path)?;
        path.push("ref_des".to_owned(), ref_des.clone());
        Ok(path)
    }

    /// Compares two paths lexicographically (the derived `Ord`).
    pub fn compare(&self, other: &ObjectPath) -> (r: Comparison)
        ensures
            r == path_compare(self@, other@),
    {
        let mut k: usize = 0;
        assert(self@.skip(0) =~= self@);
        assert(other@.skip(0) =~= other@);
        while k < self.elements.len() && k < other.elements.len()
            invariant
                k <= self@.len(),
                k <= other@.len(),
                path_compare(self@, other@) == path_compare(self@.skip(k as int), other@.skip(k as int)),
            decreases self@.len() - k,
        {
            let a = &self.elements[k];
            let b = &other.elements[k];
            assert(self@.skip(k as int)[0] == self@[k as int]);
            assert(other@.skip(k as int)[0] == other@[k as int]);
            let c = match compare_str(a.0.as_str(), b.0.as_str()) {
                Comparison::Equal => compare_str(a.1.as_str(), b.1.as_str()),
                c => c,
            };
            if !c.is_equal() {
                return c;
            }
            assert(self@.skip(k as int).drop_first() =~= self@.skip(k + 1));
            assert(other@.skip(k as int).drop_first() =~= other@.skip(k + 1));
            k = k + 1;
        }
        if k < other.elements.len() {
            Comparison::Less
        } else if k < self.elements.len() {
            Comparison::Greater
        } else {
            Comparison::Equal
        }
    }

    /// Whether two paths have the same elements.
    pub fn equals(&self, other: &ObjectPath) -> (r: bool)
        ensures
            r == (self@ == other@),
    {
        let c = self.compare(other);
        proof {
            lemma_path_compare_equal(self@, other@);
        }
        c.is_equal()
    }
}

/// The pcb kind and one-based index that a path names by its first element: the
/// element's key names the kind (`single` or `panel`, in any case) and its value
/// is the index.
pub open spec fn pcb_kind_and_index_spec(p: Seq<(Seq<char>, Seq<char>)>) -> Option<(PcbKind, nat)> {
    if p.len() == 0 {
        None
    } else {
        match (pcb_kind_named(lowercase_of(p[0].0)), usize_of(p[0].1)) {
            (Some(kind), Some(index)) => Some((kind, index)),
            _ => None,
        }
    }
}

impl ObjectPath {
    /// The pcb kind and one-based index that the path names by its first element.
    pub fn pcb_kind_and_index(&self) -> (r: Option<(PcbKind, usize)>)
        ensures
            match pcb_kind_and_index_spec(self@) {
                Some((kind, index)) => r == Some((kind, index as usize)),
                None => r is None,
            },
    {
        if self.elements.len() == 0 {
            return None;
        }
        let (key, value) = &self.elements[0];
        match PcbKind::try_from(key) {
            Ok(kind) => match parse_usize(value.as_str()) {
                Some(index) => Some((kind, index)),
                None => None,
            },
            Err(_) => None,
        }
    }
}

impl OrderedKey for ObjectPath {
    type KeyView = Seq<(Seq<char>, Seq<char>)>;

    open spec fn key_view(&self) -> Seq<(Seq<char>, Seq<char>)> {
        self@
    }

    open spec fn key_order(a: Seq<(Seq<char>, Seq<char>)>, b: Seq<(Seq<char>, Seq<char>)>) -> Comparison {
        path_compare(a, b)
    }

    proof fn lemma_key_order(a: Seq<(Seq<char>, Seq<char>)>, b: Seq<(Seq<char>, Seq<char>)>, c: Seq<(Seq<char>, Seq<char>)>) {
        lemma_path_total_order(a, b, c);
    }

    fn compare_key(&self, other: &ObjectPath) -> (r: Comparison) {
        self.compare(other)
    }
}

} // verus!
