//! Character-level text utilities: conversion between strings and character
//! vectors, lexicographic comparison, splitting and joining.
use vstd::prelude::*;

verus! {

/// The outcome of a three-way comparison.
#[derive(Debug, Clone, Copy, PartialEq, Eq)]
pub enum Comparison {
    Less,
    Equal,
    Greater,
}

impl Comparison {
    /// The comparison with its direction reversed.
    pub open spec fn flipped(self) -> Comparison {
        match self {
            Comparison::Less => Comparison::Greater,
            Comparison::Equal => Comparison::Equal,
            Comparison::Greater => Comparison::Less,
        }
    }

    pub fn reverse(self) -> (r: Comparison)
        ensures
            r == self.flipped(),
    {
        match self {
            Comparison::Less => Comparison::Greater,
            Comparison::Equal => Comparison::Equal,
            Comparison::Greater => Comparison::Less,
        }
    }

    pub fn is_equal(self) -> (r: bool)
        ensures
            r == (self == Comparison::Equal),
    {
        match self {
            Comparison::Equal => true,
            _ => false,
        }
    }
}

/// Lexicographic comparison of character sequences by code point, which is the
/// order of `String`'s `Ord` (UTF-8 byte order agrees with code point order).
pub open spec fn lex_compare(a: Seq<char>, b: Seq<char>) -> Comparison
    decreases a.len(),
{
    if a.len() == 0 {
        if b.len() == 0 {
            Comparison::Equal
        } else {
            Comparison::Less
        }
    } else if b.len() == 0 {
        Comparison::Greater
    } else if (a[0] as int) < (b[0] as int) {
        Comparison::Less
    } else if (a[0] as int) > (b[0] as int) {
        Comparison::Greater
    } else {
        lex_compare(a.drop_first(), b.drop_first())
    }
}

/// Lexicographic comparison is antisymmetric.
pub proof fn lemma_lex_compare_flip(a: Seq<char>, b: Seq<char>)
    ensures
        lex_compare(b, a) == lex_compare(a, b).flipped(),
    decreases a.len(),
{
    if a.len() > 0 && b.len() > 0 && a[0] == b[0] {
        lemma_lex_compare_flip(a.drop_first(), b.drop_first());
    }
}

/// Lexicographic comparison is `Equal` exactly on equal sequences.
pub proof fn lemma_lex_compare_equal(a: Seq<char>, b: Seq<char>)
    ensures
        (lex_compare(a, b) == Comparison::Equal) == (a == b),
    decreases a.len(),
{
    if a.len() == 0 || b.len() == 0 {
        if a.len() != b.len() {
            assert(a != b);
        } else {
            assert(a =~= b);
        }
    } else if a[0] == b[0] {
        lemma_lex_compare_equal(a.drop_first(), b.drop_first());
        if a.drop_first() == b.drop_first() {
            assert(a =~= seq![a[0]] + a.drop_first());
            assert(b =~= seq![b[0]] + b.drop_first());
        }
        if a == b {
            assert(a.drop_first() =~= b.drop_first());
        }
    } else {
        assert((a[0] as int) != (b[0] as int));
        assert(a != b);
    }
}

/// `Less` is transitive.
pub proof fn lemma_lex_compare_less_transitive(a: Seq<char>, b: Seq<char>, c: Seq<char>)
    requires
        lex_compare(a, b) == Comparison::Less,
        lex_compare(b, c) == Comparison::Less,
    ensures
        lex_compare(a, c) == Comparison::Less,
    decreases a.len(),
{
    if a.len() > 0 && b.len() > 0 && c.len() > 0 && a[0] == b[0] && b[0] == c[0] {
        lemma_lex_compare_less_transitive(a.drop_first(), b.drop_first(), c.drop_first());
    }
}

/// Collects the characters of a string slice into a vector.
pub fn chars_of(s: &str) -> (r: Vec<char>)
    ensures
        r@ == s@,
{
    let mut r: Vec<char> = Vec::new();
    for c in it: s.chars()
        invariant
            r@ == it.seq().take(it.index() as int),
    {
        r.push(c);
    }
    r
}

/// Builds a string from a vector of characters (`String::from_iter`).
///
/// Trusted: claims that the characters of the resulting string are the given
/// characters, in order, as the standard library documents.
#[verifier::external_body]
pub(crate) fn string_from_chars(chars: Vec<char>) -> (r: String)
    ensures
        r@ == chars@,
{
    String::from_iter(chars)
}

/// Compares two character vectors lexicographically.
pub fn compare_chars(a: &Vec<char>, b: &Vec<char>) -> (r: Comparison)
    ensures
        r == lex_compare(a@, b@),
{
    let mut i: usize = 0;
    assert(a@.skip(0) =~= a@);
    assert(b@.skip(0) =~= b@);
    while i < a.len() && i < b.len()
        invariant
            i <= a.len(),
            i <= b.len(),
            lex_compare(a@, b@) == lex_compare(a@.skip(i as int), b@.skip(i as int)),
        decreases a.len() - i,
    {
        let x = a[i];
        let y = b[i];
        assert(a@.skip(i as int)[0] == x);
        assert(b@.skip(i as int)[0] == y);
        if x < y {
            return Comparison::Less;
        } else if x > y {
            return Comparison::Greater;
        }
        assert(a@.skip(i as int).drop_first() =~= a@.skip(i + 1));
        assert(b@.skip(i as int).drop_first() =~= b@.skip(i + 1));
        i = i + 1;
    }
    if i < b.len() {
        Comparison::Less
    } else if i < a.len() {
        Comparison::Greater
    } else {
        Comparison::Equal
    }
}

/// Compares two strings lexicographically, as `Ord` for `String` does.
pub fn compare_str(a: &str, b: &str) -> (r: Comparison)
    ensures
        r == lex_compare(a@, b@),
{
    let va = chars_of(a);
    let vb = chars_of(b);
    compare_chars(&va, &vb)
}

/// Whether the text begins with the prefix.
pub open spec fn has_prefix(s: Seq<char>, prefix: Seq<char>) -> bool {
    prefix.len() <= s.len() && s.take(prefix.len() as int) == prefix
}

/// Whether the text begins with the prefix (`str::starts_with`).
pub fn starts_with(s: &str, prefix: &str) -> (r: bool)
    ensures
        r == has_prefix(s@, prefix@),
{
    let a = chars_of(s);
    let b = chars_of(prefix);
    if b.len() > a.len() {
        return false;
    }
    let mut k: usize = 0;
    while k < b.len()
        invariant
            b@.len() <= a@.len(),
            k <= b@.len(),
            a@ == s@,
            b@ == prefix@,
            forall|j: int| 0 <= j < k ==> a@[j] == b@[j],
        decreases b@.len() - k,
    {
        if a[k] != b[k] {
            assert(s@.take(prefix@.len() as int)[k as int] != prefix@[k as int]);
            return false;
        }
        k = k + 1;
    }
    assert(s@.take(prefix@.len() as int) =~= prefix@);
    true
}

/// Whether two strings hold the same characters.
pub fn str_eq(a: &str, b: &str) -> (r: bool)
    ensures
        r == (a@ == b@),
{
    let c = compare_str(a, b);
    proof {
        lemma_lex_compare_equal(a@, b@);
    }
    c.is_equal()
}

/// The views of a sequence of strings.
pub open spec fn views_of(v: Seq<String>) -> Seq<Seq<char>> {
    v.map_values(|x: String| x@)
}

/// Whether `sep` occurs in `s` starting at position `i`.
pub open spec fn occurs_at(s: Seq<char>, sep: Seq<char>, i: int) -> bool {
    0 <= i && i + sep.len() <= s.len() && s.subrange(i, i + sep.len()) == sep
}

/// Splitting scans `s` left to right from position `i`; `cur` is the piece being
/// built and `done` the pieces already cut. Each occurrence of `sep` closes the
/// current piece and is skipped whole, so occurrences never overlap.
pub open spec fn split_from(
    s: Seq<char>,
    sep: Seq<char>,
    i: int,
    cur: Seq<char>,
    done: Seq<Seq<char>>,
) -> Seq<Seq<char>>
    decreases s.len() - i,
{
    if sep.len() == 0 || i < 0 || i >= s.len() {
        done.push(cur)
    } else if occurs_at(s, sep, i) {
        split_from(s, sep, i + sep.len(), seq![], done.push(cur))
    } else {
        split_from(s, sep, i + 1, cur.push(s[i]), done)
    }
}

/// The pieces of `s` between the non-overlapping, leftmost-first occurrences of
/// `sep` (the semantics of `str::split` with a non-empty string pattern).
pub open spec fn split_spec(s: Seq<char>, sep: Seq<char>) -> Seq<Seq<char>> {
    split_from(s, sep, 0, seq![], seq![])
}

/// Whether `sep` occurs anywhere in `s`.
pub open spec fn occurs_in(s: Seq<char>, sep: Seq<char>) -> bool {
    exists|k: int| #[trigger] occurs_at(s, sep, k)
}

/// A scan from `i` cuts at least one more piece, exactly one where `sep` does not
/// occur from `i` on, and that piece is then the rest of the text.
proof fn lemma_split_from_pieces(s: Seq<char>, sep: Seq<char>, i: int, cur: Seq<char>, done: Seq<Seq<char>>)
    requires
        sep.len() > 0,
        0 <= i <= s.len(),
    ensures
        split_from(s, sep, i, cur, done).len() >= done.len() + 1,
        (split_from(s, sep, i, cur, done).len() == done.len() + 1)
            == !(exists|k: int| i <= k && #[trigger] occurs_at(s, sep, k)),
        !(exists|k: int| i <= k && #[trigger] occurs_at(s, sep, k))
            ==> split_from(s, sep, i, cur, done) == done.push(cur + s.skip(i)),
    decreases s.len() - i,
{
    if i >= s.len() {
        assert(cur + s.skip(i) =~= cur);
        assert(!(exists|k: int| i <= k && #[trigger] occurs_at(s, sep, k)));
    } else if occurs_at(s, sep, i) {
        lemma_split_from_pieces(s, sep, i + sep.len(), seq![], done.push(cur));
    } else {
        lemma_split_from_pieces(s, sep, i + 1, cur.push(s[i]), done);
        assert(cur.push(s[i]) + s.skip(i + 1) =~= cur + s.skip(i));
        assert((exists|k: int| i <= k && #[trigger] occurs_at(s, sep, k))
            == (exists|k: int| i + 1 <= k && #[trigger] occurs_at(s, sep, k))) by {
            if exists|k: int| i <= k && #[trigger] occurs_at(s, sep, k) {
                let k = choose|k: int| i <= k && #[trigger] occurs_at(s, sep, k);
                assert(k != i);
            }
        }
    }
}

/// A split gives more than one piece exactly where the separator occurs.
pub proof fn lemma_split_pieces(s: Seq<char>, sep: Seq<char>)
    requires
        sep.len() > 0,
    ensures
        (split_spec(s, sep).len() > 1) == occurs_in(s, sep),
        !occurs_in(s, sep) ==> split_spec(s, sep) == seq![s],
{
    lemma_split_from_pieces(s, sep, 0, seq![], seq![]);
    assert(occurs_in(s, sep) == (exists|k: int| 0 <= k && #[trigger] occurs_at(s, sep, k)));
    assert(seq![] + s.skip(0) =~= s);
    assert(Seq::<Seq<char>>::empty().push(s) =~= seq![s]);
}

/// Splitting a text that starts with the separator, and holds it nowhere else,
/// gives an empty piece and then the rest of the text.
pub proof fn lemma_split_after_leading_sep(sep: Seq<char>, rest: Seq<char>)
    requires
        sep.len() > 0,
        !occurs_in(rest, sep),
    ensures
        split_spec(sep + rest, sep) == seq![seq![], rest],
{
    let s = sep + rest;
    let n = sep.len() as int;
    assert(s.subrange(0, n) =~= sep);
    assert(occurs_at(s, sep, 0));
    assert(!(exists|k: int| n <= k && #[trigger] occurs_at(s, sep, k))) by {
        if exists|k: int| n <= k && #[trigger] occurs_at(s, sep, k) {
            let k = choose|k: int| n <= k && #[trigger] occurs_at(s, sep, k);
            assert(s.subrange(k, k + n) =~= rest.subrange(k - n, k - n + n));
            assert(occurs_at(rest, sep, k - n));
        }
    }
    lemma_split_from_pieces(s, sep, n, seq![], seq![seq![]]);
    assert(s.skip(n) =~= rest);
    assert(seq![] + rest =~= rest);
    assert(seq![seq![]].push(rest) =~= seq![seq![], rest]);
}

/// The pieces joined with `sep` between consecutive pieces (`[T]::join`).
pub open spec fn join_spec(parts: Seq<Seq<char>>, sep: Seq<char>) -> Seq<char>
    decreases parts.len(),
{
    if parts.len() == 0 {
        seq![]
    } else if parts.len() == 1 {
        parts[0]
    } else {
        parts[0] + sep + join_spec(parts.drop_first(), sep)
    }
}

/// The pieces joined, followed by a separator when there are any pieces.
pub open spec fn join_then_sep(parts: Seq<Seq<char>>, sep: Seq<char>) -> Seq<char> {
    if parts.len() == 0 {
        seq![]
    } else {
        join_spec(parts, sep) + sep
    }
}

pub proof fn lemma_join_push(parts: Seq<Seq<char>>, sep: Seq<char>, x: Seq<char>)
    ensures
        join_spec(parts.push(x), sep) == join_then_sep(parts, sep) + x,
    decreases parts.len(),
{
    if parts.len() == 0 {
        assert(parts.push(x) =~= seq![x]);
        assert(join_spec(seq![x], sep) == x);
        assert(seq![] + x =~= x);
    } else if parts.len() == 1 {
        assert(parts.push(x).drop_first() =~= seq![x]);
        assert(join_spec(seq![x], sep) == x);
        assert(join_spec(parts, sep) == parts[0]);
        assert(join_spec(parts.push(x), sep) == parts[0] + sep + x);
    } else {
        lemma_join_push(parts.drop_first(), sep, x);
        assert(parts.push(x).drop_first() =~= parts.drop_first().push(x));
        assert(parts.push(x)[0] == parts[0]);
        assert(join_spec(parts.push(x), sep) == parts[0] + sep + join_spec(parts.drop_first().push(x), sep));
        assert(join_then_sep(parts.drop_first(), sep) == join_spec(parts.drop_first(), sep) + sep);
        assert(join_spec(parts, sep) == parts[0] + sep + join_spec(parts.drop_first(), sep));
        assert(parts[0] + sep + (join_spec(parts.drop_first(), sep) + sep + x)
            =~= (parts[0] + sep + join_spec(parts.drop_first(), sep)) + sep + x);
    }
}

proof fn lemma_join_split_from(s: Seq<char>, sep: Seq<char>, i: int, cur: Seq<char>, done: Seq<Seq<char>>)
    requires
        sep.len() > 0,
        0 <= i <= s.len(),
    ensures
        join_spec(split_from(s, sep, i, cur, done), sep) == join_then_sep(done, sep) + cur + s.skip(i),
    decreases s.len() - i,
{
    if i >= s.len() {
        lemma_join_push(done, sep, cur);
        assert(s.skip(i) =~= seq![]);
        assert(join_then_sep(done, sep) + cur + s.skip(i) =~= join_then_sep(done, sep) + cur);
    } else if occurs_at(s, sep, i) {
        lemma_join_split_from(s, sep, i + sep.len(), seq![], done.push(cur));
        lemma_join_push(done, sep, cur);
        assert(s.skip(i) =~= sep + s.skip(i + sep.len()));
        assert(join_then_sep(done.push(cur), sep) =~= join_then_sep(done, sep) + cur + sep);
        assert(join_then_sep(done.push(cur), sep) + seq![] + s.skip(i + sep.len())
            =~= join_then_sep(done, sep) + cur + s.skip(i));
    } else {
        lemma_join_split_from(s, sep, i + 1, cur.push(s[i]), done);
        assert(s.skip(i) =~= seq![s[i]] + s.skip(i + 1));
        assert(join_then_sep(done, sep) + cur.push(s[i]) + s.skip(i + 1)
            =~= join_then_sep(done, sep) + cur + s.skip(i));
    }
}

/// Joining the pieces of a split with the same separator gives back the text.
pub proof fn lemma_join_split(s: Seq<char>, sep: Seq<char>)
    requires
        sep.len() > 0,
    ensures
        join_spec(split_spec(s, sep), sep) == s,
{
    lemma_join_split_from(s, sep, 0, seq![], seq![]);
    assert(join_then_sep(seq![], sep) + seq![] + s.skip(0) =~= s);
}

/// Whether the sequence holds the character `c`.
pub open spec fn has_char(s: Seq<char>, c: char) -> bool {
    exists|k: int| 0 <= k < s.len() && s[k] == c
}

/// No piece holds the character `c`.
pub open spec fn pieces_free_of(parts: Seq<Seq<char>>, c: char) -> bool {
    forall|k: int| 0 <= k < parts.len() ==> !has_char(#[trigger] parts[k], c)
}

proof fn lemma_split_from_plain(
    s: Seq<char>,
    sep: Seq<char>,
    i: int,
    j: int,
    cur: Seq<char>,
    done: Seq<Seq<char>>,
)
    requires
        sep.len() > 0,
        0 <= i <= j <= s.len(),
        !has_char(s.subrange(i, j), sep[0]),
    ensures
        split_from(s, sep, i, cur, done) == split_from(s, sep, j, cur + s.subrange(i, j), done),
    decreases j - i,
{
    if i == j {
        assert(cur + s.subrange(i, j) =~= cur);
    } else {
        assert(s.subrange(i, j)[0] == s[i]);
        assert(!occurs_at(s, sep, i)) by {
            if occurs_at(s, sep, i) {
                assert(s.subrange(i, i + sep.len())[0] == s[i]);
            }
        }
        assert(!has_char(s.subrange(i + 1, j), sep[0])) by {
            if has_char(s.subrange(i + 1, j), sep[0]) {
                let k = choose|k: int| 0 <= k < s.subrange(i + 1, j).len() && #[trigger] s.subrange(i + 1, j)[k] == sep[0];
                assert(s.subrange(i, j)[k + 1] == sep[0]);
            }
        }
        lemma_split_from_plain(s, sep, i + 1, j, cur.push(s[i]), done);
        assert(cur.push(s[i]) + s.subrange(i + 1, j) =~= cur + s.subrange(i, j));
    }
}

proof fn lemma_split_from_join(
    s: Seq<char>,
    sep: Seq<char>,
    i: int,
    parts: Seq<Seq<char>>,
    cur: Seq<char>,
    done: Seq<Seq<char>>,
)
    requires
        sep.len() > 0,
        parts.len() > 0,
        pieces_free_of(parts, sep[0]),
        0 <= i <= s.len(),
        s.skip(i) == join_spec(parts, sep),
    ensures
        split_from(s, sep, i, cur, done) == done.push(cur + parts[0]) + parts.drop_first(),
    decreases parts.len(),
{
    let p0 = parts[0];
    let j = i + p0.len();
    if parts.len() == 1 {
        assert(s.skip(i) == p0);
        assert(s.subrange(i, j) =~= p0);
        lemma_split_from_plain(s, sep, i, j, cur, done);
        assert(done.push(cur + parts[0]) + parts.drop_first() =~= done.push(cur + p0));
    } else {
        let rest = parts.drop_first();
        assert(s.skip(i) == p0 + sep + join_spec(rest, sep));
        assert(s.subrange(i, j) =~= p0) by {
            assert(s.skip(i).subrange(0, p0.len() as int) =~= p0);
        }
        assert(!has_char(s.subrange(i, j), sep[0])) by {
            assert(!has_char(parts[0], sep[0]));
        }
        lemma_split_from_plain(s, sep, i, j, cur, done);
        assert(j < s.len());
        assert(s.subrange(j, j + sep.len()) =~= sep) by {
            assert(s.skip(i).subrange(p0.len() as int, (p0.len() + sep.len()) as int) =~= sep);
        }
        assert(occurs_at(s, sep, j));
        assert(s.skip(j + sep.len()) =~= join_spec(rest, sep)) by {
            assert(s.skip(i).skip((p0.len() + sep.len()) as int) =~= join_spec(rest, sep));
        }
        assert(pieces_free_of(rest, sep[0])) by {
            assert forall|k: int| 0 <= k < rest.len() implies !has_char(#[trigger] rest[k], sep[0]) by {
                assert(rest[k] == parts[k + 1]);
            }
        }
        lemma_split_from_join(s, sep, j + sep.len(), rest, seq![], done.push(cur + p0));
        assert(done.push(cur + p0).push(seq![] + rest[0]) + rest.drop_first()
            =~= done.push(cur + parts[0]) + parts.drop_first());
    }
}

/// Splitting a join gives back the pieces, when no piece holds the separator's
/// first character.
pub proof fn lemma_split_join(parts: Seq<Seq<char>>, sep: Seq<char>)
    requires
        sep.len() > 0,
        parts.len() > 0,
        pieces_free_of(parts, sep[0]),
    ensures
        split_spec(join_spec(parts, sep), sep) == parts,
{
    let s = join_spec(parts, sep);
    assert(s.skip(0) =~= s);
    lemma_split_from_join(s, sep, 0, parts, seq![], seq![]);
    assert(seq![].push(seq![] + parts[0]) + parts.drop_first() =~= parts);
}

/// Whether `sep` occurs in `s` at position `i`.
fn occurs_at_exec(s: &Vec<char>, sep: &Vec<char>, i: usize) -> (r: bool)
    ensures
        r == occurs_at(s@, sep@, i as int),
{
    if i > s.len() || sep.len() > s.len() - i {
        return false;
    }
    let mut k: usize = 0;
    while k < sep.len()
        invariant
            i + sep.len() <= s.len(),
            k <= sep.len(),
            forall|m: int| 0 <= m < k ==> s@[i + m] == sep@[m],
        decreases sep.len() - k,
    {
        if s[i + k] != sep[k] {
            assert(s@.subrange(i as int, i + sep.len())[k as int] != sep@[k as int]);
            return false;
        }
        k = k + 1;
    }
    assert(s@.subrange(i as int, i + sep.len()) =~= sep@);
    true
}

/// Splits a text at the occurrences of a non-empty separator (`str::split`).
pub fn split_str(s: &str, sep: &str) -> (r: Vec<String>)
    requires
        sep@.len() > 0,
    ensures
        views_of(r@) == split_spec(s@, sep@),
{
    let sc = chars_of(s);
    let pc = chars_of(sep);
    let mut done: Vec<String> = Vec::new();
    let mut cur: Vec<char> = Vec::new();
    let mut i: usize = 0;
    assert(cur@ =~= Seq::<char>::empty());
    assert(views_of(done@) =~= Seq::<Seq<char>>::empty());
    while i < sc.len()
        invariant
            sc@ == s@,
            pc@ == sep@,
            pc@.len() > 0,
            i <= sc.len(),
            split_from(sc@, pc@, i as int, cur@, views_of(done@)) == split_spec(s@, sep@),
        decreases sc.len() - i,
    {
        if occurs_at_exec(&sc, &pc, i) {
            let piece = string_from_chars(cur);
            proof {
                assert(views_of(done@.push(piece)) =~= views_of(done@).push(piece@));
            }
            done.push(piece);
            cur = Vec::new();
            assert(cur@ =~= seq![]);
            i = i + pc.len();
        } else {
            let c = sc[i];
            cur.push(c);
            i = i + 1;
        }
    }
    let piece = string_from_chars(cur);
    proof {
        assert(views_of(done@.push(piece)) =~= views_of(done@).push(piece@));
    }
    done.push(piece);
    done
}

/// Appends the characters of `s` to `out`.
pub fn push_str(out: &mut Vec<char>, s: &str)
    ensures
        final(out)@ == old(out)@ + s@,
{
    let sc = chars_of(s);
    let mut k: usize = 0;
    while k < sc.len()
        invariant
            sc@ == s@,
            k <= sc.len(),
            out@ == old(out)@ + sc@.take(k as int),
        decreases sc.len() - k,
    {
        out.push(sc[k]);
        k = k + 1;
        assert(out@ =~= old(out)@ + sc@.take(k as int));
    }
    assert(sc@.take(k as int) =~= sc@);
}

/// Joins strings with a separator between consecutive pieces (`[T]::join`).
pub fn join_str(parts: &Vec<String>, sep: &str) -> (r: String)
    ensures
        r@ == join_spec(views_of(parts@), sep@),
{
    let mut out: Vec<char> = Vec::new();
    let mut k: usize = 0;
    while k < parts.len()
        invariant
            k <= parts.len(),
            k == 0 ==> out@ == Seq::<char>::empty(),
            k > 0 ==> out@ == join_spec(views_of(parts@.take(k as int)), sep@),
        decreases parts.len() - k,
    {
        proof {
            lemma_join_push(views_of(parts@.take(k as int)), sep@, parts@[k as int]@);
            assert(views_of(parts@.take(k + 1)) =~= views_of(parts@.take(k as int)).push(parts@[k as int]@));
        }
        if k > 0 {
            push_str(&mut out, sep);
        }
        push_str(&mut out, parts[k].as_str());
        k = k + 1;
    }
    if k == 0 {
        assert(views_of(parts@).len() == 0);
    } else {
        assert(parts@.take(k as int) =~= parts@);
    }
    string_from_chars(out)
}

/// Whether every character is an ASCII digit.
pub open spec fn all_digits(s: Seq<char>) -> bool {
    forall|i: int| 0 <= i < s.len() ==> '0' <= #[trigger] s[i] <= '9'
}

/// The number that a string of ASCII digits denotes in base ten.
pub open spec fn digits_value(s: Seq<char>) -> nat
    decreases s.len(),
{
    if s.len() == 0 {
        0
    } else {
        10 * digits_value(s.drop_last()) + ((s.last() as int - '0' as int) as nat)
    }
}

/// The unsigned number a text denotes, as `usize::from_str` reads it: an optional
/// `+` and at least one ASCII digit, of a value that fits in a `usize`.
pub open spec fn usize_of(s: Seq<char>) -> Option<nat> {
    let digits = if s.len() > 0 && s[0] == '+' { s.drop_first() } else { s };
    if digits.len() > 0 && all_digits(digits) && digits_value(digits) <= usize::MAX {
        Some(digits_value(digits))
    } else {
        None
    }
}

proof fn lemma_digits_value_monotone(s: Seq<char>, k: int)
    requires
        all_digits(s),
        0 <= k <= s.len(),
    ensures
        digits_value(s.take(k)) <= digits_value(s),
    decreases s.len() - k,
{
    if k < s.len() {
        let t = s.take(k + 1);
        assert(t.drop_last() =~= s.take(k));
        lemma_digits_value_monotone(s, k + 1);
    } else {
        assert(s.take(k) =~= s);
    }
}

/// Reads an unsigned number (`usize::from_str`): `None` for anything that is not
/// an optional `+` and ASCII digits, or that does not fit.
pub fn parse_usize(s: &str) -> (r: Option<usize>)
    ensures
        match usize_of(s@) {
            Some(v) => r == Some(v as usize),
            None => r is None,
        },
{
    let chars = chars_of(s);
    let start: usize = if chars.len() > 0 && chars[0] == '+' { 1 } else { 0 };
    let ghost digits = if s@.len() > 0 && s@[0] == '+' { s@.drop_first() } else { s@ };
    proof {
        assert(digits =~= chars@.skip(start as int));
    }
    if start >= chars.len() {
        return None;
    }
    let mut value: usize = 0;
    let mut k: usize = start;
    while k < chars.len()
        invariant
            start <= k <= chars@.len(),
            chars@ == s@,
            digits == chars@.skip(start as int),
            digits == (if s@.len() > 0 && s@[0] == '+' { s@.drop_first() } else { s@ }),
            all_digits(digits.take(k - start)),
            value == digits_value(digits.take(k - start)),
        decreases chars@.len() - k,
    {
        let c = chars[k];
        let ghost j = k - start;
        proof {
            assert(digits[j] == c);
            assert(digits.take(j + 1).drop_last() =~= digits.take(j));
        }
        if c < '0' || c > '9' {
            proof {
                assert(!all_digits(digits));
            }
            return None;
        }
        let d: usize = (c as u32 - '0' as u32) as usize;
        if value > (usize::MAX - d) / 10 {
            proof {
                assert(digits_value(digits.take(j + 1)) == 10 * value + d);
                assert(10 * value + d > usize::MAX) by (nonlinear_arith)
                    requires value > (usize::MAX - d) / 10, d <= 9;
                if all_digits(digits) {
                    lemma_digits_value_monotone(digits, j + 1);
                }
            }
            return None;
        }
        proof {
            assert(10 * value + d <= usize::MAX) by (nonlinear_arith)
                requires value <= (usize::MAX - d) / 10, d <= 9;
        }
        value = value * 10 + d;
        k = k + 1;
    }
    proof {
        assert(digits.take(k - start) =~= digits);
    }
    Some(value)
}

} // verus!
