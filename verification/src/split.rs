//! Splitting, joining and matching on character sequences, following the
//! behaviour of the corresponding `str` methods.
use vstd::prelude::*;
use crate::text::{append_all, is_ascii_digit, is_digit, is_whitespace, is_ws, slice_of};

verus! {

/// The views of a sequence of character vectors.
pub open spec fn vs(r: Seq<Vec<char>>) -> Seq<Seq<char>> {
    r.map_values(|w: Vec<char>| w@)
}

pub proof fn lemma_vs_push(r: Seq<Vec<char>>, w: Vec<char>)
    ensures
        vs(r.push(w)) == vs(r).push(w@),
{
    assert(vs(r.push(w)) =~= vs(r).push(w@));
}

/// The character `'\n'`.
pub open spec fn is_nl(c: char) -> bool {
    c == '\n'
}

/// Membership in a set of characters.
pub open spec fn one_of(set: Seq<char>) -> spec_fn(char) -> bool {
    |c: char| set.contains(c)
}

/// The whitespace predicate as a value.
pub open spec fn ws_pred() -> spec_fn(char) -> bool {
    |c: char| is_ws(c)
}

/// A class of separator characters.
pub enum CharClass {
    Whitespace,
    Newline,
    NonDigit,
    AnyOf(Vec<char>),
}

impl CharClass {
    pub open spec fn pred(&self) -> spec_fn(char) -> bool {
        match self {
            CharClass::Whitespace => ws_pred(),
            CharClass::Newline => |c: char| is_nl(c),
            CharClass::NonDigit => |c: char| !is_digit(c),
            CharClass::AnyOf(v) => one_of(v@),
        }
    }

    pub fn test(&self, c: char) -> (b: bool)
        ensures
            b == (self.pred())(c),
    {
        match self {
            CharClass::Whitespace => is_whitespace(c),
            CharClass::Newline => c == '\n',
            CharClass::NonDigit => !is_ascii_digit(c),
            CharClass::AnyOf(v) => {
                let mut i: usize = 0;
                assert(self.pred() == one_of(v@));
                while i < v.len()
                    invariant
                        i <= v.len(),
                        forall|j: int| 0 <= j < i ==> v@[j] != c,
                        self.pred() == one_of(v@),
                    decreases v.len() - i,
                {
                    if v[i] == c {
                        assert(v@[i as int] == c);
                        assert(v@.contains(c));
                        assert(self.pred() == one_of(v@));
                        assert((one_of(v@))(c));
                        return true;
                    }
                    i = i + 1;
                }
                assert(!v@.contains(c));
                assert(self.pred() == one_of(v@));
                false
            },
        }
    }
}

/// The class of one character.
pub fn class_of1(a: char) -> (r: CharClass)
    ensures
        r.pred() == one_of(seq![a]),
{
    let mut v: Vec<char> = Vec::new();
    v.push(a);
    assert(v@ =~= seq![a]);
    CharClass::AnyOf(v)
}

/// The class of two characters.
pub fn class_of2(a: char, b: char) -> (r: CharClass)
    ensures
        r.pred() == one_of(seq![a, b]),
{
    let mut v: Vec<char> = Vec::new();
    v.push(a);
    v.push(b);
    assert(v@ =~= seq![a, b]);
    CharClass::AnyOf(v)
}

/// The class of three characters.
pub fn class_of3(a: char, b: char, c: char) -> (r: CharClass)
    ensures
        r.pred() == one_of(seq![a, b, c]),
{
    let mut v: Vec<char> = Vec::new();
    v.push(a);
    v.push(b);
    v.push(c);
    assert(v@ =~= seq![a, b, c]);
    CharClass::AnyOf(v)
}

// ───────────────────────── str::split ─────────────────────────

/// `str::split` with a character predicate: the pieces between separators,
/// empty pieces included; always at least one piece.
pub open spec fn split_with(s: Seq<char>, p: spec_fn(char) -> bool) -> Seq<Seq<char>>
    decreases s.len(),
{
    if s.len() == 0 {
        seq![Seq::<char>::empty()]
    } else {
        let prev = split_with(s.drop_last(), p);
        if p(s.last()) {
            prev.push(Seq::<char>::empty())
        } else {
            prev.update(prev.len() - 1, prev.last().push(s.last()))
        }
    }
}

pub proof fn lemma_split_with_nonempty(s: Seq<char>, p: spec_fn(char) -> bool)
    ensures
        split_with(s, p).len() >= 1,
    decreases s.len(),
{
    if s.len() > 0 {
        lemma_split_with_nonempty(s.drop_last(), p);
    }
}

pub proof fn lemma_take_last<T>(s: Seq<T>, i: int)
    requires
        0 <= i < s.len(),
    ensures
        s.take(i + 1).drop_last() == s.take(i),
        s.take(i + 1).last() == s[i],
        s.take(i + 1).len() == i + 1,
{
    assert(s.take(i + 1).drop_last() =~= s.take(i));
}

pub fn split_by(v: &[char], cls: &CharClass) -> (r: Vec<Vec<char>>)
    ensures
        vs(r@) == split_with(v@, cls.pred()),
        r@.len() >= 1,
{
    let mut done: Vec<Vec<char>> = Vec::new();
    let mut cur: Vec<char> = Vec::new();
    let mut i: usize = 0;
    while i < v.len()
        invariant
            i <= v.len(),
            vs(done@).push(cur@) == split_with(v@.take(i as int), cls.pred()),
        decreases v.len() - i,
    {
        proof {
            lemma_take_last(v@, i as int);
            lemma_split_with_nonempty(v@.take(i as int), cls.pred());
        }
        let c = v[i];
        if cls.test(c) {
            proof {
                lemma_vs_push(done@, cur);
            }
            done.push(cur);
            cur = Vec::new();
            assert(vs(done@).push(cur@) =~= split_with(v@.take(i + 1), cls.pred()));
        } else {
            cur.push(c);
            assert(vs(done@).push(cur@) =~= split_with(v@.take(i + 1), cls.pred()));
        }
        i = i + 1;
    }
    assert(v@.take(i as int) =~= v@);
    proof {
        lemma_vs_push(done@, cur);
    }
    done.push(cur);
    done
}

// ───────────────────────── str::split_inclusive ─────────────────────────

/// Closed pieces and open tail after scanning `s` as `str::split_inclusive` does.
pub open spec fn split_incl_scan(s: Seq<char>, p: spec_fn(char) -> bool) -> (
    Seq<Seq<char>>,
    Seq<char>,
)
    decreases s.len(),
{
    if s.len() == 0 {
        (Seq::empty(), Seq::empty())
    } else {
        let (done, cur) = split_incl_scan(s.drop_last(), p);
        let cur2 = cur.push(s.last());
        if p(s.last()) {
            (done.push(cur2), Seq::empty())
        } else {
            (done, cur2)
        }
    }
}

/// `str::split_inclusive`: each piece ends with its separator, except possibly
/// the last; no empty trailing piece.
pub open spec fn split_incl(s: Seq<char>, p: spec_fn(char) -> bool) -> Seq<Seq<char>> {
    let (done, cur) = split_incl_scan(s, p);
    if cur.len() > 0 {
        done.push(cur)
    } else {
        done
    }
}

pub fn split_inclusive_by(v: &[char], cls: &CharClass) -> (r: Vec<Vec<char>>)
    ensures
        vs(r@) == split_incl(v@, cls.pred()),
{
    let mut done: Vec<Vec<char>> = Vec::new();
    let mut cur: Vec<char> = Vec::new();
    let mut i: usize = 0;
    while i < v.len()
        invariant
            i <= v.len(),
            (vs(done@), cur@) == split_incl_scan(v@.take(i as int), cls.pred()),
        decreases v.len() - i,
    {
        proof {
            lemma_take_last(v@, i as int);
        }
        let c = v[i];
        cur.push(c);
        if cls.test(c) {
            proof {
                lemma_vs_push(done@, cur);
            }
            done.push(cur);
            cur = Vec::new();
        }
        assert((vs(done@), cur@) == split_incl_scan(v@.take(i + 1), cls.pred()));
        i = i + 1;
    }
    assert(v@.take(i as int) =~= v@);
    if cur.len() > 0 {
        proof {
            lemma_vs_push(done@, cur);
        }
        done.push(cur);
    }
    done
}

// ───────────────────────── str::lines ─────────────────────────

/// A line without its terminator: a final `'\n'` and then a final `'\r'` are removed.
pub open spec fn strip_eol(l: Seq<char>) -> Seq<char> {
    if l.len() > 0 && l.last() == '\n' {
        let m = l.drop_last();
        if m.len() > 0 && m.last() == '\r' {
            m.drop_last()
        } else {
            m
        }
    } else {
        l
    }
}

/// `str::lines`.
pub open spec fn lines(s: Seq<char>) -> Seq<Seq<char>> {
    split_incl(s, |c: char| is_nl(c)).map_values(|l: Seq<char>| strip_eol(l))
}

pub fn lines_of(v: &[char]) -> (r: Vec<Vec<char>>)
    ensures
        vs(r@) == lines(v@),
{
    let pieces = split_inclusive_by(v, &CharClass::Newline);
    let mut out: Vec<Vec<char>> = Vec::new();
    let mut i: usize = 0;
    while i < pieces.len()
        invariant
            i <= pieces.len(),
            vs(pieces@) == split_incl(v@, |c: char| is_nl(c)),
            vs(out@) == vs(pieces@).take(i as int).map_values(|l: Seq<char>| strip_eol(l)),
        decreases pieces.len() - i,
    {
        let p = &pieces[i];
        let n = p.len();
        let mut e = n;
        if e > 0 && p[e - 1] == '\n' {
            e = e - 1;
            if e > 0 && p[e - 1] == '\r' {
                e = e - 1;
            }
        }
        let l = slice_of(p, 0, e);
        proof {
            assert(vs(pieces@)[i as int] == p@);
            if n > 0 && p@[n - 1] == '\n' {
                assert(p@.drop_last() =~= p@.subrange(0, n - 1));
                if n - 1 > 0 && p@[n - 2] == '\r' {
                    assert(p@.drop_last().drop_last() =~= p@.subrange(0, n - 2));
                }
            } else {
                assert(p@.subrange(0, n as int) =~= p@);
            }
            assert(l@ == strip_eol(p@));
            lemma_vs_push(out@, l);
            assert(vs(pieces@).take(i + 1).map_values(|l: Seq<char>| strip_eol(l)) =~= vs(
                pieces@,
            ).take(i as int).map_values(|l: Seq<char>| strip_eol(l)).push(strip_eol(p@)));
        }
        out.push(l);
        i = i + 1;
    }
    assert(vs(pieces@).take(i as int) =~= vs(pieces@));
    out
}

// ───────────────────────── str::split_whitespace ─────────────────────────

/// Finished words and the word in progress after scanning `s`.
pub open spec fn words_scan(s: Seq<char>) -> (Seq<Seq<char>>, Seq<char>)
    decreases s.len(),
{
    if s.len() == 0 {
        (Seq::empty(), Seq::empty())
    } else {
        let (done, cur) = words_scan(s.drop_last());
        if is_ws(s.last()) {
            if cur.len() > 0 {
                (done.push(cur), Seq::empty())
            } else {
                (done, cur)
            }
        } else {
            (done, cur.push(s.last()))
        }
    }
}

/// `str::split_whitespace`: maximal runs of non-whitespace characters.
pub open spec fn words(s: Seq<char>) -> Seq<Seq<char>> {
    let (done, cur) = words_scan(s);
    if cur.len() > 0 {
        done.push(cur)
    } else {
        done
    }
}

pub fn words_of(v: &[char]) -> (r: Vec<Vec<char>>)
    ensures
        vs(r@) == words(v@),
{
    let mut done: Vec<Vec<char>> = Vec::new();
    let mut cur: Vec<char> = Vec::new();
    let mut i: usize = 0;
    while i < v.len()
        invariant
            i <= v.len(),
            (vs(done@), cur@) == words_scan(v@.take(i as int)),
        decreases v.len() - i,
    {
        proof {
            lemma_take_last(v@, i as int);
        }
        let c = v[i];
        if is_whitespace(c) {
            if cur.len() > 0 {
                proof {
                    lemma_vs_push(done@, cur);
                }
                done.push(cur);
                cur = Vec::new();
            }
        } else {
            cur.push(c);
        }
        assert((vs(done@), cur@) == words_scan(v@.take(i + 1)));
        i = i + 1;
    }
    assert(v@.take(i as int) =~= v@);
    if cur.len() > 0 {
        proof {
            lemma_vs_push(done@, cur);
        }
        done.push(cur);
    }
    done
}

// ───────────────────────── joining ─────────────────────────

/// `[T]::join` on strings: the parts with `sep` between consecutive parts.
pub open spec fn join(parts: Seq<Seq<char>>, sep: Seq<char>) -> Seq<char>
    decreases parts.len(),
{
    if parts.len() == 0 {
        Seq::empty()
    } else if parts.len() == 1 {
        parts[0]
    } else {
        join(parts.drop_last(), sep) + sep + parts.last()
    }
}

pub fn join_with(parts: &Vec<Vec<char>>, sep: &[char]) -> (r: Vec<char>)
    ensures
        r@ == join(vs(parts@), sep@),
{
    let mut r: Vec<char> = Vec::new();
    let mut i: usize = 0;
    while i < parts.len()
        invariant
            i <= parts.len(),
            r@ == join(vs(parts@).take(i as int), sep@),
        decreases parts.len() - i,
    {
        proof {
            lemma_take_last(vs(parts@), i as int);
        }
        if i > 0 {
            append_all(&mut r, sep);
        }
        append_all(&mut r, &parts[i]);
        proof {
            if i == 0 {
                assert(r@ =~= vs(parts@).take(1)[0]);
            }
        }
        i = i + 1;
    }
    assert(vs(parts@).take(i as int) =~= vs(parts@));
    r
}

// ───────────────────────── prefixes and substrings ─────────────────────────

/// `str::starts_with` with a string pattern.
pub open spec fn has_prefix(s: Seq<char>, p: Seq<char>) -> bool {
    p.len() <= s.len() && s.take(p.len() as int) == p
}

/// `str::ends_with` with a string pattern.
pub open spec fn has_suffix(s: Seq<char>, p: Seq<char>) -> bool {
    p.len() <= s.len() && s.skip(s.len() - p.len()) == p
}

pub fn starts_with(v: &[char], p: &[char]) -> (b: bool)
    ensures
        b == has_prefix(v@, p@),
{
    if p.len() > v.len() {
        return false;
    }
    let mut i: usize = 0;
    while i < p.len()
        invariant
            i <= p.len() <= v.len(),
            forall|j: int| 0 <= j < i ==> v@[j] == p@[j],
        decreases p.len() - i,
    {
        if v[i] != p[i] {
            assert(v@.take(p.len() as int)[i as int] != p@[i as int]);
            return false;
        }
        i = i + 1;
    }
    assert(v@.take(p.len() as int) =~= p@);
    true
}

pub fn ends_with(v: &[char], p: &[char]) -> (b: bool)
    ensures
        b == has_suffix(v@, p@),
{
    if p.len() > v.len() {
        return false;
    }
    let off = v.len() - p.len();
    let mut i: usize = 0;
    while i < p.len()
        invariant
            i <= p.len() <= v.len(),
            off == v.len() - p.len(),
            forall|j: int| 0 <= j < i ==> v@[off + j] == p@[j],
        decreases p.len() - i,
    {
        if v[off + i] != p[i] {
            assert(v@.skip(off as int)[i as int] != p@[i as int]);
            return false;
        }
        i = i + 1;
    }
    assert(v@.skip(off as int) =~= p@);
    true
}

/// `p` occurs in `s` starting at position `i`.
pub open spec fn occurs_at(s: Seq<char>, p: Seq<char>, i: int) -> bool {
    0 <= i && i + p.len() <= s.len() && s.subrange(i, i + p.len()) == p
}

/// `str::contains` with a string pattern.
pub open spec fn contains_seq(s: Seq<char>, p: Seq<char>) -> bool {
    exists|i: int| occurs_at(s, p, i)
}

pub fn occurs_at_exec(v: &[char], p: &[char], i: usize) -> (b: bool)
    ensures
        b == occurs_at(v@, p@, i as int),
{
    if i > v.len() || p.len() > v.len() - i {
        return false;
    }
    let mut j: usize = 0;
    while j < p.len()
        invariant
            j <= p.len(),
            i + p.len() <= v.len(),
            forall|k: int| 0 <= k < j ==> v@[i + k] == p@[k],
        decreases p.len() - j,
    {
        if v[i + j] != p[j] {
            assert(v@.subrange(i as int, i + p.len())[j as int] != p@[j as int]);
            return false;
        }
        j = j + 1;
    }
    assert(v@.subrange(i as int, i + p.len()) =~= p@);
    true
}

pub fn contains(v: &[char], p: &[char]) -> (b: bool)
    ensures
        b == contains_seq(v@, p@),
{
    let mut i: usize = 0;
    while i < v.len()
        invariant
            i <= v.len(),
            forall|k: int| 0 <= k < i ==> !occurs_at(v@, p@, k),
        decreases v.len() - i,
    {
        if occurs_at_exec(v, p, i) {
            return true;
        }
        i = i + 1;
    }
    if occurs_at_exec(v, p, i) {
        return true;
    }
    assert forall|k: int| !occurs_at(v@, p@, k) by {
        if 0 <= k <= i {
        } else if k > i {
            assert(k + p@.len() > v@.len());
        }
    }
    false
}

/// Last position where `p` occurs in `s` at or before `hi`, or -1.
pub open spec fn last_occurrence(s: Seq<char>, p: Seq<char>, hi: int) -> int
    decreases hi + 1,
{
    if hi < 0 {
        -1
    } else if occurs_at(s, p, hi) {
        hi
    } else {
        last_occurrence(s, p, hi - 1)
    }
}

/// `str::rfind` with a string pattern (as a character position).
pub open spec fn rfind(s: Seq<char>, p: Seq<char>) -> int {
    last_occurrence(s, p, s.len() as int)
}

pub fn rfind_exec(v: &[char], p: &[char]) -> (r: Option<usize>)
    ensures
        match r {
            Some(i) => i as int == rfind(v@, p@) && i >= 0,
            None => rfind(v@, p@) == -1,
        },
{
    let mut i: usize = v.len();
    loop
        invariant
            i <= v.len(),
            rfind(v@, p@) == last_occurrence(v@, p@, i as int),
        decreases i,
    {
        if occurs_at_exec(v, p, i) {
            return Some(i);
        }
        if i == 0 {
            assert(last_occurrence(v@, p@, -1) == -1);
            return None;
        }
        i = i - 1;
    }
}

/// `str::trim_start_matches` with a non-empty string pattern.
pub open spec fn strip_all_prefix(s: Seq<char>, p: Seq<char>) -> Seq<char>
    decreases s.len(),
{
    if p.len() > 0 && has_prefix(s, p) {
        strip_all_prefix(s.skip(p.len() as int), p)
    } else {
        s
    }
}

pub fn strip_all_prefix_exec(v: &[char], p: &[char]) -> (r: Vec<char>)
    ensures
        r@ == strip_all_prefix(v@, p@),
{
    let mut k: usize = 0;
    assert(v@.skip(0) =~= v@);
    while p.len() > 0 && k <= v.len() && starts_with(&v[k..v.len()], p)
        invariant
            k <= v.len(),
            strip_all_prefix(v@, p@) == strip_all_prefix(v@.skip(k as int), p@),
        decreases v.len() - k,
    {
        assert(v@.skip(k as int).skip(p.len() as int) =~= v@.skip(k + p.len()));
        k = k + p.len();
    }
    slice_of(v, k, v.len())
}

// ───────────────────────── positional searches ─────────────────────────

/// Position of the last character satisfying `p`, or -1.
pub open spec fn last_index_where(s: Seq<char>, p: spec_fn(char) -> bool) -> int
    decreases s.len(),
{
    if s.len() == 0 {
        -1
    } else if p(s.last()) {
        s.len() - 1
    } else {
        last_index_where(s.drop_last(), p)
    }
}

pub proof fn lemma_last_index_where(s: Seq<char>, p: spec_fn(char) -> bool)
    ensures
        -1 <= last_index_where(s, p) < s.len(),
        last_index_where(s, p) >= 0 ==> p(s[last_index_where(s, p)]),
        forall|j: int| last_index_where(s, p) < j < s.len() ==> !p(#[trigger] s[j]),
    decreases s.len(),
{
    if s.len() > 0 && !p(s.last()) {
        lemma_last_index_where(s.drop_last(), p);
        assert forall|j: int| last_index_where(s, p) < j < s.len() implies !p(#[trigger] s[j]) by {
            if j < s.len() - 1 {
                assert(s[j] == s.drop_last()[j]);
            }
        }
    }
}

/// Position of the first character equal to `c`, or the length.
pub open spec fn first_index_of(s: Seq<char>, c: char) -> int
    decreases s.len(),
{
    if s.len() == 0 {
        0
    } else if s[0] == c {
        0
    } else {
        1 + first_index_of(s.drop_first(), c)
    }
}

pub fn first_index_of_exec(v: &[char], c: char) -> (k: usize)
    ensures
        k == first_index_of(v@, c),
        k <= v.len(),
{
    let mut k: usize = 0;
    assert(v@.skip(0) =~= v@);
    while k < v.len() && v[k] != c
        invariant
            k <= v.len(),
            first_index_of(v@, c) == k + first_index_of(v@.skip(k as int), c),
        decreases v.len() - k,
    {
        assert(v@.skip(k as int).drop_first() =~= v@.skip(k + 1));
        k = k + 1;
    }
    k
}

/// `str::trim_end_matches` with a character predicate.
pub open spec fn strip_end_where(s: Seq<char>, p: spec_fn(char) -> bool) -> Seq<char>
    decreases s.len(),
{
    if s.len() > 0 && p(s.last()) {
        strip_end_where(s.drop_last(), p)
    } else {
        s
    }
}

/// Number of leading characters satisfying `p` (`chars().take_while(p).count()`).
pub open spec fn leading_count(s: Seq<char>, p: spec_fn(char) -> bool) -> nat
    decreases s.len(),
{
    if s.len() > 0 && p(s[0]) {
        1 + leading_count(s.drop_first(), p)
    } else {
        0
    }
}

/// `str::split_once` at the first `c`: the text before and after it.
pub open spec fn split_once(s: Seq<char>, c: char) -> Option<(Seq<char>, Seq<char>)> {
    let i = first_index_of(s, c);
    if i < s.len() {
        Some((s.take(i), s.skip(i + 1)))
    } else {
        None
    }
}

pub proof fn lemma_first_index_of(s: Seq<char>, c: char)
    ensures
        0 <= first_index_of(s, c) <= s.len(),
        first_index_of(s, c) < s.len() ==> s[first_index_of(s, c)] == c,
        forall|j: int| 0 <= j < first_index_of(s, c) ==> s[j] != c,
    decreases s.len(),
{
    if s.len() > 0 && s[0] != c {
        lemma_first_index_of(s.drop_first(), c);
        assert forall|j: int| 0 <= j < first_index_of(s, c) implies s[j] != c by {
            if j > 0 {
                assert(s[j] == s.drop_first()[j - 1]);
            }
        }
    }
}

// ───────────────────────── equality and order ─────────────────────────

pub fn chars_eq(a: &[char], b: &[char]) -> (r: bool)
    ensures
        r == (a@ == b@),
{
    if a.len() != b.len() {
        return false;
    }
    let mut i: usize = 0;
    while i < a.len()
        invariant
            i <= a.len() == b.len(),
            forall|j: int| 0 <= j < i ==> a@[j] == b@[j],
        decreases a.len() - i,
    {
        if a[i] != b[i] {
            return false;
        }
        i = i + 1;
    }
    assert(a@ =~= b@);
    true
}

/// Lexicographic order by code point, which is the order of the UTF-8 bytes
/// (the order of `String`).
pub open spec fn lex_lt(a: Seq<char>, b: Seq<char>) -> bool
    decreases a.len(),
{
    if a.len() == 0 {
        b.len() > 0
    } else if b.len() == 0 {
        false
    } else if a[0] != b[0] {
        a[0] < b[0]
    } else {
        lex_lt(a.drop_first(), b.drop_first())
    }
}

pub proof fn lemma_lex_irreflexive(a: Seq<char>)
    ensures
        !lex_lt(a, a),
    decreases a.len(),
{
    if a.len() > 0 {
        lemma_lex_irreflexive(a.drop_first());
    }
}

pub proof fn lemma_lex_total(a: Seq<char>, b: Seq<char>)
    ensures
        a != b ==> (lex_lt(a, b) || lex_lt(b, a)),
        !(lex_lt(a, b) && lex_lt(b, a)),
    decreases a.len(),
{
    if a.len() > 0 && b.len() > 0 {
        lemma_lex_total(a.drop_first(), b.drop_first());
        if a[0] == b[0] && a.drop_first() == b.drop_first() {
            assert(a =~= seq![a[0]] + a.drop_first());
            assert(b =~= seq![b[0]] + b.drop_first());
        }
    } else if a.len() == 0 && b.len() == 0 {
        assert(a =~= b);
    }
}

pub proof fn lemma_lex_transitive(a: Seq<char>, b: Seq<char>, c: Seq<char>)
    requires
        lex_lt(a, b),
        lex_lt(b, c),
    ensures
        lex_lt(a, c),
    decreases a.len(),
{
    if a.len() > 0 && b.len() > 0 && c.len() > 0 && a[0] == b[0] && b[0] == c[0] {
        lemma_lex_transitive(a.drop_first(), b.drop_first(), c.drop_first());
    }
}

pub fn lex_less(a: &[char], b: &[char]) -> (r: bool)
    ensures
        r == lex_lt(a@, b@),
{
    let mut i: usize = 0;
    assert(a@.skip(0) =~= a@);
    assert(b@.skip(0) =~= b@);
    while i < a.len() && i < b.len() && a[i] == b[i]
        invariant
            i <= a.len(),
            i <= b.len(),
            lex_lt(a@, b@) == lex_lt(a@.skip(i as int), b@.skip(i as int)),
        decreases a.len() - i,
    {
        assert(a@.skip(i as int).drop_first() =~= a@.skip(i + 1));
        assert(b@.skip(i as int).drop_first() =~= b@.skip(i + 1));
        i = i + 1;
    }
    if i == a.len() {
        i < b.len()
    } else if i == b.len() {
        false
    } else {
        a[i] < b[i]
    }
}

} // verus!
