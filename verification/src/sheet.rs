//! Reading the form fields of a fillable character sheet.
use vstd::prelude::*;
use crate::numparse::{parse_i32, parse_i32_spec};
use crate::split::{
    chars_eq, contains, contains_seq, ends_with, first_index_of_exec, has_prefix, has_suffix,
    join, join_with, lemma_first_index_of, lemma_lex_total, lemma_lex_transitive, lemma_take_last,
    lemma_vs_push, lex_less, lex_lt, lines, lines_of, one_of, split_by, split_once, split_with,
    starts_with, strip_all_prefix, strip_all_prefix_exec, strip_end_where, vs, words, words_of,
    CharClass,
};
use crate::text::{
    append_all, chars_of, is_digit, lowercase, opt_chars, opt_str, slice_of, string_of, to_lowercase, trim, trimmed,
};

verus! {

/// Form fields as (name, value) character sequences.
pub open spec fn field_views(fs: Seq<(String, String)>) -> Seq<(Seq<char>, Seq<char>)> {
    fs.map_values(|f: (String, String)| (f.0@, f.1@))
}

pub open spec fn pair_views(fs: Seq<(Vec<char>, Vec<char>)>) -> Seq<(Seq<char>, Seq<char>)> {
    fs.map_values(|f: (Vec<char>, Vec<char>)| (f.0@, f.1@))
}

/// The value of field `k`, or the empty string when there is none.
pub open spec fn lookup(fs: Seq<(Seq<char>, Seq<char>)>, k: Seq<char>) -> Seq<char>
    decreases fs.len(),
{
    if fs.len() == 0 {
        Seq::empty()
    } else if fs[0].0 == k {
        fs[0].1
    } else {
        lookup(fs.drop_first(), k)
    }
}

/// There is a field named `k`.
pub open spec fn has_field(fs: Seq<(Seq<char>, Seq<char>)>, k: Seq<char>) -> bool {
    exists|i: int| 0 <= i < fs.len() && (#[trigger] fs[i]).0 == k
}

/// The value of field `k` when it is not empty.
pub open spec fn text_field(fs: Seq<(Seq<char>, Seq<char>)>, k: Seq<char>) -> Option<Seq<char>> {
    if lookup(fs, k).len() == 0 {
        None
    } else {
        Some(lookup(fs, k))
    }
}

/// Field `k` as an integer, 0 when missing or not a number.
pub open spec fn int_field(fs: Seq<(Seq<char>, Seq<char>)>, k: Seq<char>) -> i32 {
    match parse_i32_spec(lookup(fs, k)) {
        Some(x) => x,
        None => 0,
    }
}

/// Field `k` as an integer; `None` when empty or not a number.
pub open spec fn opt_int_field(fs: Seq<(Seq<char>, Seq<char>)>, k: Seq<char>) -> Option<i32> {
    if lookup(fs, k).len() == 0 {
        None
    } else {
        parse_i32_spec(lookup(fs, k))
    }
}

/// The first of two options that is present.
pub open spec fn either<T>(a: Option<T>, b: Option<T>) -> Option<T> {
    if a is Some {
        a
    } else {
        b
    }
}

/// Form fields with their characters.
pub struct Fields {
    pub entries: Vec<(Vec<char>, Vec<char>)>,
}

impl Fields {
    pub open spec fn view(&self) -> Seq<(Seq<char>, Seq<char>)> {
        pair_views(self.entries@)
    }

    pub fn from_pairs(fields: &[(String, String)]) -> (r: Fields)
        ensures
            r.view() == field_views(fields@),
    {
        let mut entries: Vec<(Vec<char>, Vec<char>)> = Vec::new();
        let mut i: usize = 0;
        while i < fields.len()
            invariant
                i <= fields.len(),
                pair_views(entries@) == field_views(fields@).take(i as int),
            decreases fields.len() - i,
        {
            let e = (chars_of(fields[i].0.as_str()), chars_of(fields[i].1.as_str()));
            proof {
                assert(pair_views(entries@.push(e)) =~= pair_views(entries@).push((e.0@, e.1@)));
                assert(field_views(fields@).take(i + 1) =~= field_views(fields@).take(i as int).push(
                    field_views(fields@)[i as int],
                ));
            }
            entries.push(e);
            i = i + 1;
        }
        assert(field_views(fields@).take(i as int) =~= field_views(fields@));
        Fields { entries }
    }

    /// The value of a field, empty when missing.
    pub fn get(&self, key: &str) -> (r: Vec<char>)
        ensures
            r@ == lookup(self.view(), key@),
    {
        let k = chars_of(key);
        self.get_chars(&k)
    }

    /// The value of a field named by characters, empty when missing.
    pub fn get_chars(&self, key: &[char]) -> (r: Vec<char>)
        ensures
            r@ == lookup(self.view(), key@),
    {
        let k = slice_of(key, 0, key.len());
        assert(k@ =~= key@);
        let mut i: usize = 0;
        assert(self.view().skip(0) =~= self.view());
        while i < self.entries.len()
            invariant
                i <= self.entries.len(),
                k@ == key@,
                lookup(self.view(), key@) == lookup(self.view().skip(i as int), key@),
            decreases self.entries.len() - i,
        {
            assert(self.view().skip(i as int)[0] == (self.entries@[i as int].0@, self.entries@[i as int].1@));
            if chars_eq(&self.entries[i].0, &k) {
                return slice_of(&self.entries[i].1, 0, self.entries[i].1.len());
            }
            assert(self.view().skip(i as int).drop_first() =~= self.view().skip(i + 1));
            i = i + 1;
        }
        Vec::new()
    }

    /// Whether a field of that name exists.
    pub fn contains(&self, key: &str) -> (b: bool)
        ensures
            b == has_field(self.view(), key@),
    {
        let k = chars_of(key);
        let mut i: usize = 0;
        while i < self.entries.len()
            invariant
                i <= self.entries.len(),
                k@ == key@,
                forall|j: int| 0 <= j < i ==> (#[trigger] self.view()[j]).0 != key@,
            decreases self.entries.len() - i,
        {
            assert(self.view()[i as int].0 == self.entries@[i as int].0@);
            if chars_eq(&self.entries[i].0, &k) {
                return true;
            }
            i = i + 1;
        }
        false
    }

    /// The value of a field when not empty.
    pub fn text(&self, key: &str) -> (r: Option<Vec<char>>)
        ensures
            opt_chars(r) == text_field(self.view(), key@),
    {
        let v = self.get(key);
        if v.len() == 0 {
            None
        } else {
            Some(v)
        }
    }

    /// A field as an integer, 0 when missing or not a number.
    pub fn integer(&self, key: &str) -> (r: i32)
        ensures
            r == int_field(self.view(), key@),
    {
        let v = self.get(key);
        match parse_i32(&v) {
            Some(x) => x,
            None => 0,
        }
    }

    /// A field as an integer, `None` when empty or not a number.
    pub fn opt_int(&self, key: &str) -> (r: Option<i32>)
        ensures
            r == opt_int_field(self.view(), key@),
    {
        let v = self.get(key);
        if v.len() == 0 {
            None
        } else {
            parse_i32(&v)
        }
    }
}

// ───────────────────────── formatting ─────────────────────────

/// Values longer than this many characters are cut.
pub const MAX_VALUE_CHARS: usize = 400;

/// A value as shown: cut to 400 characters and marked with an ellipsis when
/// longer.
pub open spec fn shown_value(v: Seq<char>) -> Seq<char> {
    if v.len() > 400 {
        v.take(400) + seq!['\u{2026}']
    } else {
        v
    }
}

/// The `name: value` line of a field.
pub open spec fn field_line(f: (Seq<char>, Seq<char>)) -> Seq<char> {
    f.0 + ": "@ + shown_value(f.1)
}

pub open spec fn field_lines(fs: Seq<(Seq<char>, Seq<char>)>) -> Seq<Seq<char>> {
    fs.map_values(|f: (Seq<char>, Seq<char>)| field_line(f))
}

/// Lines in increasing order (as `String`s compare).
pub open spec fn sorted_lines(ls: Seq<Seq<char>>) -> bool {
    forall|i: int, j: int| 0 <= i < j < ls.len() ==> !lex_lt(#[trigger] ls[j], #[trigger] ls[i])
}

fn field_line_exec(k: &[char], v: &[char]) -> (r: Vec<char>)
    ensures
        r@ == field_line((k@, v@)),
{
    let mut out = slice_of(k, 0, k.len());
    let sep = chars_of(": ");
    append_all(&mut out, &sep);
    if v.len() > MAX_VALUE_CHARS {
        let head = slice_of(v, 0, MAX_VALUE_CHARS);
        assert(head@ =~= v@.take(400));
        append_all(&mut out, &head);
        out.push('\u{2026}');
    } else {
        append_all(&mut out, v);
    }
    out
}

/// Form fields as sorted `name: value` lines, one per field; values longer
/// than 400 characters are cut to 400 characters and end with `…`.
pub fn format_form_fields(fields: &[(String, String)]) -> (r: String)
    ensures
        exists|ls: Seq<Seq<char>>|
            sorted_lines(ls) && ls.to_multiset() == field_lines(field_views(fields@)).to_multiset()
                && r@ == join(ls, "\n"@),
{
    let fv = Fields::from_pairs(fields);
    let ghost all = field_lines(fv.view());
    let mut out: Vec<Vec<char>> = Vec::new();
    let mut i: usize = 0;
    assert(all.take(0) =~= Seq::<Seq<char>>::empty());
    assert(vs(out@) =~= Seq::<Seq<char>>::empty());
    while i < fv.entries.len()
        invariant
            i <= fv.entries.len(),
            all == field_lines(fv.view()),
            all.len() == fv.entries.len(),
            sorted_lines(vs(out@)),
            vs(out@).to_multiset() == all.take(i as int).to_multiset(),
        decreases fv.entries.len() - i,
    {
        let line = field_line_exec(&fv.entries[i].0, &fv.entries[i].1);
        assert(line@ == all[i as int]);
        let mut pos: usize = 0;
        while pos < out.len() && !lex_less(&line, &out[pos])
            invariant
                pos <= out.len(),
                forall|k: int| 0 <= k < pos ==> !lex_lt(line@, #[trigger] vs(out@)[k]),
            decreases out.len() - pos,
        {
            pos = pos + 1;
        }
        let ghost o = vs(out@);
        proof {
            assert forall|a: int, b: int| 0 <= a < b < o.len() + 1 implies !lex_lt(
                #[trigger] o.insert(pos as int, line@)[b],
                #[trigger] o.insert(pos as int, line@)[a],
            ) by {
                let n = o.insert(pos as int, line@);
                if a < pos && b < pos {
                    assert(n[a] == o[a] && n[b] == o[b]);
                } else if a < pos && b == pos {
                    assert(n[a] == o[a]);
                    lemma_lex_total(line@, o[a]);
                } else if a < pos && b > pos {
                    assert(n[a] == o[a] && n[b] == o[b - 1]);
                } else if a == pos {
                    assert(n[b] == o[b - 1]);
                    if lex_lt(o[b - 1], line@) {
                        if b - 1 > pos {
                            lemma_lex_transitive(o[b - 1], line@, o[pos as int]);
                        } else {
                            lemma_lex_total(o[b - 1], line@);
                        }
                    }
                } else {
                    assert(n[a] == o[a - 1] && n[b] == o[b - 1]);
                }
            }
            vstd::seq_lib::to_multiset_insert(o, pos as int, line@);
            vstd::seq_lib::to_multiset_build(all.take(i as int), all[i as int]);
            assert(all.take(i + 1) =~= all.take(i as int).push(all[i as int]));
        }
        out.insert(pos, line);
        assert(vs(out@) =~= o.insert(pos as int, all[i as int]));
        i = i + 1;
    }
    assert(all.take(i as int) =~= all);
    let sep = chars_of("\n");
    let j = join_with(&out, &sep);
    let r = string_of(&j);
    assert(all == field_lines(field_views(fields@)));
    r
}


// ───────────────────────── class and level ─────────────────────────

/// `str::splitn(n, c)`: at most `n` pieces; the last holds the rest.
pub open spec fn split_n(s: Seq<char>, n: nat, c: char) -> Seq<Seq<char>>
    decreases n,
{
    if n <= 1 {
        seq![s]
    } else {
        match split_once(s, c) {
            Some((a, b)) => seq![a] + split_n(b, (n - 1) as nat, c),
            None => seq![s],
        }
    }
}

/// Class name and level from a field such as "Ranger 5" or "Fighter".
pub open spec fn parse_class_level_spec(raw: Seq<char>) -> (Option<Seq<char>>, i32) {
    let t = trim(raw);
    if t.len() == 0 {
        (None, 1)
    } else {
        let parts = split_n(t, 10, ' ');
        match parse_i32_spec(parts.last()) {
            Some(level) => {
                let cls = trim(join(parts.drop_last(), " "@));
                (
                    if cls.len() == 0 {
                        None
                    } else {
                        Some(cls)
                    },
                    if level < 1 {
                        1
                    } else {
                        level
                    },
                )
            },
            None => (Some(t), 1),
        }
    }
}

proof fn lemma_split_n_nonempty(s: Seq<char>, n: nat, c: char)
    ensures
        split_n(s, n, c).len() >= 1,
    decreases n,
{
    if n > 1 {
        match split_once(s, c) {
            Some((a, b)) => lemma_split_n_nonempty(b, (n - 1) as nat, c),
            None => {},
        }
    }
}

fn split_n_exec(v: &[char], n: usize, c: char) -> (r: Vec<Vec<char>>)
    requires
        n >= 1,
    ensures
        vs(r@) == split_n(v@, n as nat, c),
        r@.len() >= 1,
{
    let mut out: Vec<Vec<char>> = Vec::new();
    let mut rest = slice_of(v, 0, v.len());
    let mut k: usize = n;
    assert(rest@ =~= v@);
    while k > 1
        invariant
            1 <= k <= n,
            split_n(v@, n as nat, c) == vs(out@) + split_n(rest@, k as nat, c),
        ensures
            1 <= k <= n,
            split_n(v@, n as nat, c) == vs(out@) + split_n(rest@, k as nat, c),
            k > 1 ==> split_once(rest@, c) is None,
        decreases k,
    {
        let i = first_index_of_exec(&rest, c);
        proof {
            lemma_first_index_of(rest@, c);
        }
        if i >= rest.len() {
            assert(split_once(rest@, c) is None);
            break;
        }
        let a = slice_of(&rest, 0, i);
        let b = slice_of(&rest, i + 1, rest.len());
        proof {
            assert(a@ =~= rest@.take(i as int));
            assert(b@ =~= rest@.skip(i + 1));
            lemma_vs_push(out@, a);
            assert(vs(out@).push(a@) + split_n(b@, (k - 1) as nat, c) =~= vs(out@) + (seq![a@]
                + split_n(b@, (k - 1) as nat, c)));
        }
        out.push(a);
        rest = b;
        k = k - 1;
    }
    proof {
        lemma_vs_push(out@, rest);
        if k > 1 {
            assert(split_once(rest@, c) is None);
        }
        assert(split_n(rest@, k as nat, c) == seq![rest@]);
        assert(vs(out@) + seq![rest@] =~= vs(out@).push(rest@));
    }
    out.push(rest);
    out
}

/// Class name and level from a field such as "Ranger 5" (level 5) or
/// "Fighter" (level 1); the level is at least 1.
pub fn parse_class_level(raw: &str) -> (r: (Option<String>, i32))
    ensures
        (opt_str(r.0), r.1) == parse_class_level_spec(raw@),
{
    let v = chars_of(raw);
    let t = trimmed(&v);
    if t.len() == 0 {
        return (None, 1);
    }
    let parts = split_n_exec(&t, 10, ' ');
    let last = parts.len() - 1;
    assert(vs(parts@).last() == parts@[last as int]@);
    match parse_i32(&parts[last]) {
        Some(level) => {
            let mut head: Vec<Vec<char>> = Vec::new();
            let mut i: usize = 0;
            while i < last
                invariant
                    last == parts.len() - 1,
                    i <= last,
                    vs(head@) == vs(parts@).take(i as int),
                decreases last - i,
            {
                let p = slice_of(&parts[i], 0, parts[i].len());
                assert(p@ =~= parts@[i as int]@);
                proof {
                    lemma_vs_push(head@, p);
                    assert(vs(parts@).take(i + 1) =~= vs(parts@).take(i as int).push(parts@[i as int]@));
                }
                head.push(p);
                i = i + 1;
            }
            assert(vs(parts@).take(last as int) =~= vs(parts@).drop_last());
            let sp = chars_of(" ");
            let j = join_with(&head, &sp);
            let cls = trimmed(&j);
            let lvl = if level < 1 {
                1
            } else {
                level
            };
            if cls.len() == 0 {
                (None, lvl)
            } else {
                (Some(string_of(&cls)), lvl)
            }
        },
        None => (Some(string_of(&t)), 1),
    }
}

// ───────────────────────── proficiencies and languages ─────────────────────────

/// Proficiencies, languages, and whether the current section lists languages.
pub struct ProfState {
    pub profs: Seq<Seq<char>>,
    pub langs: Seq<Seq<char>>,
    pub in_langs: bool,
}

/// `s` with every leading and trailing `=` removed.
pub open spec fn trim_equals(s: Seq<char>) -> Seq<char> {
    strip_end_where(strip_all_prefix(s, "="@), |c: char| c == '=')
}

/// The trimmed, non-empty comma-separated items of `s`.
pub open spec fn list_items(items: Seq<Seq<char>>) -> Seq<Seq<char>>
    decreases items.len(),
{
    if items.len() == 0 {
        Seq::empty()
    } else {
        let prev = list_items(items.drop_last());
        let t = trim(items.last());
        if t.len() > 0 {
            prev.push(t)
        } else {
            prev
        }
    }
}

/// Trimmed content items: not empty and not a `===` marker.
pub open spec fn content_items(items: Seq<Seq<char>>) -> Seq<Seq<char>>
    decreases items.len(),
{
    if items.len() == 0 {
        Seq::empty()
    } else {
        let prev = content_items(items.drop_last());
        let t = trim(items.last());
        if t.len() > 0 && !has_prefix(t, "==="@) {
            prev.push(t)
        } else {
            prev
        }
    }
}

/// One line of the `ProficienciesLang` field.
pub open spec fn prof_step(st: ProfState, line: Seq<char>) -> ProfState {
    let t = trim(line);
    if t.len() == 0 {
        st
    } else if has_prefix(t, "==="@) && has_suffix(t, "==="@) {
        ProfState {
            in_langs: contains_seq(lowercase(trim(trim_equals(t))), "language"@),
            ..st
        }
    } else if has_prefix(lowercase(t), "language"@) && t.contains(':') {
        let after = match split_once(t, ':') {
            Some((a, b)) => trim(b),
            None => Seq::empty(),
        };
        ProfState { langs: st.langs + list_items(split_with(after, one_of(seq![',']))), ..st }
    } else {
        let items = content_items(split_with(t, one_of(seq![','])));
        if st.in_langs {
            ProfState { langs: st.langs + items, ..st }
        } else {
            ProfState { profs: st.profs + items, ..st }
        }
    }
}

pub open spec fn prof_steps(st: ProfState, ls: Seq<Seq<char>>) -> ProfState
    decreases ls.len(),
{
    if ls.len() == 0 {
        st
    } else {
        prof_step(prof_steps(st, ls.drop_last()), ls.last())
    }
}

/// Proficiencies and languages of a `ProficienciesLang` field.
pub open spec fn split_proficiencies_languages_spec(text: Seq<char>) -> (Seq<Seq<char>>, Seq<Seq<char>>) {
    let st = prof_steps(
        ProfState { profs: Seq::empty(), langs: Seq::empty(), in_langs: false },
        lines(text),
    );
    (st.profs, st.langs)
}

fn list_items_exec(items: &Vec<Vec<char>>, skip_markers: bool, out: &mut Vec<Vec<char>>)
    ensures
        vs(final(out)@) == vs(old(out)@) + if skip_markers {
            content_items(vs(items@))
        } else {
            list_items(vs(items@))
        },
{
    let ghost o = vs(out@);
    let mut i: usize = 0;
    let marker = chars_of("===");
    assert(vs(items@).take(0) =~= Seq::<Seq<char>>::empty());
    assert(o + Seq::<Seq<char>>::empty() =~= o);
    while i < items.len()
        invariant
            i <= items.len(),
            marker@ == "==="@,
            vs(out@) == o + if skip_markers {
                content_items(vs(items@).take(i as int))
            } else {
                list_items(vs(items@).take(i as int))
            },
        decreases items.len() - i,
    {
        proof {
            lemma_take_last(vs(items@), i as int);
        }
        assert(vs(items@)[i as int] == items@[i as int]@);
        let t = trimmed(&items[i]);
        let keep = t.len() > 0 && (!skip_markers || !starts_with(&t, &marker));
        let ghost before = vs(out@);
        if keep {
            proof {
                lemma_vs_push(out@, t);
            }
            out.push(t);
        }
        proof {
            if skip_markers {
                let c = content_items(vs(items@).take(i as int));
                if keep {
                    assert(o + c.push(t@) =~= (o + c).push(t@));
                }
            } else {
                let c = list_items(vs(items@).take(i as int));
                if keep {
                    assert(o + c.push(t@) =~= (o + c).push(t@));
                }
            }
        }
        i = i + 1;
    }
    assert(vs(items@).take(i as int) =~= vs(items@));
}

fn trim_equals_exec(v: &[char]) -> (r: Vec<char>)
    ensures
        r@ == trim_equals(v@),
{
    let eq = chars_of("=");
    let a = strip_all_prefix_exec(v, &eq);
    let mut k: usize = a.len();
    assert(a@.take(k as int) =~= a@);
    while k > 0 && a[k - 1] == '='
        invariant
            k <= a.len(),
            a@ == strip_all_prefix(v@, "="@),
            strip_end_where(a@, |c: char| c == '=') == strip_end_where(
                a@.take(k as int),
                |c: char| c == '=',
            ),
        decreases k,
    {
        assert(a@.take(k as int).drop_last() =~= a@.take(k - 1));
        k = k - 1;
    }
    let r = slice_of(&a, 0, k);
    assert(r@ =~= a@.take(k as int));
    r
}

/// Splits a `ProficienciesLang` field into proficiencies and languages:
/// `=== LANGUAGES ===` headers switch the bucket, `Languages: a, b` lines
/// add languages, and other lines add their comma-separated items to the
/// current bucket.
pub fn split_proficiencies_languages(text: &str) -> (r: (Vec<String>, Vec<String>))
    ensures
        (r.0@.map_values(|s: String| s@), r.1@.map_values(|s: String| s@))
            == split_proficiencies_languages_spec(text@),
{
    let v = chars_of(text);
    let ls = lines_of(&v);
    let mut profs: Vec<Vec<char>> = Vec::new();
    let mut langs: Vec<Vec<char>> = Vec::new();
    let mut in_langs = false;
    let marker = chars_of("===");
    let language = chars_of("language");
    let ghost init = ProfState { profs: Seq::empty(), langs: Seq::empty(), in_langs: false };
    assert(vs(ls@).take(0) =~= Seq::<Seq<char>>::empty());
    assert(vs(profs@) =~= Seq::<Seq<char>>::empty());
    assert(vs(langs@) =~= Seq::<Seq<char>>::empty());
    let mut i: usize = 0;
    while i < ls.len()
        invariant
            i <= ls.len(),
            vs(ls@) == lines(v@),
            marker@ == "==="@,
            language@ == "language"@,
            init == (ProfState { profs: Seq::empty(), langs: Seq::empty(), in_langs: false }),
            (ProfState { profs: vs(profs@), langs: vs(langs@), in_langs }) == prof_steps(
                init,
                vs(ls@).take(i as int),
            ),
        decreases ls.len() - i,
    {
        proof {
            lemma_take_last(vs(ls@), i as int);
        }
        assert(vs(ls@)[i as int] == ls@[i as int]@);
        let t = trimmed(&ls[i]);
        if t.len() == 0 {
        } else if starts_with(&t, &marker) && ends_with(&t, &marker) {
            let inner = trim_equals_exec(&t);
            let section = to_lowercase(&trimmed(&inner));
            in_langs = contains(&section, &language);
        } else {
            let lower = to_lowercase(&t);
            let colon = first_index_of_exec(&t, ':');
            proof {
                lemma_first_index_of(t@, ':');
                if colon < t.len() {
                    assert(t@.contains(':'));
                } else {
                    assert(!t@.contains(':'));
                }
            }
            let comma = crate::split::class_of1(',');
            if starts_with(&lower, &language) && colon < t.len() {
                let after = trimmed(&slice_of(&t, colon + 1, t.len()));
                let items = split_by(&after, &comma);
                list_items_exec(&items, false, &mut langs);
            } else {
                let items = split_by(&t, &comma);
                if in_langs {
                    list_items_exec(&items, true, &mut langs);
                } else {
                    list_items_exec(&items, true, &mut profs);
                }
            }
        }
        i = i + 1;
    }
    assert(vs(ls@).take(i as int) =~= vs(ls@));
    (strings_of(&profs), strings_of(&langs))
}

/// Strings holding the given character sequences.
pub fn strings_of(v: &Vec<Vec<char>>) -> (r: Vec<String>)
    ensures
        r@.map_values(|s: String| s@) == vs(v@),
{
    let mut out: Vec<String> = Vec::new();
    let mut i: usize = 0;
    while i < v.len()
        invariant
            i <= v.len(),
            out@.map_values(|s: String| s@) == vs(v@).take(i as int),
        decreases v.len() - i,
    {
        let s = string_of(&v[i]);
        proof {
            assert(out@.push(s).map_values(|s: String| s@) =~= out@.map_values(|s: String| s@).push(
                s@,
            ));
            assert(vs(v@).take(i + 1) =~= vs(v@).take(i as int).push(v@[i as int]@));
        }
        out.push(s);
        i = i + 1;
    }
    assert(vs(v@).take(i as int) =~= vs(v@));
    out
}

// ───────────────────────── spell levels ─────────────────────────

/// The spell level named in a section header ("1st", ..., "9th"; a cantrip
/// header counts as level 1).
pub open spec fn spell_level_spec(header: Seq<char>) -> Option<i32> {
    let h = lowercase(header);
    if contains_seq(h, "1st"@) || contains_seq(h, "cantrip"@) {
        Some(1)
    } else if contains_seq(h, "2nd"@) {
        Some(2)
    } else if contains_seq(h, "3rd"@) {
        Some(3)
    } else if contains_seq(h, "4th"@) {
        Some(4)
    } else if contains_seq(h, "5th"@) {
        Some(5)
    } else if contains_seq(h, "6th"@) {
        Some(6)
    } else if contains_seq(h, "7th"@) {
        Some(7)
    } else if contains_seq(h, "8th"@) {
        Some(8)
    } else if contains_seq(h, "9th"@) {
        Some(9)
    } else {
        None
    }
}

fn has(h: &[char], p: &str) -> (b: bool)
    ensures
        b == contains_seq(h@, p@),
{
    let pv = chars_of(p);
    contains(h, &pv)
}

/// The spell level of a header such as "=== 2nd LEVEL ===".
pub fn parse_spell_level_from_header(header: &str) -> (r: Option<i32>)
    ensures
        r == spell_level_spec(header@),
{
    let v = chars_of(header);
    let h = to_lowercase(&v);
    if has(&h, "1st") || has(&h, "cantrip") {
        Some(1)
    } else if has(&h, "2nd") {
        Some(2)
    } else if has(&h, "3rd") {
        Some(3)
    } else if has(&h, "4th") {
        Some(4)
    } else if has(&h, "5th") {
        Some(5)
    } else if has(&h, "6th") {
        Some(6)
    } else if has(&h, "7th") {
        Some(7)
    } else if has(&h, "8th") {
        Some(8)
    } else if has(&h, "9th") {
        Some(9)
    } else {
        None
    }
}


// ───────────────────────── the character sheet ─────────────────────────

/// The six ability scores.
#[derive(Clone, Copy)]
pub struct AbilityScores {
    pub strength: i32,
    pub dexterity: i32,
    pub constitution: i32,
    pub intelligence: i32,
    pub wisdom: i32,
    pub charisma: i32,
}

/// Saving-throw modifiers, where given.
#[derive(Clone, Copy)]
pub struct SavingThrows {
    pub strength: Option<i32>,
    pub dexterity: Option<i32>,
    pub constitution: Option<i32>,
    pub intelligence: Option<i32>,
    pub wisdom: Option<i32>,
    pub charisma: Option<i32>,
}

/// Skill modifiers, where given.
#[derive(Clone, Copy)]
pub struct SkillScores {
    pub acrobatics: Option<i32>,
    pub animal_handling: Option<i32>,
    pub arcana: Option<i32>,
    pub athletics: Option<i32>,
    pub deception: Option<i32>,
    pub history: Option<i32>,
    pub insight: Option<i32>,
    pub intimidation: Option<i32>,
    pub investigation: Option<i32>,
    pub medicine: Option<i32>,
    pub nature: Option<i32>,
    pub perception: Option<i32>,
    pub performance: Option<i32>,
    pub persuasion: Option<i32>,
    pub religion: Option<i32>,
    pub sleight_of_hand: Option<i32>,
    pub stealth: Option<i32>,
    pub survival: Option<i32>,
}

/// Spell slots of one level.
#[derive(Clone, Copy)]
pub struct SpellSlot {
    pub level: i32,
    pub total: i32,
    pub remaining: i32,
}

/// A character sheet read into fields. `key_fields` counts how many of
/// seven key fields (name, class, race, hit points, armour class, strength,
/// dexterity) were found; the parse confidence is that count over seven.
pub struct ParsedSheetResult {
    pub name: String,
    pub class: Option<String>,
    pub race: Option<String>,
    pub level: i32,
    pub max_hp: i32,
    pub armor_class: i32,
    pub speed: i32,
    pub ability_scores: AbilityScores,
    pub backstory_text: Option<String>,
    pub raw_extracted_text: String,
    pub key_fields: u32,
    pub background: Option<String>,
    pub experience_points: Option<i32>,
    pub hit_dice: Option<String>,
    pub saving_throws: Option<SavingThrows>,
    pub skills: Option<SkillScores>,
    pub proficiencies: Vec<String>,
    pub languages: Vec<String>,
    pub features_and_traits: Vec<String>,
    pub equipment: Vec<String>,
    pub personality_traits: Option<String>,
    pub ideals: Option<String>,
    pub bonds: Option<String>,
    pub flaws: Option<String>,
    pub spell_slots: Vec<SpellSlot>,
}

/// Field names are distinct, as in a map from name to value.
pub open spec fn names_distinct(fs: Seq<(Seq<char>, Seq<char>)>) -> bool {
    forall|i: int, j: int| 0 <= i < j < fs.len() ==> (#[trigger] fs[i]).0 != (#[trigger] fs[j]).0
}

pub open spec fn sheet_name(fs: Seq<(Seq<char>, Seq<char>)>) -> Seq<char> {
    match either(
        either(text_field(fs, "CharacterName"@), text_field(fs, "CharacterName2"@)),
        text_field(fs, "CharacterName4"@),
    ) {
        Some(n) => n,
        None => "Unknown"@,
    }
}

pub open spec fn sheet_class_level(fs: Seq<(Seq<char>, Seq<char>)>) -> (Option<Seq<char>>, i32) {
    let raw = match either(
        either(text_field(fs, "CLASS  LEVEL"@), text_field(fs, "CLASS  LEVEL2"@)),
        text_field(fs, "ClassLevel"@),
    ) {
        Some(x) => x,
        None => Seq::empty(),
    };
    parse_class_level_spec(raw)
}

pub open spec fn sheet_race(fs: Seq<(Seq<char>, Seq<char>)>) -> Option<Seq<char>> {
    either(
        either(either(text_field(fs, "RACE"@), text_field(fs, "RACE2"@)), text_field(fs, "Race"@)),
        text_field(fs, "Species"@),
    )
}

pub open spec fn sheet_background(fs: Seq<(Seq<char>, Seq<char>)>) -> Option<Seq<char>> {
    either(
        either(text_field(fs, "BACKGROUND"@), text_field(fs, "BACKGROUND2"@)),
        text_field(fs, "Background"@),
    )
}

pub open spec fn sheet_xp(fs: Seq<(Seq<char>, Seq<char>)>) -> Option<i32> {
    either(
        either(opt_int_field(fs, "EXPERIENCE POINTS"@), opt_int_field(fs, "EXPERIENCE POINTS2"@)),
        opt_int_field(fs, "XP"@),
    )
}

pub open spec fn sheet_abilities(fs: Seq<(Seq<char>, Seq<char>)>) -> AbilityScores {
    AbilityScores {
        strength: int_field(fs, "STR"@),
        dexterity: int_field(fs, "DEX"@),
        constitution: int_field(fs, "CON"@),
        intelligence: int_field(fs, "INT"@),
        wisdom: int_field(fs, "WIS"@),
        charisma: int_field(fs, "CHA"@),
    }
}

pub open spec fn max_i32(a: i32, b: i32) -> i32 {
    if a >= b {
        a
    } else {
        b
    }
}

/// Maximum hit points: the larger of `MaxHP` and `HPMax`, at least 1.
pub open spec fn sheet_max_hp(fs: Seq<(Seq<char>, Seq<char>)>) -> i32 {
    max_i32(max_i32(int_field(fs, "MaxHP"@), int_field(fs, "HPMax"@)), 1)
}

/// Armour class, 10 when missing.
pub open spec fn sheet_ac(fs: Seq<(Seq<char>, Seq<char>)>) -> i32 {
    if int_field(fs, "AC"@) == 0 {
        10
    } else {
        int_field(fs, "AC"@)
    }
}

/// The first of `pieces` that parses as an integer, else 0.
pub open spec fn first_int(pieces: Seq<Seq<char>>) -> i32
    decreases pieces.len(),
{
    if pieces.len() == 0 {
        0
    } else {
        match parse_i32_spec(pieces[0]) {
            Some(x) => x,
            None => first_int(pieces.drop_first()),
        }
    }
}

/// Walking speed: the first integer in the `Speed` field ("35 ft. (Walking)"),
/// 30 when there is none (or it is 0).
pub open spec fn sheet_speed(fs: Seq<(Seq<char>, Seq<char>)>) -> i32 {
    let v = first_int(split_with(lookup(fs, "Speed"@), |c: char| !is_digit(c)));
    if v == 0 {
        30
    } else {
        v
    }
}

/// Hit dice: `Total` when it holds a `d`, else `HDTotal`.
pub open spec fn sheet_hit_dice(fs: Seq<(Seq<char>, Seq<char>)>) -> Option<Seq<char>> {
    let total = match text_field(fs, "Total"@) {
        Some(t) => if t.contains('d') {
            Some(t)
        } else {
            None
        },
        None => None,
    };
    either(total, text_field(fs, "HDTotal"@))
}

pub open spec fn sheet_saves(fs: Seq<(Seq<char>, Seq<char>)>) -> Option<SavingThrows> {
    if has_field(fs, "ST Strength"@) || has_field(fs, "ST Dexterity"@) {
        Some(
            SavingThrows {
                strength: opt_int_field(fs, "ST Strength"@),
                dexterity: opt_int_field(fs, "ST Dexterity"@),
                constitution: opt_int_field(fs, "ST Constitution"@),
                intelligence: opt_int_field(fs, "ST Intelligence"@),
                wisdom: opt_int_field(fs, "ST Wisdom"@),
                charisma: opt_int_field(fs, "ST Charisma"@),
            },
        )
    } else {
        None
    }
}

pub open spec fn sheet_skills(fs: Seq<(Seq<char>, Seq<char>)>) -> Option<SkillScores> {
    if has_field(fs, "Acrobatics"@) || has_field(fs, "Perception"@) {
        Some(
            SkillScores {
                acrobatics: opt_int_field(fs, "Acrobatics"@),
                animal_handling: opt_int_field(fs, "Animal"@),
                arcana: opt_int_field(fs, "Arcana"@),
                athletics: opt_int_field(fs, "Athletics"@),
                deception: opt_int_field(fs, "Deception"@),
                history: opt_int_field(fs, "History"@),
                insight: opt_int_field(fs, "Insight"@),
                intimidation: opt_int_field(fs, "Intimidation"@),
                investigation: opt_int_field(fs, "Investigation"@),
                medicine: opt_int_field(fs, "Medicine"@),
                nature: opt_int_field(fs, "Nature"@),
                perception: opt_int_field(fs, "Perception"@),
                performance: opt_int_field(fs, "Performance"@),
                persuasion: opt_int_field(fs, "Persuasion"@),
                religion: opt_int_field(fs, "Religion"@),
                sleight_of_hand: opt_int_field(fs, "SleightofHand"@),
                stealth: opt_int_field(fs, "Stealth"@),
                survival: opt_int_field(fs, "Survival"@),
            },
        )
    } else {
        None
    }
}

/// The present values among some optional texts, in order.
pub open spec fn present(xs: Seq<Option<Seq<char>>>) -> Seq<Seq<char>>
    decreases xs.len(),
{
    if xs.len() == 0 {
        Seq::empty()
    } else {
        let prev = present(xs.drop_last());
        match xs.last() {
            Some(x) => prev.push(x),
            None => prev,
        }
    }
}

pub open spec fn sheet_features(fs: Seq<(Seq<char>, Seq<char>)>) -> Seq<Seq<char>> {
    present(
        seq![
            text_field(fs, "FeaturesTraits1"@),
            text_field(fs, "FeaturesTraits2"@),
            text_field(fs, "FeaturesTraits3"@),
            text_field(fs, "FeaturesTraits"@),
        ],
    )
}

/// The decimal digit character of `i` (below 10).
pub open spec fn digit_char(i: int) -> char {
    seq!['0', '1', '2', '3', '4', '5', '6', '7', '8', '9'][i]
}

/// Number of `O` characters (unused slot circles).
pub open spec fn count_o(s: Seq<char>) -> nat
    decreases s.len(),
{
    if s.len() == 0 {
        0
    } else {
        count_o(s.drop_last()) + if s.last() == 'O' {
            1nat
        } else {
            0nat
        }
    }
}

pub open spec fn min_i32(a: i32, b: i32) -> i32 {
    if a <= b {
        a
    } else {
        b
    }
}

/// The spell slots of section `idx`: its header names the level (or the
/// slot header does), the slot header ("2 Slots OO") gives the total and,
/// by its `O`s, the slots remaining. Cantrip and at-will sections have none.
pub open spec fn spell_slot_at(fs: Seq<(Seq<char>, Seq<char>)>, idx: int) -> Option<SpellSlot> {
    let sh = lookup(fs, "spellHeader"@.push(digit_char(idx)));
    let sl = lookup(fs, "spellSlotHeader"@.push(digit_char(idx)));
    if sl.len() == 0 || contains_seq(sl, "At Will"@) || contains_seq(lowercase(sh), "cantrip"@) {
        None
    } else {
        match either(spell_level_spec(sh), spell_level_spec(sl)) {
            None => None,
            Some(level) => {
                let total = first_int(words(sl));
                if total <= 0 {
                    None
                } else {
                    Some(
                        SpellSlot {
                            level,
                            total,
                            remaining: min_i32(count_o(sl) as i32, total),
                        },
                    )
                }
            },
        }
    }
}

/// The spell slots of sections `0..n`.
pub open spec fn spell_slots_upto(fs: Seq<(Seq<char>, Seq<char>)>, n: nat) -> Seq<SpellSlot>
    decreases n,
{
    if n == 0 {
        Seq::empty()
    } else {
        let prev = spell_slots_upto(fs, (n - 1) as nat);
        match spell_slot_at(fs, n - 1) {
            Some(s) => prev.push(s),
            None => prev,
        }
    }
}

/// 1 for true, 0 for false.
pub open spec fn ind(b: bool) -> nat {
    if b {
        1
    } else {
        0
    }
}

/// How many of the seven key fields were found.
pub open spec fn sheet_key_fields(fs: Seq<(Seq<char>, Seq<char>)>) -> nat {
    let name = sheet_name(fs);
    ind(name.len() > 0 && name != "Unknown"@) + ind(sheet_class_level(fs).0 is Some) + ind(
        sheet_race(fs) is Some,
    ) + ind(sheet_max_hp(fs) > 1) + ind(sheet_ac(fs) != 10) + ind(int_field(fs, "STR"@) != 0)
        + ind(int_field(fs, "DEX"@) != 0)
}

/// The sheet read from fields `fs`.
pub open spec fn sheet_matches(p: ParsedSheetResult, fs: Seq<(Seq<char>, Seq<char>)>) -> bool {
    let (class, level) = sheet_class_level(fs);
    let (profs, langs) = split_proficiencies_languages_spec(lookup(fs, "ProficienciesLang"@));
    &&& p.name@ == sheet_name(fs)
    &&& opt_str(p.class) == class
    &&& p.level == level
    &&& opt_str(p.race) == sheet_race(fs)
    &&& opt_str(p.background) == sheet_background(fs)
    &&& p.experience_points == sheet_xp(fs)
    &&& p.ability_scores == sheet_abilities(fs)
    &&& p.max_hp == sheet_max_hp(fs)
    &&& p.armor_class == sheet_ac(fs)
    &&& p.speed == sheet_speed(fs)
    &&& opt_str(p.hit_dice) == sheet_hit_dice(fs)
    &&& p.saving_throws == sheet_saves(fs)
    &&& p.skills == sheet_skills(fs)
    &&& p.features_and_traits@.map_values(|s: String| s@) == sheet_features(fs)
    &&& p.proficiencies@.map_values(|s: String| s@) == profs
    &&& p.languages@.map_values(|s: String| s@) == langs
    &&& opt_str(p.personality_traits) == text_field(fs, "PersonalityTraits"@)
    &&& opt_str(p.ideals) == text_field(fs, "Ideals"@)
    &&& opt_str(p.bonds) == text_field(fs, "Bonds"@)
    &&& opt_str(p.flaws) == text_field(fs, "Flaws"@)
    &&& opt_str(p.backstory_text) == either(
        text_field(fs, "Backstory"@),
        text_field(fs, "CharacterBackstory"@),
    )
    &&& p.spell_slots@ == spell_slots_upto(fs, 10)
    &&& p.key_fields == sheet_key_fields(fs)
    &&& p.equipment@.len() == 0
    &&& exists|ls: Seq<Seq<char>>|
        sorted_lines(ls) && ls.to_multiset() == field_lines(fs).to_multiset() && p.raw_extracted_text@
            == join(ls, "\n"@)
}

fn or_text(a: Option<Vec<char>>, b: Option<Vec<char>>) -> (r: Option<Vec<char>>)
    ensures
        opt_chars(r) == either(opt_chars(a), opt_chars(b)),
{
    match a {
        Some(x) => Some(x),
        None => b,
    }
}

fn opt_string(a: Option<Vec<char>>) -> (r: Option<String>)
    ensures
        opt_str(r) == opt_chars(a),
{
    match a {
        Some(x) => Some(string_of(&x)),
        None => None,
    }
}

fn name_of(f: &Fields) -> (r: Vec<char>)
    ensures
        r@ == sheet_name(f.view()),
{
    let n = or_text(or_text(f.text("CharacterName"), f.text("CharacterName2")), f.text("CharacterName4"));
    match n {
        Some(x) => x,
        None => chars_of("Unknown"),
    }
}

fn class_level_of(f: &Fields) -> (r: (Option<String>, i32))
    ensures
        (opt_str(r.0), r.1) == sheet_class_level(f.view()),
{
    let raw = match or_text(or_text(f.text("CLASS  LEVEL"), f.text("CLASS  LEVEL2")), f.text("ClassLevel")) {
        Some(x) => x,
        None => Vec::new(),
    };
    parse_class_level(string_of(&raw).as_str())
}

fn speed_of(f: &Fields) -> (r: i32)
    ensures
        r == sheet_speed(f.view()),
{
    let raw = f.get("Speed");
    let pieces = split_by(&raw, &CharClass::NonDigit);
    let v = first_int_exec(&pieces);
    if v == 0 {
        30
    } else {
        v
    }
}

fn hit_dice_of(f: &Fields) -> (r: Option<Vec<char>>)
    ensures
        opt_chars(r) == sheet_hit_dice(f.view()),
{
    let total = match f.text("Total") {
        Some(t) => {
            let d = first_index_of_exec(&t, 'd');
            proof {
                lemma_first_index_of(t@, 'd');
                if d < t.len() {
                    assert(t@.contains('d'));
                }
            }
            if d < t.len() {
                Some(t)
            } else {
                None
            }
        },
        None => None,
    };
    or_text(total, f.text("HDTotal"))
}

fn saves_of(f: &Fields) -> (r: Option<SavingThrows>)
    ensures
        r == sheet_saves(f.view()),
{
    if f.contains("ST Strength") || f.contains("ST Dexterity") {
        Some(
            SavingThrows {
                strength: f.opt_int("ST Strength"),
                dexterity: f.opt_int("ST Dexterity"),
                constitution: f.opt_int("ST Constitution"),
                intelligence: f.opt_int("ST Intelligence"),
                wisdom: f.opt_int("ST Wisdom"),
                charisma: f.opt_int("ST Charisma"),
            },
        )
    } else {
        None
    }
}

fn skills_of(f: &Fields) -> (r: Option<SkillScores>)
    ensures
        r == sheet_skills(f.view()),
{
    if f.contains("Acrobatics") || f.contains("Perception") {
        Some(
            SkillScores {
                acrobatics: f.opt_int("Acrobatics"),
                animal_handling: f.opt_int("Animal"),
                arcana: f.opt_int("Arcana"),
                athletics: f.opt_int("Athletics"),
                deception: f.opt_int("Deception"),
                history: f.opt_int("History"),
                insight: f.opt_int("Insight"),
                intimidation: f.opt_int("Intimidation"),
                investigation: f.opt_int("Investigation"),
                medicine: f.opt_int("Medicine"),
                nature: f.opt_int("Nature"),
                perception: f.opt_int("Perception"),
                performance: f.opt_int("Performance"),
                persuasion: f.opt_int("Persuasion"),
                religion: f.opt_int("Religion"),
                sleight_of_hand: f.opt_int("SleightofHand"),
                stealth: f.opt_int("Stealth"),
                survival: f.opt_int("Survival"),
            },
        )
    } else {
        None
    }
}

fn features_of(f: &Fields) -> (r: Vec<String>)
    ensures
        r@.map_values(|s: String| s@) == sheet_features(f.view()),
{
    let mut out: Vec<Vec<char>> = Vec::new();
    let a = f.text("FeaturesTraits1");
    let b = f.text("FeaturesTraits2");
    let c = f.text("FeaturesTraits3");
    let d = f.text("FeaturesTraits");
    let ghost xs = seq![opt_chars(a), opt_chars(b), opt_chars(c), opt_chars(d)];
    assert(xs.take(0) =~= Seq::<Option<Seq<char>>>::empty());
    assert(vs(out@) =~= Seq::<Seq<char>>::empty());
    push_present(&mut out, a, Ghost(xs), 0);
    push_present(&mut out, b, Ghost(xs), 1);
    push_present(&mut out, c, Ghost(xs), 2);
    push_present(&mut out, d, Ghost(xs), 3);
    assert(xs.take(4) =~= xs);
    strings_of(&out)
}

fn push_present(out: &mut Vec<Vec<char>>, x: Option<Vec<char>>, Ghost(xs): Ghost<Seq<Option<Seq<char>>>>, i: usize)
    requires
        i < xs.len(),
        xs[i as int] == opt_chars(x),
        vs(old(out)@) == present(xs.take(i as int)),
    ensures
        vs(final(out)@) == present(xs.take(i + 1)),
{
    assert(xs.take(i + 1).drop_last() =~= xs.take(i as int));
    match x {
        Some(v) => {
            proof {
                lemma_vs_push(out@, v);
            }
            out.push(v);
        },
        None => {},
    }
}

fn count_o_exec(v: &[char]) -> (n: usize)
    ensures
        n == count_o(v@),
{
    let mut n: usize = 0;
    let mut i: usize = 0;
    while i < v.len()
        invariant
            i <= v.len(),
            n == count_o(v@.take(i as int)),
            n <= i,
        decreases v.len() - i,
    {
        proof {
            lemma_take_last(v@, i as int);
        }
        if v[i] == 'O' {
            n = n + 1;
        }
        i = i + 1;
    }
    assert(v@.take(i as int) =~= v@);
    n
}

fn first_int_exec(pieces: &Vec<Vec<char>>) -> (r: i32)
    ensures
        r == first_int(vs(pieces@)),
{
    let ghost ps = vs(pieces@);
    let mut i: usize = 0;
    assert(ps.skip(0) =~= ps);
    while i < pieces.len()
        invariant
            i <= pieces.len(),
            ps == vs(pieces@),
            first_int(ps) == first_int(ps.skip(i as int)),
        decreases pieces.len() - i,
    {
        assert(ps.skip(i as int)[0] == pieces@[i as int]@);
        match parse_i32(&pieces[i]) {
            Some(x) => {
                return x;
            },
            None => {},
        }
        assert(ps.skip(i as int).drop_first() =~= ps.skip(i + 1));
        i = i + 1;
    }
    0
}

fn spell_slot_exec(f: &Fields, idx: usize) -> (r: Option<SpellSlot>)
    requires
        idx < 10,
    ensures
        r == spell_slot_at(f.view(), idx as int),
{
    let digits = chars_of("0123456789");
    proof {
        reveal_strlit("0123456789");
        assert(digits@ =~= seq!['0', '1', '2', '3', '4', '5', '6', '7', '8', '9']);
    }
    let mut kh = chars_of("spellHeader");
    kh.push(digits[idx]);
    let mut ks = chars_of("spellSlotHeader");
    ks.push(digits[idx]);
    let sh = f.get_chars(&kh);
    let sl = f.get_chars(&ks);
    if sl.len() == 0 || has(&sl, "At Will") || has(&to_lowercase(&sh), "cantrip") {
        return None;
    }
    let sh_s = string_of(&sh);
    let sl_s = string_of(&sl);
    let level = match parse_spell_level_from_header(sh_s.as_str()) {
        Some(l) => Some(l),
        None => parse_spell_level_from_header(sl_s.as_str()),
    };
    match level {
        None => None,
        Some(level) => {
            let ws = words_of(&sl);
            let total = first_int_exec(&ws);
            if total <= 0 {
                None
            } else {
                let count = count_o_exec(&sl);
                let c = count as i32;
                let remaining = if c <= total {
                    c
                } else {
                    total
                };
                Some(SpellSlot { level, total, remaining })
            }
        },
    }
}

fn spell_slots_of(f: &Fields) -> (r: Vec<SpellSlot>)
    ensures
        r@ == spell_slots_upto(f.view(), 10),
{
    let mut out: Vec<SpellSlot> = Vec::new();
    let mut idx: usize = 0;
    while idx < 10
        invariant
            idx <= 10,
            out@ == spell_slots_upto(f.view(), idx as nat),
        decreases 10 - idx,
    {
        match spell_slot_exec(f, idx) {
            Some(s) => out.push(s),
            None => {},
        }
        idx = idx + 1;
    }
    out
}

fn text_or_empty(a: Option<Vec<char>>) -> (r: Vec<char>)
    ensures
        r@ == match opt_chars(a) {
            Some(x) => x,
            None => Seq::<char>::empty(),
        },
{
    match a {
        Some(x) => x,
        None => Vec::new(),
    }
}

fn count_key_fields(
    name: &[char],
    has_class: bool,
    has_race: bool,
    max_hp: i32,
    armor_class: i32,
    abilities: &AbilityScores,
) -> (r: u32)
    ensures
        r == ind(name@.len() > 0 && name@ != "Unknown"@) + ind(has_class) + ind(has_race) + ind(
            max_hp > 1,
        ) + ind(armor_class != 10) + ind(abilities.strength != 0) + ind(abilities.dexterity != 0),
{
    let unknown = chars_of("Unknown");
    let mut k: u32 = 0;
    if name.len() > 0 && !chars_eq(name, &unknown) {
        k = k + 1;
    }
    if has_class {
        k = k + 1;
    }
    if has_race {
        k = k + 1;
    }
    if max_hp > 1 {
        k = k + 1;
    }
    if armor_class != 10 {
        k = k + 1;
    }
    if abilities.strength != 0 {
        k = k + 1;
    }
    if abilities.dexterity != 0 {
        k = k + 1;
    }
    k
}

/// Reads a D&D Beyond style fillable character sheet from its form fields
/// (name and value of each field), without any model call. `None` when
/// fewer than five fields are given: not such a sheet.
#[verifier::rlimit(50)]
pub fn parse_character_sheet_from_fields(fields: &[(String, String)]) -> (r: Option<ParsedSheetResult>)
    requires
        names_distinct(field_views(fields@)),
    ensures
        r is None <==> fields@.len() < 5,
        r matches Some(p) ==> sheet_matches(p, field_views(fields@)),
{
    if fields.len() < 5 {
        return None;
    }
    let f = Fields::from_pairs(fields);
    let name = name_of(&f);
    let (class, level) = class_level_of(&f);
    let race = or_text(or_text(or_text(f.text("RACE"), f.text("RACE2")), f.text("Race")), f.text("Species"));
    let background = or_text(or_text(f.text("BACKGROUND"), f.text("BACKGROUND2")), f.text("Background"));
    let experience_points = match f.opt_int("EXPERIENCE POINTS") {
        Some(x) => Some(x),
        None => match f.opt_int("EXPERIENCE POINTS2") {
            Some(x) => Some(x),
            None => f.opt_int("XP"),
        },
    };
    let ability_scores = AbilityScores {
        strength: f.integer("STR"),
        dexterity: f.integer("DEX"),
        constitution: f.integer("CON"),
        intelligence: f.integer("INT"),
        wisdom: f.integer("WIS"),
        charisma: f.integer("CHA"),
    };
    let hp1 = f.integer("MaxHP");
    let hp2 = f.integer("HPMax");
    let hp = if hp1 >= hp2 {
        hp1
    } else {
        hp2
    };
    let max_hp = if hp >= 1 {
        hp
    } else {
        1
    };
    let ac = f.integer("AC");
    let armor_class = if ac == 0 {
        10
    } else {
        ac
    };
    let speed = speed_of(&f);
    let hit_dice = hit_dice_of(&f);
    let saving_throws = saves_of(&f);
    let skills = skills_of(&f);
    let features = features_of(&f);
    let pl = string_of(&text_or_empty(f.text("ProficienciesLang")));
    let (proficiencies, languages) = split_proficiencies_languages(pl.as_str());
    let backstory = or_text(f.text("Backstory"), f.text("CharacterBackstory"));
    let spell_slots = spell_slots_of(&f);
    let key_fields = count_key_fields(&name, class.is_some(), race.is_some(), max_hp, armor_class, &ability_scores);
    let raw_extracted_text = format_form_fields(fields);
    let p = ParsedSheetResult {
        name: string_of(&name),
        class,
        race: opt_string(race),
        level,
        max_hp,
        armor_class,
        speed,
        ability_scores,
        backstory_text: opt_string(backstory),
        raw_extracted_text,
        key_fields,
        background: opt_string(background),
        experience_points,
        hit_dice: opt_string(hit_dice),
        saving_throws,
        skills,
        proficiencies,
        languages,
        features_and_traits: features,
        equipment: Vec::new(),
        personality_traits: opt_string(f.text("PersonalityTraits")),
        ideals: opt_string(f.text("Ideals")),
        bonds: opt_string(f.text("Bonds")),
        flaws: opt_string(f.text("Flaws")),
        spell_slots,
    };
    assert(f.view() == field_views(fields@));
    Some(p)
}


// ───────────────────────── laws ─────────────────────────

/// The level read from a class field is at least 1.
pub proof fn class_level_at_least_one(raw: Seq<char>)
    ensures
        parse_class_level_spec(raw).1 >= 1,
{
}

/// A sheet read from fields has at least 1 hit point, a level of at least 1,
/// a non-zero armour class and speed, counts at most seven key fields, and
/// has at most ten spell-slot levels, each between 1 and 9, with at least one
/// slot and no more remaining than its total.
pub proof fn sheet_bounds(fs: Seq<(Seq<char>, Seq<char>)>)
    ensures
        sheet_max_hp(fs) >= 1,
        sheet_class_level(fs).1 >= 1,
        sheet_key_fields(fs) <= 7,
        sheet_ac(fs) != 0,
        sheet_speed(fs) != 0,
        spell_slots_upto(fs, 10).len() <= 10,
        forall|i: int| 0 <= i < spell_slots_upto(fs, 10).len() ==> {
            let s = #[trigger] spell_slots_upto(fs, 10)[i];
            &&& 1 <= s.level <= 9
            &&& s.total >= 1
            &&& s.remaining <= s.total
        },
{
    lemma_slot_bounds(fs, 10);
}

proof fn lemma_slot_bounds(fs: Seq<(Seq<char>, Seq<char>)>, n: nat)
    ensures
        spell_slots_upto(fs, n).len() <= n,
        forall|i: int| 0 <= i < spell_slots_upto(fs, n).len() ==> {
            let s = #[trigger] spell_slots_upto(fs, n)[i];
            &&& 1 <= s.level <= 9
            &&& s.total >= 1
            &&& s.remaining <= s.total
        },
    decreases n,
{
    if n > 0 {
        lemma_slot_bounds(fs, (n - 1) as nat);
    }
}

/// Field `i` is the first field named `k`.
pub open spec fn first_named(fs: Seq<(Seq<char>, Seq<char>)>, k: Seq<char>, i: int) -> bool {
    &&& 0 <= i < fs.len()
    &&& fs[i].0 == k
    &&& forall|j: int| 0 <= j < i ==> (#[trigger] fs[j]).0 != k
}

/// No field is named `k`.
pub open spec fn none_named(fs: Seq<(Seq<char>, Seq<char>)>, k: Seq<char>) -> bool {
    forall|j: int| 0 <= j < fs.len() ==> (#[trigger] fs[j]).0 != k
}

/// A form value read as an integer, 0 when it is not one.
pub open spec fn value_or_zero(v: Seq<char>) -> i32 {
    match parse_i32_spec(v) {
        Some(n) => n,
        None => 0,
    }
}

proof fn lemma_lookup_first(fs: Seq<(Seq<char>, Seq<char>)>, k: Seq<char>, i: int)
    requires
        first_named(fs, k, i),
    ensures
        lookup(fs, k) == fs[i].1,
    decreases i,
{
    if i > 0 {
        assert(fs[0].0 != k);
        let t = fs.drop_first();
        assert forall|j: int| 0 <= j < i - 1 implies (#[trigger] t[j]).0 != k by {
            assert(t[j] == fs[j + 1]);
        }
        lemma_lookup_first(t, k, i - 1);
    }
}

proof fn lemma_lookup_none(fs: Seq<(Seq<char>, Seq<char>)>, k: Seq<char>)
    requires
        none_named(fs, k),
    ensures
        lookup(fs, k) == Seq::<char>::empty(),
    decreases fs.len(),
{
    if fs.len() > 0 {
        assert(fs[0].0 != k);
        let t = fs.drop_first();
        assert forall|j: int| 0 <= j < t.len() implies (#[trigger] t[j]).0 != k by {
            assert(t[j] == fs[j + 1]);
        }
        lemma_lookup_none(t, k);
    }
}

/// The value the field named `k` gives: its first occurrence read as an
/// integer (0 when it is not one), or 0 when there is no such field.
proof fn lemma_ability_field(fs: Seq<(Seq<char>, Seq<char>)>, k: Seq<char>)
    ensures
        forall|i: int| #[trigger] first_named(fs, k, i) ==> int_field(fs, k) == value_or_zero(fs[i].1),
        none_named(fs, k) ==> int_field(fs, k) == 0,
{
    assert forall|i: int| #[trigger] first_named(fs, k, i) implies int_field(fs, k) == value_or_zero(fs[i].1) by {
        lemma_lookup_first(fs, k, i);
    }
    if none_named(fs, k) {
        lemma_lookup_none(fs, k);
        assert(parse_i32_spec(Seq::<char>::empty()) is None);
    }
}

/// Each ability score of a sheet read from form fields is the integer in the
/// field of that ability's abbreviation (`STR`, `DEX`, `CON`, `INT`, `WIS`,
/// `CHA`; its first occurrence), or 0 when that field is missing or not an
/// integer; no other field bears on it.
pub proof fn abilities_read_their_fields(p: ParsedSheetResult, fs: Seq<(Seq<char>, Seq<char>)>)
    requires
        sheet_matches(p, fs),
    ensures
        forall|i: int| #[trigger] first_named(fs, "STR"@, i) ==> p.ability_scores.strength == value_or_zero(fs[i].1),
        forall|i: int| #[trigger] first_named(fs, "DEX"@, i) ==> p.ability_scores.dexterity == value_or_zero(fs[i].1),
        forall|i: int| #[trigger] first_named(fs, "CON"@, i) ==> p.ability_scores.constitution == value_or_zero(fs[i].1),
        forall|i: int| #[trigger] first_named(fs, "INT"@, i) ==> p.ability_scores.intelligence == value_or_zero(fs[i].1),
        forall|i: int| #[trigger] first_named(fs, "WIS"@, i) ==> p.ability_scores.wisdom == value_or_zero(fs[i].1),
        forall|i: int| #[trigger] first_named(fs, "CHA"@, i) ==> p.ability_scores.charisma == value_or_zero(fs[i].1),
        none_named(fs, "STR"@) ==> p.ability_scores.strength == 0,
        none_named(fs, "DEX"@) ==> p.ability_scores.dexterity == 0,
        none_named(fs, "CON"@) ==> p.ability_scores.constitution == 0,
        none_named(fs, "INT"@) ==> p.ability_scores.intelligence == 0,
        none_named(fs, "WIS"@) ==> p.ability_scores.wisdom == 0,
        none_named(fs, "CHA"@) ==> p.ability_scores.charisma == 0,
{
    lemma_ability_field(fs, "STR"@);
    lemma_ability_field(fs, "DEX"@);
    lemma_ability_field(fs, "CON"@);
    lemma_ability_field(fs, "INT"@);
    lemma_ability_field(fs, "WIS"@);
    lemma_ability_field(fs, "CHA"@);
}

/// A form value as optional text: none when it is empty.
pub open spec fn text_or_none(v: Seq<char>) -> Option<Seq<char>> {
    if v.len() == 0 {
        None
    } else {
        Some(v)
    }
}

proof fn lemma_text_field(fs: Seq<(Seq<char>, Seq<char>)>, k: Seq<char>)
    ensures
        forall|i: int| #[trigger] first_named(fs, k, i) ==> text_field(fs, k) == text_or_none(fs[i].1),
        none_named(fs, k) ==> text_field(fs, k) is None,
{
    assert forall|i: int| #[trigger] first_named(fs, k, i) implies text_field(fs, k) == text_or_none(fs[i].1) by {
        lemma_lookup_first(fs, k, i);
    }
    if none_named(fs, k) {
        lemma_lookup_none(fs, k);
    }
}

/// The personality traits, ideals, bonds and flaws of a sheet read from form
/// fields are the text of the fields `PersonalityTraits`, `Ideals`, `Bonds`
/// and `Flaws` (their first occurrence), none when that field is missing or
/// empty; the armour class is the integer in field `AC`, 10 when that field
/// is missing, 0 or not an integer.
pub proof fn traits_read_their_fields(p: ParsedSheetResult, fs: Seq<(Seq<char>, Seq<char>)>)
    requires
        sheet_matches(p, fs),
    ensures
        forall|i: int| #[trigger] first_named(fs, "PersonalityTraits"@, i) ==> opt_str(p.personality_traits) == text_or_none(fs[i].1),
        forall|i: int| #[trigger] first_named(fs, "Ideals"@, i) ==> opt_str(p.ideals) == text_or_none(fs[i].1),
        forall|i: int| #[trigger] first_named(fs, "Bonds"@, i) ==> opt_str(p.bonds) == text_or_none(fs[i].1),
        forall|i: int| #[trigger] first_named(fs, "Flaws"@, i) ==> opt_str(p.flaws) == text_or_none(fs[i].1),
        none_named(fs, "PersonalityTraits"@) ==> p.personality_traits is None,
        none_named(fs, "Ideals"@) ==> p.ideals is None,
        none_named(fs, "Bonds"@) ==> p.bonds is None,
        none_named(fs, "Flaws"@) ==> p.flaws is None,
        forall|i: int| #[trigger] first_named(fs, "AC"@, i) ==> p.armor_class == if value_or_zero(fs[i].1) == 0 {
            10
        } else {
            value_or_zero(fs[i].1)
        },
        none_named(fs, "AC"@) ==> p.armor_class == 10,
{
    lemma_text_field(fs, "PersonalityTraits"@);
    lemma_text_field(fs, "Ideals"@);
    lemma_text_field(fs, "Bonds"@);
    lemma_text_field(fs, "Flaws"@);
    lemma_ability_field(fs, "AC"@);
}

} // verus!
