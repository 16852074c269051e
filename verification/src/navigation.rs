//! Detection of the Table of Contents and the back-of-book Index from the
//! raw page text, without any model call.
//!
//! ToC lines are dotted-leader lines `<title> .... <page>` in the first
//! pages; Index lines are `<Term>, <page>[, <page>...]` in the last pages.
use vstd::prelude::*;
use std::collections::HashMap;
use crate::extractor::PageExtraction;
use crate::numparse::{parse_u32, parse_u32_spec};
use crate::split::{
    first_index_of, first_index_of_exec, join, join_with, last_index_where, leading_count,
    lemma_first_index_of, lemma_take_last, lemma_vs_push, lines, lines_of, one_of, split_by,
    split_once, split_with, strip_end_where, vs, words, words_of, chars_eq, class_of1, class_of2, lemma_lex_irreflexive,
    lemma_lex_total, lemma_lex_transitive, lex_less, lex_lt,
};
use crate::text::{
    opt_chars,    alpha, chars_of, lowercase, to_lowercase, fits_within, is_alphabetic, is_ascii_digit, is_ascii_whitespace,
    is_ascii_ws, is_digit, lemma_utf8_len_concat, lemma_utf8_len_push, lemma_utf8_len_split,
    slice_of, string_of, trim, trim_end, trim_start, trim_start_pos, trimmed, trimmed_end,
    utf8_len, width_of,
};

verus! {

/// How many pages from the start are scanned for a ToC.
pub const TOC_SCAN_PAGES: usize = 15;

/// Minimum dotted-leader lines for a page to count as a ToC page.
pub const TOC_MIN_LINES: usize = 4;

/// How many pages from the end are scanned for an Index.
pub const INDEX_SCAN_PAGES: usize = 25;

/// Minimum index-looking lines for a page to count as an Index page.
pub const INDEX_MIN_LINES: usize = 8;

// ───────────────────────── ToC lines ─────────────────────────

/// Characters that make up a dotted leader.
pub open spec fn is_leader(c: char) -> bool {
    c == '.' || c == '\u{00B7}' || c == '\u{2026}' || c == '-' || c == '\u{2013}' || c
        == '\u{2014}'
}

fn is_leader_exec(c: char) -> (b: bool)
    ensures
        b == is_leader(c),
{
    c == '.' || c == '\u{00B7}' || c == '\u{2026}' || c == '-' || c == '\u{2013}' || c
        == '\u{2014}'
}

pub open spec fn non_digit() -> spec_fn(char) -> bool {
    |c: char| !is_digit(c)
}

pub open spec fn non_leader() -> spec_fn(char) -> bool {
    |c: char| !is_leader(c)
}

pub open spec fn leader() -> spec_fn(char) -> bool {
    |c: char| is_leader(c)
}

/// ASCII whitespace replaced by spaces.
pub open spec fn spaces_for_ascii_ws(s: Seq<char>) -> Seq<char> {
    s.map_values(|c: char| if is_ascii_ws(c) { ' ' } else { c })
}

/// Bytes of leading whitespace.
pub open spec fn indent_bytes(line: Seq<char>) -> nat {
    (utf8_len(line) - utf8_len(trim_start(line))) as nat
}

/// One nesting level per 3 bytes of indent, as a `u8`, at most 3.
pub open spec fn toc_depth(indent: nat) -> u8 {
    let d = (indent / 3) % 256;
    if d < 3 {
        d as u8
    } else {
        3
    }
}

/// What `parse_toc_line` returns: title, printed page and depth.
pub open spec fn parse_toc_line_spec(line: Seq<char>) -> Option<(Seq<char>, u32, u8)> {
    let t = trim(line);
    let ds = last_index_where(t, non_digit()) + 1;
    let page = parse_u32_spec(trim(t.skip(ds)));
    let rest = trim_end(t.take(ds));
    let ls = last_index_where(rest, non_leader());
    let after = rest.skip(ls + 1);
    let raw_title = trim(strip_end_where(rest.take(ls + 1), leader()));
    let title = join(words(spaces_for_ascii_ws(raw_title)), " "@);
    if t.len() == 0 {
        None
    } else if !(page matches Some(p) && p > 0) {
        None
    } else if ls < 0 {
        None
    } else if leading_count(after, leader()) < 3 {
        None
    } else if title.len() == 0 {
        None
    } else {
        Some((title, page.unwrap(), toc_depth(indent_bytes(line))))
    }
}

proof fn lemma_depth_mod(x: nat)
    ensures
        (x / 3) % 256 == (x % 768) / 3,
{
    assert((x / 3) % 256 == (x % 768) / 3) by (nonlinear_arith);
}

/// UTF-8 length of `v` modulo 768.
fn byte_len_mod768(v: &[char]) -> (m: usize)
    ensures
        m == utf8_len(v@) % 768,
{
    let mut m: usize = 0;
    let mut i: usize = 0;
    while i < v.len()
        invariant
            i <= v.len(),
            m == utf8_len(v@.take(i as int)) % 768,
        decreases v.len() - i,
    {
        proof {
            lemma_take_last(v@, i as int);
            lemma_utf8_len_push(v@.take(i as int), v@[i as int]);
            assert(v@.take(i + 1) =~= v@.take(i as int).push(v@[i as int]));
            vstd::arithmetic::div_mod::lemma_add_mod_noop(
                utf8_len(v@.take(i as int)) as int,
                crate::text::char_width(v@[i as int]) as int,
                768,
            );
            vstd::arithmetic::div_mod::lemma_small_mod(
                crate::text::char_width(v@[i as int]),
                768,
            );
        }
        m = (m + width_of(v[i])) % 768;
        i = i + 1;
    }
    assert(v@.take(i as int) =~= v@);
    m
}

/// Splits at the trailing digit run: position after the last non-digit.
fn digit_start(t: &[char]) -> (ds: usize)
    ensures
        ds == last_index_where(t@, non_digit()) + 1,
        ds <= t.len(),
{
    let mut ds = t.len();
    assert(t@.take(ds as int) =~= t@);
    while ds > 0 && is_ascii_digit(t[ds - 1])
        invariant
            ds <= t.len(),
            last_index_where(t@, non_digit()) == last_index_where(t@.take(ds as int), non_digit()),
        decreases ds,
    {
        assert(t@.take(ds as int).drop_last() =~= t@.take(ds - 1));
        ds = ds - 1;
    }
    assert(ds == 0 ==> t@.take(0) =~= Seq::<char>::empty());
    ds
}

fn leader_end(rest: &[char]) -> (e: usize)
    ensures
        e == last_index_where(rest@, non_leader()) + 1,
        e <= rest.len(),
{
    let mut e = rest.len();
    assert(rest@.take(e as int) =~= rest@);
    while e > 0 && is_leader_exec(rest[e - 1])
        invariant
            e <= rest.len(),
            last_index_where(rest@, non_leader()) == last_index_where(
                rest@.take(e as int),
                non_leader(),
            ),
        decreases e,
    {
        assert(rest@.take(e as int).drop_last() =~= rest@.take(e - 1));
        e = e - 1;
    }
    assert(e == 0 ==> rest@.take(0) =~= Seq::<char>::empty());
    e
}

fn leader_run(v: &[char]) -> (n: usize)
    ensures
        n == leading_count(v@, leader()),
{
    let mut n: usize = 0;
    assert(v@.skip(0) =~= v@);
    while n < v.len() && is_leader_exec(v[n])
        invariant
            n <= v.len(),
            leading_count(v@, leader()) == n + leading_count(v@.skip(n as int), leader()),
        decreases v.len() - n,
    {
        assert(v@.skip(n as int).drop_first() =~= v@.skip(n + 1));
        n = n + 1;
    }
    n
}

fn strip_trailing_leaders(v: &[char]) -> (r: Vec<char>)
    ensures
        r@ == strip_end_where(v@, leader()),
{
    let mut e = v.len();
    assert(v@.take(e as int) =~= v@);
    while e > 0 && is_leader_exec(v[e - 1])
        invariant
            e <= v.len(),
            strip_end_where(v@, leader()) == strip_end_where(v@.take(e as int), leader()),
        decreases e,
    {
        assert(v@.take(e as int).drop_last() =~= v@.take(e - 1));
        e = e - 1;
    }
    let r = slice_of(v, 0, e);
    assert(r@ =~= v@.take(e as int));
    r
}

fn ascii_ws_to_spaces(v: &[char]) -> (r: Vec<char>)
    ensures
        r@ == spaces_for_ascii_ws(v@),
{
    let mut r: Vec<char> = Vec::new();
    let mut i: usize = 0;
    while i < v.len()
        invariant
            i <= v.len(),
            r@ == spaces_for_ascii_ws(v@.take(i as int)),
        decreases v.len() - i,
    {
        let c = if is_ascii_whitespace(v[i]) {
            ' '
        } else {
            v[i]
        };
        r.push(c);
        assert(spaces_for_ascii_ws(v@.take(i + 1)) =~= spaces_for_ascii_ws(v@.take(i as int)).push(
            c,
        ));
        i = i + 1;
    }
    assert(v@.take(i as int) =~= v@);
    r
}

/// The view of a parsed ToC line.
pub open spec fn toc_line_view(r: Option<(Vec<char>, u32, u8)>) -> Option<(Seq<char>, u32, u8)> {
    match r {
        Some((t, p, d)) => Some((t@, p, d)),
        None => None,
    }
}

pub fn parse_toc_line_chars(line: &[char]) -> (r: Option<(Vec<char>, u32, u8)>)
    ensures
        toc_line_view(r) == parse_toc_line_spec(line@),
{
    let a = trim_start_pos(line);
    let lead = slice_of(line, 0, a);
    let indent_mod = byte_len_mod768(&lead);
    proof {
        lemma_utf8_len_split(line@, a as int);
        assert(lead@ =~= line@.take(a as int));
        lemma_depth_mod(indent_bytes(line@));
    }
    let t = trimmed(line);
    if t.len() == 0 {
        return None;
    }
    let ds = digit_start(&t);
    let page_str = trimmed(&slice_of(&t, ds, t.len()));
    assert(t@.subrange(ds as int, t.len() as int) =~= t@.skip(ds as int));
    let page = match parse_u32(&page_str) {
        Some(p) if p > 0 => p,
        _ => {
            return None;
        },
    };
    let rest = trimmed_end(&slice_of(&t, 0, ds));
    assert(t@.subrange(0, ds as int) =~= t@.take(ds as int));
    let e = leader_end(&rest);
    if e == 0 {
        return None;
    }
    let after = slice_of(&rest, e, rest.len());
    assert(after@ =~= rest@.skip(e as int));
    if leader_run(&after) < 3 {
        return None;
    }
    let head = slice_of(&rest, 0, e);
    assert(head@ =~= rest@.take(e as int));
    let raw_title = trimmed(&strip_trailing_leaders(&head));
    let spaced = ascii_ws_to_spaces(&raw_title);
    let ws = words_of(&spaced);
    let space = chars_of(" ");
    let title = join_with(&ws, &space);
    if title.len() == 0 {
        return None;
    }
    let d = indent_mod / 3;
    let depth: u8 = if d < 3 {
        d as u8
    } else {
        3
    };
    Some((title, page, depth))
}

/// A Table of Contents entry.
pub struct TocEntry {
    pub title: String,
    pub page: u32,
    pub depth: u8,
}

/// Parses a dotted-leader line `<indent><title><dots> <page>`; the leader
/// must be at least 3 of `.`, `·`, `…`, `-`, `–`, `—`.
pub fn parse_toc_line(line: &str) -> (r: Option<(String, u32, u8)>)
    ensures
        match r {
            Some((t, p, d)) => parse_toc_line_spec(line@) == Some((t@, p, d)),
            None => parse_toc_line_spec(line@) is None,
        },
{
    let v = chars_of(line);
    match parse_toc_line_chars(&v) {
        Some((t, p, d)) => Some((string_of(&t), p, d)),
        None => None,
    }
}

// ───────────────────────── Index lines ─────────────────────────

/// Separators of a page range ("109-111", "109–111").
pub open spec fn range_seps() -> Seq<char> {
    seq!['-', '\u{2013}']
}

/// The first page of a comma-separated token, if it is a positive number.
pub open spec fn page_of_token(tok: Seq<char>) -> Option<u32> {
    let first = split_with(trim(tok), one_of(range_seps()))[0];
    match parse_u32_spec(trim(first)) {
        Some(p) if p > 0 => Some(p),
        _ => None,
    }
}

/// The pages of the tokens that hold one.
pub open spec fn pages_of_tokens(toks: Seq<Seq<char>>) -> Seq<u32>
    decreases toks.len(),
{
    if toks.len() == 0 {
        Seq::empty()
    } else {
        let prev = pages_of_tokens(toks.drop_last());
        match page_of_token(toks.last()) {
            Some(p) => prev.push(p),
            None => prev,
        }
    }
}

/// The term contains an ASCII digit.
pub open spec fn has_digit(s: Seq<char>) -> bool {
    exists|i: int| 0 <= i < s.len() && is_digit(#[trigger] s[i])
}

/// What `parse_index_line` returns: the term and its pages.
pub open spec fn parse_index_line_spec(line: Seq<char>) -> Option<(Seq<char>, Seq<u32>)> {
    let l = trim(line);
    if l.len() == 0 || !alpha(l[0]) {
        None
    } else {
        match split_once(l, ',') {
            None => None,
            Some((t, raw)) => {
                let term = trim(t);
                let pages = pages_of_tokens(split_with(raw, one_of(seq![','])));
                if utf8_len(term) > 60 || has_digit(term) {
                    None
                } else if term.len() == 0 || pages.len() == 0 {
                    None
                } else {
                    Some((term, pages))
                }
            },
        }
    }
}

fn page_of_token_exec(tok: &[char]) -> (r: Option<u32>)
    ensures
        r == page_of_token(tok@),
{
    let t = trimmed(tok);
    let seps = class_of2('-', '\u{2013}');
    let parts = split_by(&t, &seps);
    assert(vs(parts@)[0] == parts@[0]@);
    let first = trimmed(&parts[0]);
    match parse_u32(&first) {
        Some(p) if p > 0 => Some(p),
        _ => None,
    }
}

fn contains_digit(v: &[char]) -> (b: bool)
    ensures
        b == has_digit(v@),
{
    let mut i: usize = 0;
    while i < v.len()
        invariant
            i <= v.len(),
            forall|j: int| 0 <= j < i ==> !is_digit(#[trigger] v@[j]),
        decreases v.len() - i,
    {
        if is_ascii_digit(v[i]) {
            return true;
        }
        i = i + 1;
    }
    false
}

pub fn parse_index_line_chars(line: &[char]) -> (r: Option<(Vec<char>, Vec<u32>)>)
    ensures
        match r {
            Some((t, p)) => parse_index_line_spec(line@) == Some((t@, p@)),
            None => parse_index_line_spec(line@) is None,
        },
{
    let l = trimmed(line);
    if l.len() == 0 || !is_alphabetic(l[0]) {
        return None;
    }
    let c = first_index_of_exec(&l, ',');
    if c >= l.len() {
        return None;
    }
    let term = trimmed(&slice_of(&l, 0, c));
    let raw = slice_of(&l, c + 1, l.len());
    assert(l@.subrange(0, c as int) =~= l@.take(c as int));
    assert(raw@ =~= l@.skip(c + 1));
    if !fits_within(&term, 60) || contains_digit(&term) {
        return None;
    }
    let commas = class_of1(',');
    let toks = split_by(&raw, &commas);
    let mut pages: Vec<u32> = Vec::new();
    let mut i: usize = 0;
    assert(vs(toks@).take(0) =~= Seq::<Seq<char>>::empty());
    while i < toks.len()
        invariant
            i <= toks.len(),
            pages@ == pages_of_tokens(vs(toks@).take(i as int)),
        decreases toks.len() - i,
    {
        proof {
            lemma_take_last(vs(toks@), i as int);
        }
        assert(vs(toks@)[i as int] == toks@[i as int]@);
        match page_of_token_exec(&toks[i]) {
            Some(p) => pages.push(p),
            None => {},
        }
        i = i + 1;
    }
    assert(vs(toks@).take(i as int) =~= vs(toks@));
    if term.len() == 0 || pages.len() == 0 {
        return None;
    }
    Some((term, pages))
}

/// Parses an index line `<Term>, <page>[, <page>...]`: the term starts with
/// a letter, has at most 60 bytes and no digit; of a range only its first
/// page is kept.
pub fn parse_index_line(line: &str) -> (r: Option<(String, Vec<u32>)>)
    ensures
        match r {
            Some((t, p)) => parse_index_line_spec(line@) == Some((t@, p@)),
            None => parse_index_line_spec(line@) is None,
        },
{
    let v = chars_of(line);
    match parse_index_line_chars(&v) {
        Some((t, p)) => Some((string_of(&t), p)),
        None => None,
    }
}

// ───────────────────────── ToC detection ─────────────────────────

/// The parsed ToC lines among `ls`.
pub open spec fn toc_line_results(ls: Seq<Seq<char>>) -> Seq<(Seq<char>, u32, u8)>
    decreases ls.len(),
{
    if ls.len() == 0 {
        Seq::empty()
    } else {
        let prev = toc_line_results(ls.drop_last());
        match parse_toc_line_spec(ls.last()) {
            Some(e) => prev.push(e),
            None => prev,
        }
    }
}

/// The ToC entries of a page: its parsed lines when there are at least four.
pub open spec fn toc_page_entries(text: Seq<char>) -> Seq<(Seq<char>, u32, u8)> {
    let c = toc_line_results(lines(text));
    if c.len() >= TOC_MIN_LINES {
        c
    } else {
        Seq::empty()
    }
}

pub open spec fn toc_pages_entries(pages: Seq<PageExtraction>) -> Seq<(Seq<char>, u32, u8)>
    decreases pages.len(),
{
    if pages.len() == 0 {
        Seq::empty()
    } else {
        toc_pages_entries(pages.drop_last()) + toc_page_entries(pages.last().raw_text@)
    }
}

/// Each entry whose (title, page) pair did not occur earlier.
pub open spec fn first_occurrences(s: Seq<(Seq<char>, u32, u8)>) -> Seq<(Seq<char>, u32, u8)>
    decreases s.len(),
{
    if s.len() == 0 {
        Seq::empty()
    } else {
        let prev = first_occurrences(s.drop_last());
        let e = s.last();
        if exists|j: int| 0 <= j < s.len() - 1 && (#[trigger] s[j]).0 == e.0 && s[j].1 == e.1 {
            prev
        } else {
            prev.push(e)
        }
    }
}

pub open spec fn toc_entry_view(e: TocEntry) -> (Seq<char>, u32, u8) {
    (e.title@, e.page, e.depth)
}

/// The ToC: entries of the first 15 pages, first occurrence of each (title, page).
pub open spec fn detect_toc_spec(pages: Seq<PageExtraction>) -> Seq<(Seq<char>, u32, u8)> {
    let n = if pages.len() < TOC_SCAN_PAGES {
        pages.len()
    } else {
        TOC_SCAN_PAGES as nat
    };
    first_occurrences(toc_pages_entries(pages.take(n as int)))
}

spec fn toc_triples(s: Seq<(Vec<char>, u32, u8)>) -> Seq<(Seq<char>, u32, u8)> {
    s.map_values(|e: (Vec<char>, u32, u8)| (e.0@, e.1, e.2))
}

fn toc_of_page(text: &[char]) -> (r: Vec<(Vec<char>, u32, u8)>)
    ensures
        toc_triples(r@) == toc_page_entries(text@),
{
    let ls = lines_of(text);
    let mut c: Vec<(Vec<char>, u32, u8)> = Vec::new();
    let mut i: usize = 0;
    assert(vs(ls@).take(0) =~= Seq::<Seq<char>>::empty());
    assert(toc_triples(c@) =~= Seq::<(Seq<char>, u32, u8)>::empty());
    while i < ls.len()
        invariant
            i <= ls.len(),
            toc_triples(c@) == toc_line_results(vs(ls@).take(i as int)),
        decreases ls.len() - i,
    {
        proof {
            lemma_take_last(vs(ls@), i as int);
        }
        assert(vs(ls@)[i as int] == ls@[i as int]@);
        match parse_toc_line_chars(&ls[i]) {
            Some(e) => {
                proof {
                    assert(toc_triples(c@.push(e)) =~= toc_triples(c@).push((e.0@, e.1, e.2)));
                }
                c.push(e);
            },
            None => {},
        }
        i = i + 1;
    }
    assert(vs(ls@).take(i as int) =~= vs(ls@));
    if c.len() >= TOC_MIN_LINES {
        c
    } else {
        let e: Vec<(Vec<char>, u32, u8)> = Vec::new();
        assert(toc_triples(e@) =~= Seq::<(Seq<char>, u32, u8)>::empty());
        e
    }
}

fn detect_toc(pages: &[PageExtraction]) -> (r: Vec<TocEntry>)
    ensures
        r@.map_values(|e: TocEntry| toc_entry_view(e)) == detect_toc_spec(pages@),
{
    let scan_end = if pages.len() < TOC_SCAN_PAGES {
        pages.len()
    } else {
        TOC_SCAN_PAGES
    };
    let mut raw: Vec<(Vec<char>, u32, u8)> = Vec::new();
    let mut i: usize = 0;
    assert(pages@.take(scan_end as int).take(0) =~= Seq::<PageExtraction>::empty());
    assert(toc_triples(raw@) =~= Seq::<(Seq<char>, u32, u8)>::empty());
    while i < scan_end
        invariant
            i <= scan_end <= pages.len(),
            toc_triples(raw@) == toc_pages_entries(pages@.take(scan_end as int).take(i as int)),
        decreases scan_end - i,
    {
        proof {
            lemma_take_last(pages@.take(scan_end as int), i as int);
        }
        let text = chars_of(pages[i].raw_text.as_str());
        let mut es = toc_of_page(&text);
        let ghost before = raw@;
        raw.append(&mut es);
        assert(toc_triples(raw@) =~= toc_triples(before) + toc_page_entries(text@));
        i = i + 1;
    }
    assert(pages@.take(scan_end as int).take(i as int) =~= pages@.take(scan_end as int));
    let ghost all = toc_triples(raw@);
    let mut out: Vec<TocEntry> = Vec::new();
    let mut k: usize = 0;
    assert(all.take(0) =~= Seq::<(Seq<char>, u32, u8)>::empty());
    while k < raw.len()
        invariant
            k <= raw.len(),
            all == toc_triples(raw@),
            out@.map_values(|e: TocEntry| toc_entry_view(e)) == first_occurrences(
                all.take(k as int),
            ),
        decreases raw.len() - k,
    {
        proof {
            lemma_take_last(all, k as int);
        }
        let mut seen = false;
        let mut j: usize = 0;
        while j < k
            invariant
                j <= k < raw.len(),
                all == toc_triples(raw@),
                seen == exists|m: int|
                    0 <= m < j && (#[trigger] all[m]).0 == all[k as int].0 && all[m].1 == all[
                        k as int
                    ].1,
            decreases k - j,
        {
            if raw[j].1 == raw[k].1 && chars_eq(&raw[j].0, &raw[k].0) {
                seen = true;
            }
            proof {
                if seen {
                    if !(raw@[j as int].1 == raw@[k as int].1 && raw@[j as int].0@
                        == raw@[k as int].0@) {
                        let m = choose|m: int|
                            0 <= m < j && (#[trigger] all[m]).0 == all[k as int].0 && all[m].1
                                == all[k as int].1;
                        assert(0 <= m < j + 1);
                    } else {
                        assert(all[j as int].0 == all[k as int].0);
                    }
                } else {
                    assert forall|m: int| 0 <= m < j + 1 implies !((#[trigger] all[m]).0
                        == all[k as int].0 && all[m].1 == all[k as int].1) by {
                        if m == j {
                            assert(all[m].0 == raw@[j as int].0@);
                        }
                    }
                }
            }
            j = j + 1;
        }
        proof {
            let t = all.take(k + 1);
            assert(t.last() == all[k as int]);
            if seen {
                let m = choose|m: int|
                    0 <= m < k && (#[trigger] all[m]).0 == all[k as int].0 && all[m].1 == all[
                        k as int
                    ].1;
                assert(t[m] == all[m]);
                assert(0 <= m < t.len() - 1 && (#[trigger] t[m]).0 == t.last().0 && t[m].1
                    == t.last().1);
            } else {
                assert forall|m: int| 0 <= m < t.len() - 1 implies !((#[trigger] t[m]).0
                    == t.last().0 && t[m].1 == t.last().1) by {
                    assert(t[m] == all[m]);
                }
            }
        }
        if !seen {
            let e = &raw[k];
            let entry = TocEntry { title: string_of(&e.0), page: e.1, depth: e.2 };
            assert(toc_entry_view(entry) == all[k as int]);
            proof {
                assert(out@.push(entry).map_values(|e: TocEntry| toc_entry_view(e)) =~= out@.map_values(
                    |e: TocEntry| toc_entry_view(e),
                ).push(toc_entry_view(entry)));
            }
            out.push(entry);
        }
        k = k + 1;
    }
    assert(all.take(k as int) =~= all);
    out
}

// ───────────────────────── Index detection ─────────────────────────

/// A back-of-book Index entry.
pub struct IndexEntry {
    pub term: String,
    pub pages: Vec<u32>,
}

pub open spec fn index_entry_view(e: IndexEntry) -> (Seq<char>, Seq<u32>) {
    (e.term@, e.pages@)
}

/// The parsed Index lines among `ls`.
pub open spec fn index_line_results(ls: Seq<Seq<char>>) -> Seq<(Seq<char>, Seq<u32>)>
    decreases ls.len(),
{
    if ls.len() == 0 {
        Seq::empty()
    } else {
        let prev = index_line_results(ls.drop_last());
        match parse_index_line_spec(ls.last()) {
            Some(e) => prev.push(e),
            None => prev,
        }
    }
}

/// The Index entries of a page: its parsed lines when there are at least eight.
pub open spec fn index_page_entries(text: Seq<char>) -> Seq<(Seq<char>, Seq<u32>)> {
    let c = index_line_results(lines(text));
    if c.len() >= INDEX_MIN_LINES {
        c
    } else {
        Seq::empty()
    }
}

pub open spec fn index_pages_entries(pages: Seq<PageExtraction>) -> Seq<(Seq<char>, Seq<u32>)>
    decreases pages.len(),
{
    if pages.len() == 0 {
        Seq::empty()
    } else {
        index_pages_entries(pages.drop_last()) + index_page_entries(pages.last().raw_text@)
    }
}

/// The last 25 pages.
pub open spec fn index_scan(pages: Seq<PageExtraction>) -> Seq<PageExtraction> {
    if pages.len() > INDEX_SCAN_PAGES {
        pages.skip(pages.len() - INDEX_SCAN_PAGES)
    } else {
        pages
    }
}

pub open spec fn strictly_increasing(s: Seq<u32>) -> bool {
    forall|i: int, j: int| 0 <= i < j < s.len() ==> s[i] < s[j]
}

/// Terms in strictly increasing order.
pub open spec fn merged_order(r: Seq<(Seq<char>, Seq<u32>)>) -> bool {
    forall|i: int, j: int| 0 <= i < j < r.len() ==> lex_lt(r[i].0, r[j].0)
}

/// Some entry's lowercased term is `k`.
pub open spec fn term_of_entry(raw: Seq<(Seq<char>, Seq<u32>)>, k: Seq<char>) -> bool {
    exists|e: int| 0 <= e < raw.len() && lowercase((#[trigger] raw[e]).0) == k
}

/// Some merged entry has term `k`.
pub open spec fn has_term(r: Seq<(Seq<char>, Seq<u32>)>, k: Seq<char>) -> bool {
    exists|i: int| 0 <= i < r.len() && (#[trigger] r[i]).0 == k
}

/// Every term is the lowercased term of some entry.
pub open spec fn merged_from(raw: Seq<(Seq<char>, Seq<u32>)>, r: Seq<(Seq<char>, Seq<u32>)>) -> bool {
    forall|i: int| 0 <= i < r.len() ==> term_of_entry(raw, (#[trigger] r[i]).0)
}

/// Every entry's lowercased term is a term.
pub open spec fn merged_complete(raw: Seq<(Seq<char>, Seq<u32>)>, r: Seq<(Seq<char>, Seq<u32>)>) -> bool {
    forall|e: int| 0 <= e < raw.len() ==> has_term(r, lowercase((#[trigger] raw[e]).0))
}

/// Page lists in strictly increasing order.
pub open spec fn merged_sorted_pages(r: Seq<(Seq<char>, Seq<u32>)>) -> bool {
    forall|i: int| 0 <= i < r.len() ==> strictly_increasing(#[trigger] r[i].1)
}

/// Some entry with lowercased term `k` lists page `p`.
pub open spec fn page_of_term(raw: Seq<(Seq<char>, Seq<u32>)>, k: Seq<char>, p: u32) -> bool {
    exists|e: int| 0 <= e < raw.len() && lowercase((#[trigger] raw[e]).0) == k && raw[e].1.contains(p)
}

/// Each term lists exactly the pages of its entries.
pub open spec fn merged_pages(raw: Seq<(Seq<char>, Seq<u32>)>, r: Seq<(Seq<char>, Seq<u32>)>) -> bool {
    forall|i: int, p: u32|
        0 <= i < r.len() ==> (#[trigger] r[i].1.contains(p) <==> page_of_term(raw, r[i].0, p))
}

/// `r` merges the entries `raw` under their lowercased terms: terms in
/// increasing order, one entry per distinct lowercased term, each with the
/// pages of all entries of that term, in increasing order without repeats.
pub open spec fn index_merged(raw: Seq<(Seq<char>, Seq<u32>)>, r: Seq<(Seq<char>, Seq<u32>)>) -> bool {
    &&& merged_order(r)
    &&& merged_from(raw, r)
    &&& merged_complete(raw, r)
    &&& merged_sorted_pages(r)
    &&& merged_pages(raw, r)
}

/// Inserts a page into an increasing page list unless present.
fn insert_page(v: &mut Vec<u32>, p: u32)
    requires
        strictly_increasing(old(v)@),
    ensures
        strictly_increasing(final(v)@),
        forall|x: u32| #[trigger] final(v)@.contains(x) <==> (old(v)@.contains(x) || x == p),
{
    let mut k: usize = 0;
    while k < v.len() && v[k] < p
        invariant
            k <= v.len(),
            v@ == old(v)@,
            forall|j: int| 0 <= j < k ==> v@[j] < p,
        decreases v.len() - k,
    {
        k = k + 1;
    }
    if k < v.len() && v[k] == p {
        assert forall|x: u32| v@.contains(x) <==> (old(v)@.contains(x) || x == p) by {
            if x == p {
                assert(v@[k as int] == x);
            }
        }
        return;
    }
    let ghost o = v@;
    assert(o == old(v)@);
    v.insert(k, p);
    assert forall|i: int, j: int| 0 <= i < j < v@.len() implies v@[i] < v@[j] by {
        if j < k {
        } else if j == k {
        } else if i < k {
            assert(v@[j] == o[j - 1]);
            assert(o[k as int] > p || k == o.len());
        } else if i == k {
            assert(v@[j] == o[j - 1]);
            assert(o[k as int] >= p);
            assert(o[k as int] != p);
            if j - 1 > k {
                assert(o[k as int] < o[j - 1]);
            }
        } else {
            assert(v@[i] == o[i - 1] && v@[j] == o[j - 1]);
        }
    }
    assert forall|x: u32| #[trigger] v@.contains(x) <==> (o.contains(x) || x == p) by {
        if v@.contains(x) {
            let i = choose|i: int| 0 <= i < v@.len() && #[trigger] v@[i] == x;
            if i < k {
                assert(o[i] == x);
            } else if i > k {
                assert(o[i - 1] == x);
            }
        }
        if o.contains(x) {
            let i = choose|i: int| 0 <= i < o.len() && #[trigger] o[i] == x;
            if i < k {
                assert(v@[i] == x);
            } else {
                assert(v@[i + 1] == x);
            }
        }
        if x == p {
            assert(v@[k as int] == x);
        }
    }
}

/// Inserts several pages.
fn insert_pages(v: &mut Vec<u32>, ps: &[u32])
    requires
        strictly_increasing(old(v)@),
    ensures
        strictly_increasing(final(v)@),
        forall|x: u32| #[trigger] final(v)@.contains(x) <==> (old(v)@.contains(x) || ps@.contains(x)),
{
    let ghost o = v@;
    let mut i: usize = 0;
    while i < ps.len()
        invariant
            i <= ps.len(),
            strictly_increasing(v@),
            forall|x: u32| #[trigger] v@.contains(x) <==> (o.contains(x) || ps@.take(i as int).contains(x)),
        decreases ps.len() - i,
    {
        let ghost before = v@;
        insert_page(v, ps[i]);
        assert forall|x: u32| ps@.take(i + 1).contains(x) <==> (ps@.take(i as int).contains(x) || x
            == ps@[i as int]) by {
            if ps@.take(i + 1).contains(x) {
                let j = choose|j: int| 0 <= j < i + 1 && #[trigger] ps@.take(i + 1)[j] == x;
                if j < i {
                    assert(ps@.take(i as int)[j] == x);
                }
            }
            if ps@.take(i as int).contains(x) {
                let j = choose|j: int| 0 <= j < i && #[trigger] ps@.take(i as int)[j] == x;
                assert(ps@.take(i + 1)[j] == x);
            }
            if x == ps@[i as int] {
                assert(ps@.take(i + 1)[i as int] == x);
            }
        }
        assert forall|x: u32| #[trigger] v@.contains(x) <==> (o.contains(x) || ps@.take(
            i + 1,
        ).contains(x)) by {
            assert(v@.contains(x) <==> (before.contains(x) || x == ps@[i as int]));
            assert(before.contains(x) <==> (o.contains(x) || ps@.take(i as int).contains(x)));
        }
        i = i + 1;
    }
    assert(ps@.take(i as int) =~= ps@);
}

spec fn iv(r: Seq<(Vec<char>, Vec<u32>)>) -> Seq<(Seq<char>, Seq<u32>)> {
    r.map_values(|e: (Vec<char>, Vec<u32>)| (e.0@, e.1@))
}

proof fn lemma_page_of_term_push(
    raw: Seq<(Seq<char>, Seq<u32>)>,
    e: (Seq<char>, Seq<u32>),
    k: Seq<char>,
    p: u32,
)
    ensures
        page_of_term(raw.push(e), k, p) <==> (page_of_term(raw, k, p) || (lowercase(e.0) == k
            && e.1.contains(p))),
{
    let raw2 = raw.push(e);
    if page_of_term(raw2, k, p) {
        let j = choose|j: int|
            0 <= j < raw2.len() && lowercase((#[trigger] raw2[j]).0) == k && raw2[j].1.contains(p);
        if j < raw.len() {
            assert(raw2[j] == raw[j]);
        }
    }
    if page_of_term(raw, k, p) {
        let j = choose|j: int|
            0 <= j < raw.len() && lowercase((#[trigger] raw[j]).0) == k && raw[j].1.contains(p);
        assert(raw2[j] == raw[j]);
    }
    if lowercase(e.0) == k && e.1.contains(p) {
        assert(raw2[raw.len() as int] == e);
    }
}

proof fn lemma_order_distinct(r: Seq<(Seq<char>, Seq<u32>)>, i: int, j: int)
    requires
        merged_order(r),
        0 <= i < r.len(),
        0 <= j < r.len(),
        i != j,
    ensures
        r[i].0 != r[j].0,
{
    lemma_lex_irreflexive(r[i].0);
    if i < j {
        assert(lex_lt(r[i].0, r[j].0));
    } else {
        assert(lex_lt(r[j].0, r[i].0));
    }
}

proof fn lemma_merge_existing(
    raw: Seq<(Seq<char>, Seq<u32>)>,
    r: Seq<(Seq<char>, Seq<u32>)>,
    e: (Seq<char>, Seq<u32>),
    pos: int,
    ps: Seq<u32>,
)
    requires
        index_merged(raw, r),
        0 <= pos < r.len(),
        r[pos].0 == lowercase(e.0),
        strictly_increasing(ps),
        forall|x: u32| #[trigger] ps.contains(x) <==> (r[pos].1.contains(x) || e.1.contains(x)),
    ensures
        index_merged(raw.push(e), r.update(pos, (r[pos].0, ps))),
{
    let raw2 = raw.push(e);
    let r2 = r.update(pos, (r[pos].0, ps));
    assert forall|i: int, j: int| 0 <= i < j < r2.len() implies lex_lt(r2[i].0, r2[j].0) by {
        assert(r2[i].0 == r[i].0 && r2[j].0 == r[j].0);
    }
    assert forall|i: int| 0 <= i < r2.len() implies term_of_entry(raw2, (#[trigger] r2[i]).0) by {
        assert(r2[i].0 == r[i].0);
        assert(term_of_entry(raw, r[i].0));
        let j = choose|j: int| 0 <= j < raw.len() && lowercase((#[trigger] raw[j]).0) == r[i].0;
        assert(raw2[j] == raw[j]);
    }
    assert forall|j: int| 0 <= j < raw2.len() implies has_term(r2, lowercase((#[trigger] raw2[j]).0)) by {
        if j < raw.len() {
            assert(raw2[j] == raw[j]);
            assert(has_term(r, lowercase(raw[j].0)));
            let i = choose|i: int| 0 <= i < r.len() && (#[trigger] r[i]).0 == lowercase(raw[j].0);
            assert(r2[i].0 == r[i].0);
        } else {
            assert(r2[pos].0 == lowercase(raw2[j].0));
        }
    }
    assert forall|i: int| 0 <= i < r2.len() implies strictly_increasing(#[trigger] r2[i].1) by {
        if i != pos {
            assert(r2[i] == r[i]);
        }
    }
    assert forall|i: int, p: u32| 0 <= i < r2.len() implies (#[trigger] r2[i].1.contains(p)
        <==> page_of_term(raw2, r2[i].0, p)) by {
        lemma_page_of_term_push(raw, e, r2[i].0, p);
        if i != pos {
            assert(r2[i] == r[i]);
            lemma_order_distinct(r, i, pos);
            assert(r[i].1.contains(p) <==> page_of_term(raw, r[i].0, p));
        } else {
            assert(r[pos].1.contains(p) <==> page_of_term(raw, r[pos].0, p));
            assert(ps.contains(p) <==> (r[pos].1.contains(p) || e.1.contains(p)));
        }
    }
}

proof fn lemma_insert_new(
    raw: Seq<(Seq<char>, Seq<u32>)>,
    r: Seq<(Seq<char>, Seq<u32>)>,
    e: (Seq<char>, Seq<u32>),
    pos: int,
    ps: Seq<u32>,
)
    requires
        index_merged(raw, r),
        0 <= pos <= r.len(),
        forall|i: int| 0 <= i < pos ==> lex_lt(#[trigger] r[i].0, lowercase(e.0)),
        pos < r.len() ==> lex_lt(lowercase(e.0), r[pos].0),
        strictly_increasing(ps),
        forall|x: u32| #[trigger] ps.contains(x) <==> e.1.contains(x),
    ensures
        index_merged(raw.push(e), r.insert(pos, (lowercase(e.0), ps))),
{
    let k0 = lowercase(e.0);
    let raw2 = raw.push(e);
    let r2 = r.insert(pos, (k0, ps));
    assert forall|i: int| 0 <= i < r.len() implies k0 != (#[trigger] r[i]).0 by {
        lemma_lex_irreflexive(k0);
        if i > pos {
            lemma_lex_transitive(k0, r[pos].0, r[i].0);
        }
    }
    assert forall|i: int, j: int| 0 <= i < j < r2.len() implies lex_lt(r2[i].0, r2[j].0) by {
        if j < pos {
        } else if j == pos {
        } else if i < pos {
            assert(r2[j] == r[j - 1]);
            if j - 1 > pos {
                lemma_lex_transitive(k0, r[pos].0, r[j - 1].0);
            }
            lemma_lex_transitive(r[i].0, k0, r[j - 1].0);
        } else if i == pos {
            assert(r2[j] == r[j - 1]);
            if j - 1 > pos {
                lemma_lex_transitive(k0, r[pos].0, r[j - 1].0);
            }
        } else {
            assert(r2[i] == r[i - 1] && r2[j] == r[j - 1]);
        }
    }
    assert forall|i: int| 0 <= i < r2.len() implies term_of_entry(raw2, (#[trigger] r2[i]).0) by {
        if i == pos {
            assert(raw2[raw.len() as int] == e);
        } else {
            let i0 = if i < pos {
                i
            } else {
                i - 1
            };
            assert(r2[i] == r[i0]);
            assert(term_of_entry(raw, r[i0].0));
            let j = choose|j: int| 0 <= j < raw.len() && lowercase((#[trigger] raw[j]).0) == r[i0].0;
            assert(raw2[j] == raw[j]);
        }
    }
    assert forall|j: int| 0 <= j < raw2.len() implies has_term(r2, lowercase((#[trigger] raw2[j]).0)) by {
        if j < raw.len() {
            assert(raw2[j] == raw[j]);
            assert(has_term(r, lowercase(raw[j].0)));
            let i = choose|i: int| 0 <= i < r.len() && (#[trigger] r[i]).0 == lowercase(raw[j].0);
            if i < pos {
                assert(r2[i] == r[i]);
            } else {
                assert(r2[i + 1] == r[i]);
            }
        } else {
            assert(r2[pos].0 == lowercase(raw2[j].0));
        }
    }
    assert forall|i: int| 0 <= i < r2.len() implies strictly_increasing(#[trigger] r2[i].1) by {
        if i < pos {
            assert(r2[i] == r[i]);
        } else if i > pos {
            assert(r2[i] == r[i - 1]);
        }
    }
    assert forall|i: int, p: u32| 0 <= i < r2.len() implies (#[trigger] r2[i].1.contains(p)
        <==> page_of_term(raw2, r2[i].0, p)) by {
        lemma_page_of_term_push(raw, e, r2[i].0, p);
        if i == pos {
            if page_of_term(raw, k0, p) {
                let j = choose|j: int|
                    0 <= j < raw.len() && lowercase((#[trigger] raw[j]).0) == k0 && raw[j].1.contains(
                        p,
                    );
                assert(has_term(r, lowercase(raw[j].0)));
                let i1 = choose|i1: int|
                    0 <= i1 < r.len() && (#[trigger] r[i1]).0 == lowercase(raw[j].0);
                assert(k0 != r[i1].0);
            }
        } else {
            let i0 = if i < pos {
                i
            } else {
                i - 1
            };
            assert(r2[i] == r[i0]);
            assert(k0 != r[i0].0);
            assert(r[i0].1.contains(p) <==> page_of_term(raw, r[i0].0, p));
        }
    }
}


/// The Index: the entries of the last 25 pages, merged under their
/// lowercased terms.
pub open spec fn detect_index_spec(pages: Seq<PageExtraction>, r: Seq<(Seq<char>, Seq<u32>)>) -> bool {
    index_merged(index_pages_entries(index_scan(pages)), r)
}

fn index_of_page(text: &[char]) -> (r: Vec<(Vec<char>, Vec<u32>)>)
    ensures
        iv(r@) == index_page_entries(text@),
{
    let ls = lines_of(text);
    let mut c: Vec<(Vec<char>, Vec<u32>)> = Vec::new();
    let mut i: usize = 0;
    assert(vs(ls@).take(0) =~= Seq::<Seq<char>>::empty());
    assert(iv(c@) =~= Seq::<(Seq<char>, Seq<u32>)>::empty());
    while i < ls.len()
        invariant
            i <= ls.len(),
            iv(c@) == index_line_results(vs(ls@).take(i as int)),
        decreases ls.len() - i,
    {
        proof {
            lemma_take_last(vs(ls@), i as int);
        }
        assert(vs(ls@)[i as int] == ls@[i as int]@);
        match parse_index_line_chars(&ls[i]) {
            Some(e) => {
                proof {
                    assert(iv(c@.push(e)) =~= iv(c@).push((e.0@, e.1@)));
                }
                c.push(e);
            },
            None => {},
        }
        i = i + 1;
    }
    assert(vs(ls@).take(i as int) =~= vs(ls@));
    if c.len() >= INDEX_MIN_LINES {
        c
    } else {
        let e: Vec<(Vec<char>, Vec<u32>)> = Vec::new();
        assert(iv(e@) =~= Seq::<(Seq<char>, Seq<u32>)>::empty());
        e
    }
}

/// The raw Index entries of the last 25 pages, in page and line order.
fn index_raw_entries(pages: &[PageExtraction]) -> (r: Vec<(Vec<char>, Vec<u32>)>)
    ensures
        iv(r@) == index_pages_entries(index_scan(pages@)),
{
    let scan_start: usize = if pages.len() > INDEX_SCAN_PAGES {
        pages.len() - INDEX_SCAN_PAGES
    } else {
        0
    };
    let ghost scan = pages@.skip(scan_start as int);
    assert(scan =~= index_scan(pages@));
    let mut raw: Vec<(Vec<char>, Vec<u32>)> = Vec::new();
    let mut i: usize = scan_start;
    assert(scan.take(0) =~= Seq::<PageExtraction>::empty());
    assert(iv(raw@) =~= Seq::<(Seq<char>, Seq<u32>)>::empty());
    while i < pages.len()
        invariant
            scan_start <= i <= pages.len(),
            scan == pages@.skip(scan_start as int),
            iv(raw@) == index_pages_entries(scan.take(i - scan_start)),
        decreases pages.len() - i,
    {
        proof {
            lemma_take_last(scan, i - scan_start);
        }
        assert(scan[i - scan_start] == pages@[i as int]);
        let text = chars_of(pages[i].raw_text.as_str());
        let mut es = index_of_page(&text);
        let ghost before = raw@;
        raw.append(&mut es);
        assert(iv(raw@) =~= iv(before) + index_page_entries(text@));
        i = i + 1;
    }
    assert(scan.take(i - scan_start) =~= scan);
    raw
}

/// Merges the raw entries under their lowercased terms.
fn merge_index(raw: &Vec<(Vec<char>, Vec<u32>)>) -> (r: Vec<(Vec<char>, Vec<u32>)>)
    ensures
        index_merged(iv(raw@), iv(r@)),
{
    let mut res: Vec<(Vec<char>, Vec<u32>)> = Vec::new();
    let mut k: usize = 0;
    assert(iv(raw@).take(0) =~= Seq::<(Seq<char>, Seq<u32>)>::empty());
    assert(iv(res@) =~= Seq::<(Seq<char>, Seq<u32>)>::empty());
    while k < raw.len()
        invariant
            k <= raw.len(),
            index_merged(iv(raw@).take(k as int), iv(res@)),
        decreases raw.len() - k,
    {
        let ghost before = iv(raw@).take(k as int);
        assert(iv(raw@).take(k + 1) =~= before.push(iv(raw@)[k as int]));
        let ghost e = iv(raw@)[k as int];
        let key = to_lowercase(&raw[k].0);
        assert(key@ == lowercase(e.0));
        let mut pos: usize = 0;
        while pos < res.len() && lex_less(&res[pos].0, &key)
            invariant
                pos <= res.len(),
                forall|i: int| 0 <= i < pos ==> lex_lt(#[trigger] iv(res@)[i].0, key@),
            decreases res.len() - pos,
        {
            pos = pos + 1;
        }
        let ghost r0 = iv(res@);
        if pos < res.len() && chars_eq(&res[pos].0, &key) {
            let mut ps = res[pos].1.clone();
            assert(ps@ =~= r0[pos as int].1);
            insert_pages(&mut ps, &raw[k].1);
            proof {
                lemma_merge_existing(before, r0, e, pos as int, ps@);
            }
            let old_key = res[pos].0.clone();
            assert(old_key@ =~= r0[pos as int].0);
            res.set(pos, (old_key, ps));
            assert(iv(res@) =~= r0.update(pos as int, (r0[pos as int].0, ps@)));
        } else {
            let mut ps: Vec<u32> = Vec::new();
            insert_pages(&mut ps, &raw[k].1);
            proof {
                if pos < res.len() {
                    lemma_lex_total(r0[pos as int].0, key@);
                }
                lemma_insert_new(before, r0, e, pos as int, ps@);
            }
            res.insert(pos, (key, ps));
            assert(iv(res@) =~= r0.insert(pos as int, (lowercase(e.0), ps@)));
        }
        k = k + 1;
    }
    assert(iv(raw@).take(k as int) =~= iv(raw@));
    res
}

/// The Index of a document.
fn detect_index(pages: &[PageExtraction]) -> (r: Vec<IndexEntry>)
    ensures
        detect_index_spec(pages@, r@.map_values(|e: IndexEntry| index_entry_view(e))),
{
    let raw = index_raw_entries(pages);
    let merged = merge_index(&raw);
    let mut out: Vec<IndexEntry> = Vec::new();
    let mut i: usize = 0;
    while i < merged.len()
        invariant
            i <= merged.len(),
            out@.map_values(|e: IndexEntry| index_entry_view(e)) == iv(merged@).take(i as int),
        decreases merged.len() - i,
    {
        let term = string_of(&merged[i].0);
        let mut pages_v: Vec<u32> = Vec::new();
        let mut j: usize = 0;
        while j < merged[i].1.len()
            invariant
                i < merged.len(),
                j <= merged[i as int].1.len(),
                pages_v@ == merged[i as int].1@.take(j as int),
            decreases merged[i as int].1.len() - j,
        {
            pages_v.push(merged[i].1[j]);
            j = j + 1;
        }
        assert(pages_v@ =~= merged[i as int].1@);
        let entry = IndexEntry { term, pages: pages_v };
        proof {
            assert(out@.push(entry).map_values(|e: IndexEntry| index_entry_view(e)) =~= out@.map_values(
                |e: IndexEntry| index_entry_view(e),
            ).push(index_entry_view(entry)));
            assert(iv(merged@).take(i + 1) =~= iv(merged@).take(i as int).push(iv(merged@)[i as int]));
        }
        out.push(entry);
        i = i + 1;
    }
    assert(iv(merged@).take(i as int) =~= iv(merged@));
    out
}


fn keys_of(pages: &HashMap<u32, String>) -> (v: Vec<u32>)
    ensures
        v@.to_set() == pages@.dom(),
        v@.no_duplicates(),
{
    broadcast use vstd::std_specs::hash::group_hash_axioms;
    let mut v: Vec<u32> = Vec::new();
    for k in it: pages.keys()
        invariant
            v@.len() == it.index(),
            it.index() <= it.seq().len(),
            it.seq().len() == pages@.dom().len(),
            forall|i: int| 0 <= i < v@.len() ==> v@[i] == *it.seq()[i],
            it.seq().unref().to_set() == pages@.dom(),
            it.seq().no_duplicates(),
            pages@.dom().finite(),
            forall|x: u32| v@.contains(x) ==> pages@.dom().contains(x),
    {
        proof {
            assert(it.seq().unref()[it.index()] == *k);
            assert(it.seq().unref().contains(*k));
            assert(pages@.dom().contains(*k));
        }
        let ghost before = v@;
        v.push(*k);
        proof {
            assert forall|x: u32| v@.contains(x) implies pages@.dom().contains(x) by {
                let i = choose|i: int| 0 <= i < v@.len() && v@[i] == x;
                if i < before.len() {
                    assert(before[i] == x);
                    assert(before.contains(x));
                } else {
                    assert(x == *k);
                }
            }
        }
    }
    proof {
        v@.unique_seq_to_set();
        assert(v@.to_set().subset_of(pages@.dom()));
        vstd::set_lib::lemma_subset_equality(v@.to_set(), pages@.dom());
    }
    v
}


/// Sorts distinct page numbers into increasing order.
fn sort_pages(v: &mut Vec<u32>)
    requires
        old(v)@.no_duplicates(),
    ensures
        strictly_increasing(final(v)@),
        final(v)@.to_set() == old(v)@.to_set(),
{
    let ghost s0 = v@;
    let mut i: usize = 1;
    if v.len() == 0 {
        return;
    }
    while i < v.len()
        invariant
            1 <= i <= v.len(),
            v@.len() == s0.len(),
            v@.to_set() == s0.to_set(),
            v@.no_duplicates(),
            strictly_increasing(v@.take(i as int)),
        decreases v.len() - i,
    {
        let mut j: usize = i;
        proof {
            assert forall|a: int, b: int| 0 <= a < b < i implies #[trigger] v@[a] < #[trigger] v@[b] by {
                assert(v@.take(i as int)[a] == v@[a] && v@.take(i as int)[b] == v@[b]);
            }
        }
        while j > 0 && v[j - 1] > v[j]
            invariant
                0 <= j <= i < v.len(),
                v@.len() == s0.len(),
                v@.to_set() == s0.to_set(),
                v@.no_duplicates(),
                forall|a: int, b: int| 0 <= a < b <= i && a != j && b != j ==> v@[a] < v@[b],
                forall|b: int| j < b <= i ==> v@[j as int] < v@[b],
            decreases j,
        {
            let ghost w = v@;
            let x = v[j - 1];
            let y = v[j];
            v.set(j - 1, y);
            v.set(j, x);
            proof {
                assert(v@ =~= w.update(j - 1, y).update(j as int, x));
                assert(v@.to_set() =~= w.to_set()) by {
                    assert forall|z: u32| v@.to_set().contains(z) <==> w.to_set().contains(z) by {
                        if v@.contains(z) {
                            let q = choose|q: int| 0 <= q < v@.len() && v@[q] == z;
                            if q == j - 1 {
                                assert(w[j as int] == z);
                            } else if q == j {
                                assert(w[j - 1] == z);
                            } else {
                                assert(w[q] == z);
                            }
                        }
                        if w.contains(z) {
                            let q = choose|q: int| 0 <= q < w.len() && w[q] == z;
                            if q == j - 1 {
                                assert(v@[j as int] == z);
                            } else if q == j {
                                assert(v@[j - 1] == z);
                            } else {
                                assert(v@[q] == z);
                            }
                        }
                    }
                }
                assert forall|a: int, b: int| 0 <= a <= i && 0 <= b <= i && a < b && a != j - 1 && b != j - 1 implies #[trigger] v@[a] < #[trigger] v@[b] by {
                    let fa = if a == j { j - 1 } else { a };
                    let fb = if b == j { j - 1 } else { b };
                    assert(w[fa] == v@[a] && w[fb] == v@[b]);
                    if b == j {
                        assert(fa < fb || fa == fb - 1 || true);
                    }
                }
                assert forall|b: int| j - 1 < b <= i implies v@[j - 1] < #[trigger] v@[b] by {
                    if b > j {
                        assert(w[b] == v@[b]);
                    }
                }
                assert forall|a: int, b: int| 0 <= a < b < v@.len() && v@[a] == v@[b] implies a == b by {
                    let fa = if a == j - 1 { j as int } else if a == j { j - 1 } else { a };
                    let fb = if b == j - 1 { j as int } else if b == j { j - 1 } else { b };
                    assert(w[fa] == v@[a] && w[fb] == v@[b]);
                }
            }
            j = j - 1;
        }
        proof {
            assert forall|a: int, b: int| 0 <= a < b < i + 1 implies #[trigger] v@[a] < #[trigger] v@[b] by {
                if a != j && b != j {
                } else if a == j {
                } else {
                    assert(v@[j - 1] != v@[j as int]);
                    if a < j - 1 {
                        assert(v@[a] < v@[j - 1]);
                    }
                }
            }
            assert(strictly_increasing(v@.take(i + 1)));
        }
        i = i + 1;
    }
    assert(v@.take(i as int) =~= v@);
}


// ───────────────────────── printed page offset ─────────────────────────

/// The first line of `ls` that is not blank, trimmed.
pub open spec fn first_content(ls: Seq<Seq<char>>) -> Option<Seq<char>>
    decreases ls.len(),
{
    if ls.len() == 0 {
        None
    } else if trim(ls[0]).len() > 0 {
        Some(trim(ls[0]))
    } else {
        first_content(ls.drop_first())
    }
}

/// The last line of `ls` that is not blank, trimmed.
pub open spec fn last_content(ls: Seq<Seq<char>>) -> Option<Seq<char>>
    decreases ls.len(),
{
    if ls.len() == 0 {
        None
    } else if trim(ls.last()).len() > 0 {
        Some(trim(ls.last()))
    } else {
        last_content(ls.drop_last())
    }
}

/// Some ToC entry points at printed page `p`.
pub open spec fn toc_has_page(toc: Seq<TocEntry>, p: u32) -> bool {
    exists|i: int| 0 <= i < toc.len() && (#[trigger] toc[i]).page == p
}

/// The offset that a header or footer line gives for a PDF page: the line
/// is a printed page number in 1..=30 that the ToC uses, and the offset
/// `pdf_page - printed` is not negative.
pub open spec fn footer_offset(pdf_page: u32, line: Seq<char>, toc: Seq<TocEntry>) -> Option<i32> {
    match parse_u32_spec(line) {
        Some(p) => if 0 < p <= 30 && toc_has_page(toc, p) && pdf_page < 0x8000_0000 && p
            <= pdf_page {
            Some((pdf_page - p) as i32)
        } else {
            None
        },
        None => None,
    }
}

/// The offset given by a page's first non-blank line, else by its last.
pub open spec fn page_footer_offset(pdf_page: u32, text: Seq<char>, toc: Seq<TocEntry>) -> Option<
    i32,
> {
    let ls = lines(text);
    match first_content(ls) {
        None => None,
        Some(f) => match footer_offset(pdf_page, f, toc) {
            Some(o) => Some(o),
            None => match last_content(ls) {
                Some(l) => footer_offset(pdf_page, l, toc),
                None => None,
            },
        },
    }
}

/// The offset of the first of the pages `ks` that gives one, else 0.
pub open spec fn scan_offsets(ks: Seq<u32>, pages: Map<u32, String>, toc: Seq<TocEntry>) -> i32
    decreases ks.len(),
{
    if ks.len() == 0 {
        0
    } else {
        match page_footer_offset(ks[0], pages[ks[0]]@, toc) {
            Some(o) => o,
            None => scan_offsets(ks.drop_first(), pages, toc),
        }
    }
}

/// At most the first 20 of `ks`.
pub open spec fn first_twenty(ks: Seq<u32>) -> Seq<u32> {
    if ks.len() > 20 {
        ks.take(20)
    } else {
        ks
    }
}

/// Whether `pdf_page - printed`, computed in `i32`, would overflow for a
/// candidate line: the PDF page number does not fit in `i32` and lies
/// less than `printed` above `i32::MAX`.
pub open spec fn offset_overflows(pdf_page: u32, line: Option<Seq<char>>, toc: Seq<TocEntry>) -> bool {
    match line {
        Some(l) => match parse_u32_spec(l) {
            Some(p) => 0 < p <= 30 && toc_has_page(toc, p) && 0x8000_0000 <= pdf_page
                < 0x8000_0000 + p,
            None => false,
        },
        None => false,
    }
}

/// Whether `detect_page_offset` reads page `pdf_page` without overflow: its
/// first non-blank line does not make the offset overflow, nor does its last
/// one when the first gives no offset.
pub open spec fn page_scan_safe(pdf_page: u32, text: Seq<char>, toc: Seq<TocEntry>) -> bool {
    let ls = lines(text);
    match first_content(ls) {
        None => true,
        Some(f) => !offset_overflows(pdf_page, Some(f), toc) && (footer_offset(pdf_page, f, toc) is Some
            || !offset_overflows(pdf_page, last_content(ls), toc)),
    }
}

/// The pages `ks` are read in order without overflow, up to the first one
/// that gives an offset.
pub open spec fn scan_safe(ks: Seq<u32>, pages: Map<u32, String>, toc: Seq<TocEntry>) -> bool
    decreases ks.len(),
{
    ks.len() == 0 || (page_scan_safe(ks[0], pages[ks[0]]@, toc) && (page_footer_offset(
        ks[0],
        pages[ks[0]]@,
        toc,
    ) is Some || scan_safe(ks.drop_first(), pages, toc)))
}

/// The pages that `detect_page_offset` reads (with a ToC: the first 20 by
/// number, up to the first that gives an offset) make no offset overflow.
pub open spec fn page_offset_safe(pages: Map<u32, String>, toc: Seq<TocEntry>) -> bool {
    toc.len() == 0 || forall|ks: Seq<u32>|
        strictly_increasing(ks) && ks.to_set() == pages.dom() ==> #[trigger] scan_safe(
            first_twenty(ks),
            pages,
            toc,
        )
}

/// Two increasing sequences with the same elements are the same.
proof fn lemma_sorted_unique(a: Seq<u32>, b: Seq<u32>)
    requires
        strictly_increasing(a),
        strictly_increasing(b),
        a.to_set() == b.to_set(),
    ensures
        a == b,
    decreases a.len(),
{
    if a.len() == 0 {
        if b.len() > 0 {
            assert(b.to_set().contains(b[0]));
            assert(a.to_set().contains(b[0]));
        }
        assert(a =~= b);
    } else {
        assert(a.to_set().contains(a[0]));
        assert(b.to_set().contains(a[0]));
        assert(b.len() > 0);
        assert(b.to_set().contains(b[0]));
        assert(a.to_set().contains(b[0]));
        let i = choose|i: int| 0 <= i < a.len() && a[i] == b[0];
        let j = choose|j: int| 0 <= j < b.len() && b[j] == a[0];
        assert(a[0] <= a[i]);
        assert(b[0] <= b[j]);
        assert(a[0] == b[0]);
        let a1 = a.drop_first();
        let b1 = b.drop_first();
        assert forall|x: u32| a1.to_set().contains(x) implies b1.to_set().contains(x) by {
            let k = choose|k: int| 0 <= k < a1.len() && a1[k] == x;
            assert(a[k + 1] == x);
            assert(a.to_set().contains(x));
            let m = choose|m: int| 0 <= m < b.len() && b[m] == x;
            assert(x != a[0]);
            assert(m != 0);
            assert(b1[m - 1] == x);
        }
        assert forall|x: u32| b1.to_set().contains(x) implies a1.to_set().contains(x) by {
            let k = choose|k: int| 0 <= k < b1.len() && b1[k] == x;
            assert(b[k + 1] == x);
            assert(b.to_set().contains(x));
            let m = choose|m: int| 0 <= m < a.len() && a[m] == x;
            assert(x != b[0]);
            assert(m != 0);
            assert(a1[m - 1] == x);
        }
        assert(a1.to_set() =~= b1.to_set());
        lemma_sorted_unique(a1, b1);
        assert forall|k: int| 0 <= k < a.len() implies a[k] == b[k] by {
            if k > 0 {
                assert(a[k] == a1[k - 1]);
                assert(b[k] == b1[k - 1]);
            }
        }
        assert(a =~= b);
    }
}

fn first_content_exec(ls: &Vec<Vec<char>>) -> (r: Option<Vec<char>>)
    ensures
        opt_chars(r) == first_content(vs(ls@)),
{
    let mut i: usize = 0;
    assert(vs(ls@).skip(0) =~= vs(ls@));
    while i < ls.len()
        invariant
            i <= ls.len(),
            first_content(vs(ls@)) == first_content(vs(ls@).skip(i as int)),
        decreases ls.len() - i,
    {
        let t = trimmed(&ls[i]);
        assert(vs(ls@).skip(i as int)[0] == ls@[i as int]@);
        if t.len() > 0 {
            return Some(t);
        }
        assert(vs(ls@).skip(i as int).drop_first() =~= vs(ls@).skip(i + 1));
        i = i + 1;
    }
    None
}

fn last_content_exec(ls: &Vec<Vec<char>>) -> (r: Option<Vec<char>>)
    ensures
        opt_chars(r) == last_content(vs(ls@)),
{
    let mut i: usize = ls.len();
    assert(vs(ls@).take(i as int) =~= vs(ls@));
    while i > 0
        invariant
            i <= ls.len(),
            last_content(vs(ls@)) == last_content(vs(ls@).take(i as int)),
        decreases i,
    {
        let t = trimmed(&ls[i - 1]);
        assert(vs(ls@).take(i as int).last() == ls@[i - 1]@);
        if t.len() > 0 {
            return Some(t);
        }
        assert(vs(ls@).take(i as int).drop_last() =~= vs(ls@).take(i - 1));
        i = i - 1;
    }
    None
}

fn toc_has_page_exec(toc: &[TocEntry], p: u32) -> (b: bool)
    ensures
        b == toc_has_page(toc@, p),
{
    let mut i: usize = 0;
    while i < toc.len()
        invariant
            i <= toc.len(),
            forall|j: int| 0 <= j < i ==> (#[trigger] toc@[j]).page != p,
        decreases toc.len() - i,
    {
        if toc[i].page == p {
            return true;
        }
        i = i + 1;
    }
    false
}

fn footer_offset_exec(pdf_page: u32, line: &[char], toc: &[TocEntry]) -> (r: Option<i32>)
    ensures
        r == footer_offset(pdf_page, line@, toc@),
{
    match parse_u32(line) {
        Some(p) => {
            if 0 < p && p <= 30 && toc_has_page_exec(toc, p) && pdf_page < 0x8000_0000 && p
                <= pdf_page {
                let o = pdf_page - p;
                Some(o as i32)
            } else {
                None
            }
        },
        None => None,
    }
}

fn page_footer_offset_exec(pdf_page: u32, text: &str, toc: &[TocEntry]) -> (r: Option<i32>)
    ensures
        r == page_footer_offset(pdf_page, text@, toc@),
{
    let chars = chars_of(text);
    let ls = lines_of(&chars);
    match first_content_exec(&ls) {
        None => None,
        Some(f) => match footer_offset_exec(pdf_page, &f, toc) {
            Some(o) => Some(o),
            None => match last_content_exec(&ls) {
                Some(l) => footer_offset_exec(pdf_page, &l, toc),
                None => None,
            },
        },
    }
}

/// The offset between PDF page positions (1-based) and the page numbers
/// printed in the book, to add to a ToC page number. The first 20 PDF
/// pages, by number, are scanned: the first page whose first (else last)
/// non-blank line is a printed page number in 1..=30 that the ToC uses
/// gives `pdf_page - printed`, when that is not negative. With no ToC, or
/// no such page, the offset is 0.
pub fn detect_page_offset(pages: &HashMap<u32, String>, toc: &[TocEntry]) -> (r: i32)
    requires
        page_offset_safe(pages@, toc@),
    ensures
        toc@.len() == 0 ==> r == 0,
        toc@.len() > 0 ==> exists|ks: Seq<u32>|
            strictly_increasing(ks) && ks.to_set() == pages@.dom() && r == scan_offsets(
                first_twenty(ks),
                pages@,
                toc@,
            ),
{
    broadcast use vstd::std_specs::hash::group_hash_axioms;
    if toc.len() == 0 {
        return 0;
    }
    let mut ks = keys_of(pages);
    sort_pages(&mut ks);
    let n: usize = if ks.len() > 20 {
        20
    } else {
        ks.len()
    };
    let ghost firsts = first_twenty(ks@);
    assert(firsts.len() == n);
    assert(firsts.skip(0) =~= firsts);
    let mut i: usize = 0;
    while i < n
        invariant
            i <= n == firsts.len(),
            firsts == first_twenty(ks@),
            strictly_increasing(ks@),
            ks@.to_set() == pages@.dom(),
            n <= ks@.len(),
            scan_offsets(firsts, pages@, toc@) == scan_offsets(firsts.skip(i as int), pages@, toc@),
        decreases n - i,
    {
        let k = ks[i];
        assert(firsts.skip(i as int)[0] == k);
        assert(ks@.contains(k));
        assert(pages@.dom().contains(k));
        match pages.get(&k) {
            Some(text) => {
                match page_footer_offset_exec(k, text.as_str(), toc) {
                    Some(o) => {
                        return o;
                    },
                    None => {},
                }
            },
            None => {},
        }
        assert(firsts.skip(i as int).drop_first() =~= firsts.skip(i + 1));
        i = i + 1;
    }
    0
}

/// The ToC and the Index found in the extracted pages; either may be empty.
pub fn detect_document_navigation(pages: &[PageExtraction]) -> (r: (Vec<TocEntry>, Vec<IndexEntry>))
    ensures
        r.0@.map_values(|e: TocEntry| toc_entry_view(e)) == detect_toc_spec(pages@),
        detect_index_spec(pages@, r.1@.map_values(|e: IndexEntry| index_entry_view(e))),
{
    let toc = detect_toc(pages);
    let index = detect_index(pages);
    (toc, index)
}


fn overflows_exec(pdf_page: u32, line: &Option<Vec<char>>, toc: &[TocEntry]) -> (b: bool)
    ensures
        b == offset_overflows(pdf_page, opt_chars(*line), toc@),
{
    match line {
        Some(l) => match parse_u32(l) {
            Some(p) => 0 < p && p <= 30 && toc_has_page_exec(toc, p) && 0x8000_0000u32 <= pdf_page
                && (pdf_page - 0x8000_0000u32) < p,
            None => false,
        },
        None => false,
    }
}

fn page_scan_safe_exec(pdf_page: u32, text: &str, toc: &[TocEntry]) -> (b: bool)
    ensures
        b == page_scan_safe(pdf_page, text@, toc@),
{
    let chars = chars_of(text);
    let ls = lines_of(&chars);
    let f = first_content_exec(&ls);
    match &f {
        None => true,
        Some(fl) => {
            if overflows_exec(pdf_page, &f, toc) {
                return false;
            }
            if footer_offset_exec(pdf_page, fl, toc).is_some() {
                return true;
            }
            let l = last_content_exec(&ls);
            !overflows_exec(pdf_page, &l, toc)
        },
    }
}

/// Whether `detect_page_offset` can take these pages: none of the pages it
/// reads makes its offset overflow.
pub fn page_offset_safe_exec(pages: &HashMap<u32, String>, toc: &[TocEntry]) -> (b: bool)
    ensures
        b == page_offset_safe(pages@, toc@),
{
    broadcast use vstd::std_specs::hash::group_hash_axioms;
    if toc.len() == 0 {
        return true;
    }
    let mut ks = keys_of(pages);
    sort_pages(&mut ks);
    let n: usize = if ks.len() > 20 {
        20
    } else {
        ks.len()
    };
    let ghost firsts = first_twenty(ks@);
    assert(firsts.len() == n);
    assert(firsts.skip(0) =~= firsts);
    let mut i: usize = 0;
    let mut ok = true;
    while i < n
        invariant_except_break
            ok,
        invariant
            i <= n == firsts.len(),
            firsts == first_twenty(ks@),
            strictly_increasing(ks@),
            ks@.to_set() == pages@.dom(),
            n <= ks@.len(),
            scan_safe(firsts, pages@, toc@) == scan_safe(firsts.skip(i as int), pages@, toc@),
        ensures
            scan_safe(firsts, pages@, toc@) == ok,
        decreases n - i,
    {
        let k = ks[i];
        assert(firsts.skip(i as int)[0] == k);
        assert(ks@.contains(k));
        assert(pages@.dom().contains(k));
        assert(firsts.skip(i as int).drop_first() =~= firsts.skip(i + 1));
        match pages.get(&k) {
            Some(text) => {
                if !page_scan_safe_exec(k, text.as_str(), toc) {
                    ok = false;
                    break;
                }
                if page_footer_offset_exec(k, text.as_str(), toc).is_some() {
                    break;
                }
            },
            None => {},
        }
        i = i + 1;
    }
    proof {
        if i == n {
            assert(firsts.skip(i as int).len() == 0);
        }
        assert forall|ks2: Seq<u32>| strictly_increasing(ks2) && ks2.to_set() == pages@.dom() implies #[trigger] scan_safe(
            first_twenty(ks2),
            pages@,
            toc@,
        ) == ok by {
            lemma_sorted_unique(ks2, ks@);
        }
        if !ok {
            assert(strictly_increasing(ks@) && ks@.to_set() == pages@.dom());
            assert(!scan_safe(first_twenty(ks@), pages@, toc@));
        }
    }
    ok
}

// ───────────────────────── laws ─────────────────────────

/// A ToC line gives a non-empty title, a page number of at least 1 and a
/// depth of at most 3.
pub proof fn toc_line_shape(line: Seq<char>)
    ensures
        parse_toc_line_spec(line) matches Some((t, p, d)) ==> t.len() > 0 && p >= 1 && d <= 3,
{
}

proof fn lemma_pages_positive(toks: Seq<Seq<char>>)
    ensures
        forall|i: int| 0 <= i < pages_of_tokens(toks).len() ==> #[trigger] pages_of_tokens(toks)[i] >= 1,
    decreases toks.len(),
{
    if toks.len() > 0 {
        let prev = pages_of_tokens(toks.drop_last());
        lemma_pages_positive(toks.drop_last());
        assert forall|i: int| 0 <= i < pages_of_tokens(toks).len() implies #[trigger] pages_of_tokens(toks)[i]
            >= 1 by {
            if i < prev.len() {
                assert(pages_of_tokens(toks)[i] == prev[i]);
            }
        }
    }
}

/// An Index line gives a term of at most 60 bytes without digits, and at
/// least one page, each at least 1.
pub proof fn index_line_shape(line: Seq<char>)
    ensures
        parse_index_line_spec(line) matches Some((t, ps)) ==> {
            &&& t.len() > 0
            &&& utf8_len(t) <= 60
            &&& !has_digit(t)
            &&& ps.len() > 0
            &&& forall|i: int| 0 <= i < ps.len() ==> ps[i] >= 1
        },
{
    let l = trim(line);
    if l.len() > 0 && alpha(l[0]) {
        match split_once(l, ',') {
            Some((t, raw)) => {
                lemma_pages_positive(split_with(raw, one_of(seq![','])));
            },
            None => {},
        }
    }
}

proof fn lemma_first_occurrences_distinct(s: Seq<(Seq<char>, u32, u8)>)
    ensures
        forall|i: int, j: int|
            0 <= i < j < first_occurrences(s).len() ==> !((#[trigger] first_occurrences(s)[i]).0
                == (#[trigger] first_occurrences(s)[j]).0 && first_occurrences(s)[i].1
                == first_occurrences(s)[j].1),
        forall|i: int|
            0 <= i < first_occurrences(s).len() ==> exists|k: int|
                0 <= k < s.len() && (#[trigger] first_occurrences(s)[i]) == s[k],
    decreases s.len(),
{
    if s.len() > 0 {
        let prev = s.drop_last();
        lemma_first_occurrences_distinct(prev);
        let fp = first_occurrences(prev);
        let e = s.last();
        assert forall|i: int| 0 <= i < first_occurrences(s).len() implies exists|k: int|
            0 <= k < s.len() && (#[trigger] first_occurrences(s)[i]) == s[k] by {
            if i < fp.len() {
                let k = choose|k: int| 0 <= k < prev.len() && fp[i] == prev[k];
                assert(s[k] == prev[k]);
            } else {
                assert(first_occurrences(s)[i] == s[s.len() - 1]);
            }
        }
        if !(exists|j: int| 0 <= j < s.len() - 1 && (#[trigger] s[j]).0 == e.0 && s[j].1 == e.1) {
            assert forall|i: int| 0 <= i < fp.len() implies !((#[trigger] fp[i]).0 == e.0 && fp[i].1 == e.1) by {
                let k = choose|k: int| 0 <= k < prev.len() && fp[i] == prev[k];
                assert(s[k] == prev[k]);
            }
        }
    }
}

/// The detected ToC holds each (title, page) pair at most once.
pub proof fn toc_pairs_distinct(pages: Seq<PageExtraction>)
    ensures
        forall|i: int, j: int|
            0 <= i < j < detect_toc_spec(pages).len() ==> !((#[trigger] detect_toc_spec(pages)[i]).0
                == (#[trigger] detect_toc_spec(pages)[j]).0 && detect_toc_spec(pages)[i].1
                == detect_toc_spec(pages)[j].1),
{
    let n = if pages.len() < TOC_SCAN_PAGES {
        pages.len()
    } else {
        TOC_SCAN_PAGES as nat
    };
    lemma_first_occurrences_distinct(toc_pages_entries(pages.take(n as int)));
}

/// The detected page offset is never negative.
pub proof fn page_offset_not_negative(ks: Seq<u32>, pages: Map<u32, String>, toc: Seq<TocEntry>)
    ensures
        scan_offsets(ks, pages, toc) >= 0,
    decreases ks.len(),
{
    if ks.len() > 0 {
        page_offset_not_negative(ks.drop_first(), pages, toc);
    }
}

// ───────────────────────── the ToC keeps every ToC page ─────────────────────────

/// The ToC entries of each page, in page order.
pub open spec fn page_toc_entries(pages: Seq<PageExtraction>) -> Seq<Seq<(Seq<char>, u32, u8)>> {
    pages.map_values(|p: PageExtraction| toc_page_entries(p.raw_text@))
}

/// The pages scanned for a ToC: the first 15.
pub open spec fn toc_scan_count(pages: Seq<PageExtraction>) -> int {
    if pages.len() < TOC_SCAN_PAGES {
        pages.len() as int
    } else {
        TOC_SCAN_PAGES as int
    }
}

proof fn lemma_entries_flatten(ps: Seq<PageExtraction>)
    ensures
        toc_pages_entries(ps) == page_toc_entries(ps).flatten_alt(),
    decreases ps.len(),
{
    if ps.len() > 0 {
        lemma_entries_flatten(ps.drop_last());
        assert(page_toc_entries(ps).drop_last() =~= page_toc_entries(ps.drop_last()));
    }
}

proof fn lemma_entry_member(ps: Seq<PageExtraction>, k: int, m: int)
    requires
        0 <= k < ps.len(),
        0 <= m < toc_page_entries(ps[k].raw_text@).len(),
    ensures
        exists|q: int| 0 <= q < toc_pages_entries(ps).len() && toc_pages_entries(ps)[q] == toc_page_entries(ps[k].raw_text@)[m],
    decreases ps.len(),
{
    let prev = toc_pages_entries(ps.drop_last());
    let last = toc_page_entries(ps.last().raw_text@);
    assert(toc_pages_entries(ps) == prev + last);
    if k == ps.len() - 1 {
        assert((prev + last)[prev.len() + m] == last[m]);
    } else {
        assert(ps.drop_last()[k] == ps[k]);
        lemma_entry_member(ps.drop_last(), k, m);
        let q = choose|q: int| 0 <= q < prev.len() && prev[q] == toc_page_entries(ps[k].raw_text@)[m];
        assert((prev + last)[q] == prev[q]);
    }
}

proof fn lemma_entry_source(ps: Seq<PageExtraction>, q: int)
    requires
        0 <= q < toc_pages_entries(ps).len(),
    ensures
        exists|k: int, m: int|
            0 <= k < ps.len() && 0 <= m < toc_page_entries(ps[k].raw_text@).len()
                && toc_pages_entries(ps)[q] == toc_page_entries(ps[k].raw_text@)[m],
    decreases ps.len(),
{
    let prev = toc_pages_entries(ps.drop_last());
    let last = toc_page_entries(ps.last().raw_text@);
    assert(toc_pages_entries(ps) == prev + last);
    if q >= prev.len() {
        let k = ps.len() - 1;
        let m = q - prev.len();
        assert(toc_pages_entries(ps)[q] == toc_page_entries(ps[k].raw_text@)[m]);
    } else {
        lemma_entry_source(ps.drop_last(), q);
        let (k, m) = choose|k: int, m: int|
            0 <= k < ps.drop_last().len() && 0 <= m < toc_page_entries(ps.drop_last()[k].raw_text@).len()
                && prev[q] == toc_page_entries(ps.drop_last()[k].raw_text@)[m];
        assert(ps.drop_last()[k] == ps[k]);
        assert(toc_pages_entries(ps)[q] == toc_page_entries(ps[k].raw_text@)[m]);
    }
}

proof fn lemma_first_occurrences_cover(s: Seq<(Seq<char>, u32, u8)>, k: int)
    requires
        0 <= k < s.len(),
    ensures
        exists|i: int| 0 <= i < first_occurrences(s).len() && first_occurrences(s)[i].0 == s[k].0
            && first_occurrences(s)[i].1 == s[k].1,
    decreases s.len(),
{
    let prev = s.drop_last();
    let fp = first_occurrences(prev);
    let e = s.last();
    let f = first_occurrences(s);
    let dup = exists|j: int| 0 <= j < s.len() - 1 && (#[trigger] s[j]).0 == e.0 && s[j].1 == e.1;
    assert(f == if dup { fp } else { fp.push(e) });
    if k < s.len() - 1 {
        assert(prev[k] == s[k]);
        lemma_first_occurrences_cover(prev, k);
        let i = choose|i: int| 0 <= i < fp.len() && fp[i].0 == prev[k].0 && fp[i].1 == prev[k].1;
        assert(f[i] == fp[i]);
    } else if dup {
        let j = choose|j: int| 0 <= j < s.len() - 1 && (#[trigger] s[j]).0 == e.0 && s[j].1 == e.1;
        assert(prev[j] == s[j]);
        lemma_first_occurrences_cover(prev, j);
        let i = choose|i: int| 0 <= i < fp.len() && fp[i].0 == prev[j].0 && fp[i].1 == prev[j].1;
        assert(f[i] == fp[i]);
    } else {
        assert(f[fp.len() as int] == e);
    }
}

/// Every ToC entry of each of the first 15 pages (a page with at least four
/// parsed ToC lines) appears in the detected ToC, by title and page.
pub proof fn toc_keeps_toc_page_entries(pages: Seq<PageExtraction>, k: int, m: int)
    requires
        0 <= k < toc_scan_count(pages),
        0 <= m < toc_page_entries(pages[k].raw_text@).len(),
    ensures
        exists|i: int|
            0 <= i < detect_toc_spec(pages).len() && detect_toc_spec(pages)[i].0
                == toc_page_entries(pages[k].raw_text@)[m].0 && detect_toc_spec(pages)[i].1
                == toc_page_entries(pages[k].raw_text@)[m].1,
{
    let n = toc_scan_count(pages);
    let ps = pages.take(n);
    let raw = toc_pages_entries(ps);
    assert(detect_toc_spec(pages) == first_occurrences(raw));
    assert(ps[k] == pages[k]);
    lemma_entry_member(ps, k, m);
    let q = choose|q: int| 0 <= q < raw.len() && raw[q] == toc_page_entries(ps[k].raw_text@)[m];
    lemma_first_occurrences_cover(raw, q);
}

/// Every entry of the detected ToC is a ToC entry of one of the first 15
/// pages.
pub proof fn toc_entries_come_from_toc_pages(pages: Seq<PageExtraction>, i: int)
    requires
        0 <= i < detect_toc_spec(pages).len(),
    ensures
        exists|k: int, m: int|
            0 <= k < toc_scan_count(pages) && 0 <= m < toc_page_entries(pages[k].raw_text@).len()
                && detect_toc_spec(pages)[i] == toc_page_entries(pages[k].raw_text@)[m],
{
    let n = toc_scan_count(pages);
    let ps = pages.take(n);
    let raw = toc_pages_entries(ps);
    assert(detect_toc_spec(pages) == first_occurrences(raw));
    lemma_first_occurrences_distinct(raw);
    let q = choose|q: int| 0 <= q < raw.len() && (#[trigger] first_occurrences(raw)[i]) == raw[q];
    lemma_entry_source(ps, q);
    let (k, m) = choose|k: int, m: int|
        0 <= k < ps.len() && 0 <= m < toc_page_entries(ps[k].raw_text@).len()
            && raw[q] == toc_page_entries(ps[k].raw_text@)[m];
    assert(ps[k] == pages[k]);
}

/// The raw ToC entries are the pages' ToC entries concatenated in page
/// order: each page gives its parsed ToC lines when it has at least four,
/// and nothing otherwise.
pub proof fn toc_collects_toc_pages(pages: Seq<PageExtraction>)
    ensures
        toc_pages_entries(pages) == page_toc_entries(pages).flatten(),
{
    lemma_entries_flatten(pages);
    page_toc_entries(pages).lemma_flatten_and_flatten_alt_are_equivalent();
}

/// The Index entries of each page, in page order.
pub open spec fn page_index_entries(pages: Seq<PageExtraction>) -> Seq<Seq<(Seq<char>, Seq<u32>)>> {
    pages.map_values(|p: PageExtraction| index_page_entries(p.raw_text@))
}

proof fn lemma_index_entries_flatten(ps: Seq<PageExtraction>)
    ensures
        index_pages_entries(ps) == page_index_entries(ps).flatten_alt(),
    decreases ps.len(),
{
    if ps.len() > 0 {
        lemma_index_entries_flatten(ps.drop_last());
        assert(page_index_entries(ps).drop_last() =~= page_index_entries(ps.drop_last()));
    }
}

/// The raw Index entries are the pages' Index entries concatenated in page
/// order: each page gives its parsed Index lines when it has at least
/// eight, and nothing otherwise.
pub proof fn index_collects_index_pages(pages: Seq<PageExtraction>)
    ensures
        index_pages_entries(pages) == page_index_entries(pages).flatten(),
{
    lemma_index_entries_flatten(pages);
    page_index_entries(pages).lemma_flatten_and_flatten_alt_are_equivalent();
}

} // verus!
