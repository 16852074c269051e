//! Splitting extracted pages into heading-delimited, size-bounded chunks.
use vstd::prelude::*;
use crate::error::GuideError;
use crate::extractor::PageExtraction;
use crate::text::{
    alpha, byte_len, chars_of, chars_within, decode_lossy, fits_within, floor_boundary,
    is_alphabetic, is_ascii_digit, is_digit, is_uppercase, lemma_chars_within,
    lemma_utf8_len_bounds, lemma_utf8_len_concat, lemma_utf8_len_is_encoding_len, lowercase,
    lossy_utf8, opt_chars, opt_str, slice_of, spend, string_of, suffix_start, to_lowercase, trim, trimmed, upper,
    utf8_len,
};
use crate::split::{
    has_prefix, has_suffix, join, join_with, lemma_take_last, lemma_vs_push, lines, lines_of, one_of,
    split_incl, split_inclusive_by, starts_with, strip_all_prefix, strip_all_prefix_exec, vs, words,
    words_of, CharClass,
};

verus! {

// ───────────────────────── overlap ─────────────────────────

/// The marker that introduces the text carried over from the previous chunk.
pub open spec fn overlap_marker() -> Seq<char> {
    "[continued from previous section]\n"@
}

/// Content preceded by the carried-over tail, when there is a non-empty one.
pub open spec fn prepend_overlap_spec(content: Seq<char>, tail: Option<Seq<char>>) -> Seq<char> {
    match tail {
        Some(t) if t.len() > 0 => overlap_marker() + t + "\n\n"@ + content,
        _ => content,
    }
}

/// The last `overlap` bytes of a text, widened to a character boundary;
/// the whole text when it is short; nothing for an empty text.
pub open spec fn tail_overlap_spec(content: Seq<char>, overlap: nat) -> Option<Seq<char>> {
    if content.len() == 0 {
        None
    } else if utf8_len(content) <= overlap {
        Some(content)
    } else {
        Some(content.skip(chars_within(content, (utf8_len(content) - overlap) as nat) as int))
    }
}

pub fn prepend_overlap_chars(content: &[char], tail: Option<Vec<char>>) -> (r: Vec<char>)
    ensures
        r@ == prepend_overlap_spec(content@, opt_chars(tail)),
{
    match tail {
        Some(t) if t.len() > 0 => {
            let mut r = chars_of("[continued from previous section]\n");
            crate::text::append_all(&mut r, &t);
            let sep = chars_of("\n\n");
            crate::text::append_all(&mut r, &sep);
            crate::text::append_all(&mut r, content);
            r
        },
        _ => slice_of(content, 0, content.len()),
    }
}

pub fn tail_overlap_chars(content: &[char], overlap: usize) -> (r: Option<Vec<char>>)
    ensures
        opt_chars(r) == tail_overlap_spec(content@, overlap as nat),
{
    if content.len() == 0 {
        None
    } else if fits_within(content, overlap) {
        Some(slice_of(content, 0, content.len()))
    } else {
        let k = suffix_start(content, overlap);
        proof {
            lemma_chars_within(content@, (utf8_len(content@) - overlap) as nat);
        }
        let r = slice_of(content, k, content.len());
        assert(r@ =~= content@.skip(k as int));
        Some(r)
    }
}

/// Prefixes `content` with the carried-over tail of the previous chunk.
pub fn prepend_overlap(content: &str, tail: Option<String>) -> (r: String)
    ensures
        r@ == prepend_overlap_spec(content@, opt_str(tail)),
{
    let c = chars_of(content);
    let t = match tail {
        Some(s) => Some(chars_of(s.as_str())),
        None => None,
    };
    let r = prepend_overlap_chars(&c, t);
    string_of(&r)
}

/// The tail of `content` that the next chunk repeats.
pub fn tail_overlap(content: &str, overlap: usize) -> (r: Option<String>)
    ensures
        opt_str(r) == tail_overlap_spec(content@, overlap as nat),
{
    let c = chars_of(content);
    match tail_overlap_chars(&c, overlap) {
        Some(t) => Some(string_of(&t)),
        None => None,
    }
}

// ───────────────────────── sentence splitting ─────────────────────────

/// Sentence terminators.
pub open spec fn sentence_ends() -> Seq<char> {
    seq!['.', '?', '!']
}

/// Chunks closed so far and the chunk being filled, after the given sentences.
pub open spec fn sentence_scan(pieces: Seq<Seq<char>>, max: nat) -> (Seq<Seq<char>>, Seq<char>)
    decreases pieces.len(),
{
    if pieces.len() == 0 {
        (Seq::empty(), Seq::empty())
    } else {
        let (chunks, cur) = sentence_scan(pieces.drop_last(), max);
        let p = pieces.last();
        if utf8_len(cur) + utf8_len(p) > max && cur.len() > 0 {
            (chunks.push(trim(cur)), p)
        } else {
            (chunks, cur + p)
        }
    }
}

/// Greedy packing of the sentences of `text` into trimmed chunks of at most
/// `max` bytes (a single sentence may exceed it).
pub open spec fn sentence_chunks(text: Seq<char>, max: nat) -> Seq<Seq<char>> {
    let (chunks, cur) = sentence_scan(split_incl(text, one_of(sentence_ends())), max);
    if trim(cur).len() > 0 {
        chunks.push(trim(cur))
    } else {
        chunks
    }
}

/// `[T]::chunks(n)` on bytes: consecutive pieces of `n` bytes, the last one shorter.
pub open spec fn byte_chunks(b: Seq<u8>, n: nat) -> Seq<Seq<u8>>
    decreases b.len(),
{
    if n == 0 || b.len() == 0 {
        Seq::empty()
    } else if b.len() <= n {
        seq![b]
    } else {
        seq![b.take(n as int)] + byte_chunks(b.skip(n as int), n)
    }
}

/// What `split_at_sentences` returns.
pub open spec fn split_at_sentences_spec(text: Seq<char>, max: nat) -> Seq<Seq<char>> {
    let c = sentence_chunks(text, max);
    if c.len() > 0 {
        c
    } else {
        byte_chunks(vstd::utf8::encode_utf8(text), max).map_values(|b: Seq<u8>| lossy_utf8(b))
    }
}

/// The inputs on which `split_at_sentences` would chunk by zero bytes.
pub open spec fn split_at_sentences_panics(text: Seq<char>, max: nat) -> bool {
    max == 0 && sentence_chunks(text, max).len() == 0
}

pub fn split_at_sentences_chars(text: &[char], max_chars: usize) -> (r: Vec<Vec<char>>)
    requires
        !split_at_sentences_panics(text@, max_chars as nat),
    ensures
        vs(r@) == split_at_sentences_spec(text@, max_chars as nat),
{
    let ends = crate::split::class_of3('.', '?', '!');
    let pieces = split_inclusive_by(text, &ends);
    let mut chunks: Vec<Vec<char>> = Vec::new();
    let mut current: Vec<char> = Vec::new();
    let mut i: usize = 0;
    while i < pieces.len()
        invariant
            i <= pieces.len(),
            vs(pieces@) == split_incl(text@, one_of(sentence_ends())),
            (vs(chunks@), current@) == sentence_scan(vs(pieces@).take(i as int), max_chars as nat),
        decreases pieces.len() - i,
    {
        proof {
            lemma_take_last(vs(pieces@), i as int);
        }
        let sentence = &pieces[i];
        assert(vs(pieces@)[i as int] == sentence@);
        let over = match spend(&current, max_chars) {
            Some(left) => !fits_within(sentence, left),
            None => true,
        };
        if over && current.len() > 0 {
            let t = trimmed(&current);
            proof {
                lemma_vs_push(chunks@, t);
            }
            chunks.push(t);
            current = slice_of(sentence, 0, sentence.len());
        } else {
            crate::text::append_all(&mut current, sentence);
        }
        assert((vs(chunks@), current@) == sentence_scan(
            vs(pieces@).take(i + 1),
            max_chars as nat,
        ));
        i = i + 1;
    }
    assert(vs(pieces@).take(i as int) =~= vs(pieces@));
    let t = trimmed(&current);
    if t.len() > 0 {
        proof {
            lemma_vs_push(chunks@, t);
        }
        chunks.push(t);
    }
    if chunks.len() == 0 {
        let s = string_of(text);
        let bytes = s.as_str().as_bytes();
        chunks = lossy_byte_chunks(bytes, max_chars);
    }
    chunks
}

/// Lossy decoding of each `n`-byte chunk of `b`.
fn lossy_byte_chunks(b: &[u8], n: usize) -> (r: Vec<Vec<char>>)
    requires
        n > 0,
    ensures
        vs(r@) == byte_chunks(b@, n as nat).map_values(|x: Seq<u8>| lossy_utf8(x)),
{
    let mut r: Vec<Vec<char>> = Vec::new();
    let mut start: usize = 0;
    assert(b@.skip(0) =~= b@);
    while start < b.len()
        invariant
            n > 0,
            start <= b.len(),
            byte_chunks(b@, n as nat).map_values(|x: Seq<u8>| lossy_utf8(x)) == vs(r@) + byte_chunks(
                b@.skip(start as int),
                n as nat,
            ).map_values(|x: Seq<u8>| lossy_utf8(x)),
        decreases b.len() - start,
    {
        let end = if b.len() - start <= n {
            b.len()
        } else {
            start + n
        };
        let piece = decode_lossy(&b[start..end]);
        proof {
            let rest = b@.skip(start as int);
            let m = |x: Seq<u8>| lossy_utf8(x);
            assert(b@.subrange(start as int, end as int) =~= if rest.len() <= n {
                rest
            } else {
                rest.take(n as int)
            });
            if rest.len() <= n {
                assert(b@.skip(end as int) =~= Seq::<u8>::empty());
                assert(byte_chunks(rest, n as nat) =~= seq![rest]);
            } else {
                assert(rest.skip(n as int) =~= b@.skip(end as int));
            }
            lemma_vs_push(r@, piece);
            assert(byte_chunks(rest, n as nat).map_values(m) =~= seq![piece@] + byte_chunks(
                b@.skip(end as int),
                n as nat,
            ).map_values(m));
            assert(vs(r@) + byte_chunks(rest, n as nat).map_values(m) =~= vs(r@).push(piece@)
                + byte_chunks(b@.skip(end as int), n as nat).map_values(m));
        }
        r.push(piece);
        start = end;
    }
    assert(byte_chunks(b@.skip(start as int), n as nat) =~= Seq::<Seq<u8>>::empty());
    assert(vs(r@) + Seq::<Seq<char>>::empty() =~= vs(r@));
    r
}

// ───────────────────────── heading detection ─────────────────────────

/// Keywords that open a section heading ("Chapter 3", "Part II", ...).
pub open spec fn section_keywords() -> Seq<Seq<char>> {
    seq!["chapter "@, "part "@, "act "@, "scene "@]
}

/// `n` bytes into `t` is a character boundary.
pub open spec fn on_boundary(t: Seq<char>, n: nat) -> bool {
    utf8_len(t.take(chars_within(t, n) as int)) == n
}

/// `lower` starts with the keyword `p` and the character of `t` that follows
/// the keyword's bytes is a digit or an uppercase letter.
pub open spec fn keyword_at(t: Seq<char>, lower: Seq<char>, p: Seq<char>) -> bool {
    &&& has_prefix(lower, p)
    &&& chars_within(t, utf8_len(p)) < t.len()
    &&& is_digit(t[chars_within(t, utf8_len(p)) as int]) || upper(
        t[chars_within(t, utf8_len(p)) as int],
    )
}

/// Number of alphabetic characters.
pub open spec fn alpha_count(w: Seq<char>) -> nat
    decreases w.len(),
{
    if w.len() == 0 {
        0
    } else {
        alpha_count(w.drop_last()) + if alpha(w.last()) {
            1nat
        } else {
            0nat
        }
    }
}

/// Every alphabetic character is uppercase.
pub open spec fn all_alpha_upper(w: Seq<char>) -> bool {
    forall|i: int| 0 <= i < w.len() && alpha(w[i]) ==> upper(w[i])
}

/// A word with at least five alphabetic characters, all uppercase.
pub open spec fn long_caps_word(w: Seq<char>) -> bool {
    alpha_count(w) >= 5 && all_alpha_upper(w)
}

/// An all-caps title such as "CASTLE RAVENLOFT".
pub open spec fn all_caps_title(t: Seq<char>) -> bool {
    &&& exists|i: int| 0 <= i < words(t).len() && long_caps_word(#[trigger] words(t)[i])
    &&& all_alpha_upper(t)
}

/// Whether `looks_like_heading` reaches its keyword test on this line.
pub open spec fn keyword_test_reached(t: Seq<char>) -> bool {
    &&& t.len() > 0
    &&& utf8_len(t) <= 80
    &&& !has_prefix(t, "## "@)
    &&& !has_prefix(t, "### "@)
}

/// What `looks_like_heading` decides for a line.
pub open spec fn looks_like_heading_spec(line: Seq<char>) -> bool {
    let t = trim(line);
    keyword_test_reached(t) && ((exists|i: int|
        0 <= i < 4 && keyword_at(t, lowercase(t), #[trigger] section_keywords()[i]))
        || all_caps_title(t))
}

/// The lines on which `looks_like_heading` would slice the line inside a
/// character: the lowercased line starts with a keyword whose byte length is
/// not a character boundary of the line.
pub open spec fn heading_slice_fails(line: Seq<char>) -> bool {
    let t = trim(line);
    keyword_test_reached(t) && exists|i: int|
        0 <= i < 4 && has_prefix(lowercase(t), #[trigger] section_keywords()[i]) && !on_boundary(
            t,
            utf8_len(section_keywords()[i]),
        )
}

proof fn lemma_alpha_count_step(w: Seq<char>, i: int)
    requires
        0 <= i < w.len(),
    ensures
        alpha_count(w.take(i + 1)) == alpha_count(w.take(i)) + if alpha(w[i]) {
            1nat
        } else {
            0nat
        },
{
    lemma_take_last(w, i);
}

/// Whether a word has at least five alphabetic characters, all uppercase.
fn is_long_caps_word(w: &[char]) -> (b: bool)
    ensures
        b == long_caps_word(w@),
{
    let mut count: usize = 0;
    let mut upper_ok = true;
    let mut i: usize = 0;
    while i < w.len()
        invariant
            i <= w.len(),
            count == alpha_count(w@.take(i as int)),
            count <= i,
            upper_ok == all_alpha_upper(w@.take(i as int)),
        decreases w.len() - i,
    {
        proof {
            lemma_alpha_count_step(w@, i as int);
            assert forall|j: int| 0 <= j < i implies w@.take(i + 1)[j] == w@.take(i as int)[j] by {}
            assert(w@.take(i + 1)[i as int] == w@[i as int]);
        }
        if is_alphabetic(w[i]) {
            count = count + 1;
            if !is_uppercase(w[i]) {
                upper_ok = false;
            }
        }
        i = i + 1;
    }
    assert(w@.take(i as int) =~= w@);
    count >= 5 && upper_ok
}

fn all_alpha_uppercase(w: &[char]) -> (b: bool)
    ensures
        b == all_alpha_upper(w@),
{
    let mut i: usize = 0;
    while i < w.len()
        invariant
            i <= w.len(),
            all_alpha_upper(w@.take(i as int)),
        decreases w.len() - i,
    {
        if is_alphabetic(w[i]) && !is_uppercase(w[i]) {
            return false;
        }
        assert forall|j: int| 0 <= j < i + 1 && alpha(#[trigger] w@.take(i + 1)[j]) implies upper(
            w@.take(i + 1)[j],
        ) by {
            if j < i {
                assert(w@.take(i + 1)[j] == w@.take(i as int)[j]);
            }
        }
        i = i + 1;
    }
    assert(w@.take(i as int) =~= w@);
    true
}

fn is_all_caps_title(t: &[char]) -> (b: bool)
    ensures
        b == all_caps_title(t@),
{
    let ws = words_of(t);
    let mut found = false;
    let mut i: usize = 0;
    while i < ws.len()
        invariant
            i <= ws.len(),
            vs(ws@) == words(t@),
            found == exists|j: int| 0 <= j < i && long_caps_word(#[trigger] words(t@)[j]),
        decreases ws.len() - i,
    {
        assert(vs(ws@)[i as int] == ws@[i as int]@);
        let l = is_long_caps_word(&ws[i]);
        if l {
            found = true;
        }
        proof {
            if found {
                if !l {
                    let j = choose|j: int| 0 <= j < i && long_caps_word(#[trigger] words(t@)[j]);
                    assert(0 <= j < i + 1 && long_caps_word(words(t@)[j]));
                } else {
                    assert(0 <= i < i + 1 && long_caps_word(words(t@)[i as int]));
                }
            } else {
                assert forall|j: int| 0 <= j < i + 1 implies !long_caps_word(
                    #[trigger] words(t@)[j],
                ) by {
                    if j < i {
                    }
                }
            }
        }
        i = i + 1;
    }
    found && all_alpha_uppercase(t)
}

/// Whether a trimmed, non-empty line of at most 80 bytes starts with the
/// keyword `p` followed by a digit or an uppercase letter.
fn keyword_heading(t: &[char], lower: &[char], p: &[char]) -> (b: bool)
    requires
        p@.len() <= 8,
        has_prefix(lower@, p@) ==> on_boundary(t@, utf8_len(p@)),
    ensures
        b == keyword_at(t@, lower@, p@),
{
    if !starts_with(lower, p) {
        return false;
    }
    proof {
        lemma_utf8_len_bounds(p@);
    }
    let n = byte_len(p);
    let k = floor_boundary(t, n);
    if k < t.len() {
        let c = t[k];
        is_ascii_digit(c) || is_uppercase(c)
    } else {
        false
    }
}

pub fn looks_like_heading_chars(line: &[char]) -> (b: bool)
    requires
        !heading_slice_fails(line@),
    ensures
        b == looks_like_heading_spec(line@),
{
    let t = trimmed(line);
    if t.len() == 0 || !fits_within(&t, 80) {
        return false;
    }
    let h2 = chars_of("## ");
    let h3 = chars_of("### ");
    if starts_with(&t, &h2) || starts_with(&t, &h3) {
        return false;
    }
    let lower = to_lowercase(&t);
    let kws: Vec<Vec<char>> = vec![
        chars_of("chapter "),
        chars_of("part "),
        chars_of("act "),
        chars_of("scene "),
    ];
    proof {
        reveal_strlit("chapter ");
        reveal_strlit("part ");
        reveal_strlit("act ");
        reveal_strlit("scene ");
        assert(vs(kws@) =~= section_keywords());
    }
    let mut keyword = false;
    let mut i: usize = 0;
    while i < 4
        invariant
            i <= 4,
            kws@.len() == 4,
            vs(kws@) == section_keywords(),
            forall|j: int| 0 <= j < 4 ==> (#[trigger] section_keywords()[j]).len() <= 8,
            !heading_slice_fails(line@),
            t@ == trim(line@),
            lower@ == lowercase(t@),
            keyword_test_reached(t@),
            keyword == exists|j: int|
                0 <= j < i && keyword_at(t@, lower@, #[trigger] section_keywords()[j]),
        decreases 4 - i,
    {
        assert(vs(kws@)[i as int] == kws@[i as int]@);
        assert(has_prefix(lower@, section_keywords()[i as int]) ==> on_boundary(
            t@,
            utf8_len(section_keywords()[i as int]),
        ));
        let hit = keyword_heading(&t, &lower, &kws[i]);
        if hit {
            keyword = true;
        }
        proof {
            if keyword && !hit {
                let j = choose|j: int|
                    0 <= j < i && keyword_at(t@, lower@, #[trigger] section_keywords()[j]);
                assert(0 <= j < i + 1 && keyword_at(t@, lower@, section_keywords()[j]));
            }
            if hit {
                assert(0 <= i < i + 1 && keyword_at(t@, lower@, section_keywords()[i as int]));
            }
        }
        i = i + 1;
    }
    keyword || is_all_caps_title(&t)
}

/// Plain-text heading detection: "Chapter 3: ...", "Part II", "Act 1",
/// "Scene 4", or an all-caps title with a word of five or more capitals.
pub fn looks_like_heading(line: &str) -> (b: bool)
    requires
        !heading_slice_fails(line@),
    ensures
        b == looks_like_heading_spec(line@),
{
    let v = chars_of(line);
    looks_like_heading_chars(&v)
}

// ───────────────────────── chunking ─────────────────────────

/// A chunk of document text ready for embedding.
pub struct DocumentChunk {
    pub content: String,
    pub page_range: (u32, u32),
    pub section_path: String,
}

/// A chunk as values.
pub struct ChunkModel {
    pub content: Seq<char>,
    pub page_range: (u32, u32),
    pub section_path: Seq<char>,
}

pub open spec fn chunk_model(c: DocumentChunk) -> ChunkModel {
    ChunkModel { content: c.content@, page_range: c.page_range, section_path: c.section_path@ }
}

pub open spec fn chunk_models(s: Seq<DocumentChunk>) -> Seq<ChunkModel> {
    s.map_values(|c: DocumentChunk| chunk_model(c))
}

/// A section found by the structural pass, before size-bounded splitting.
pub struct Candidate {
    pub content: Seq<char>,
    pub range: (u32, u32),
    pub path: Seq<char>,
}

/// State of the structural pass.
pub struct Pass1 {
    pub cands: Seq<Candidate>,
    pub stack: Seq<Seq<char>>,
    pub cur: Seq<Seq<char>>,
    pub start: u32,
    pub end: u32,
}

/// Heading titles joined into a breadcrumb.
pub open spec fn section_path_spec(stack: Seq<Seq<char>>) -> Seq<char> {
    join(stack, " > "@)
}

/// A line (already trimmed) that opens a new section.
pub open spec fn is_split_line(t: Seq<char>) -> bool {
    has_prefix(t, "## "@) || has_prefix(t, "### "@) || looks_like_heading_spec(t)
}

/// Candidates after closing the section in progress, if it has lines.
pub open spec fn flush(st: Pass1) -> Seq<Candidate> {
    if st.cur.len() > 0 {
        st.cands.push(
            Candidate {
                content: join(st.cur, "\n"@),
                range: (st.start, st.end),
                path: section_path_spec(st.stack),
            },
        )
    } else {
        st.cands
    }
}

/// The heading stack after the heading line `t`.
pub open spec fn next_stack(stack: Seq<Seq<char>>, t: Seq<char>) -> Seq<Seq<char>> {
    if has_prefix(t, "## "@) {
        seq![strip_all_prefix(t, "## "@)]
    } else if has_prefix(t, "### "@) {
        (if stack.len() > 1 {
            stack.take(1)
        } else {
            stack
        }).push(strip_all_prefix(t, "### "@))
    } else {
        seq![t]
    }
}

/// One line of page `page` through the structural pass.
pub open spec fn line_step(st: Pass1, page: u32, line: Seq<char>) -> Pass1 {
    let t = trim(line);
    if is_split_line(t) {
        Pass1 {
            cands: flush(st),
            stack: next_stack(st.stack, t),
            cur: Seq::empty(),
            start: page,
            end: page,
        }
    } else {
        Pass1 { cur: st.cur.push(line), end: page, ..st }
    }
}

pub open spec fn lines_step(st: Pass1, page: u32, ls: Seq<Seq<char>>) -> Pass1
    decreases ls.len(),
{
    if ls.len() == 0 {
        st
    } else {
        line_step(lines_step(st, page, ls.drop_last()), page, ls.last())
    }
}

pub open spec fn pages_step(st: Pass1, pages: Seq<PageExtraction>) -> Pass1
    decreases pages.len(),
{
    if pages.len() == 0 {
        st
    } else {
        let p = pages.last();
        lines_step(pages_step(st, pages.drop_last()), p.page_num, lines(p.raw_text@))
    }
}

pub open spec fn pass1_init() -> Pass1 {
    Pass1 { cands: Seq::empty(), stack: Seq::empty(), cur: Seq::empty(), start: 0, end: 0 }
}

/// Sections of the document; when no line lands in a section, the whole text
/// is one section spanning pages 0 to the last page number.
pub open spec fn candidates(pages: Seq<PageExtraction>) -> Seq<Candidate> {
    let c = flush(pages_step(pass1_init(), pages));
    if c.len() == 0 && pages.len() > 0 {
        seq![
            Candidate {
                content: join(pages.map_values(|p: PageExtraction| p.raw_text@), "\n\n"@),
                range: (0, pages.last().page_num),
                path: Seq::empty(),
            },
        ]
    } else {
        c
    }
}

/// State of the size-bounding pass.
pub struct Pass2 {
    pub chunks: Seq<ChunkModel>,
    pub tail: Option<Seq<char>>,
}

/// The sentence groups of an oversized section, each carrying the previous tail.
pub open spec fn subs_step(st: Pass2, subs: Seq<Seq<char>>, c: Candidate, overlap: nat) -> Pass2
    decreases subs.len(),
{
    if subs.len() == 0 {
        st
    } else {
        let prev = subs_step(st, subs.drop_last(), c, overlap);
        let content = prepend_overlap_spec(subs.last(), prev.tail);
        Pass2 {
            chunks: prev.chunks.push(
                ChunkModel { content, page_range: c.range, section_path: c.path },
            ),
            tail: tail_overlap_spec(content, overlap),
        }
    }
}

/// One section through the size-bounding pass.
pub open spec fn cand_step(st: Pass2, c: Candidate, max: nat, overlap: nat) -> Pass2 {
    if utf8_len(c.content) <= max {
        Pass2 {
            chunks: st.chunks.push(
                ChunkModel {
                    content: prepend_overlap_spec(c.content, st.tail),
                    page_range: c.range,
                    section_path: c.path,
                },
            ),
            tail: tail_overlap_spec(c.content, overlap),
        }
    } else {
        subs_step(st, split_at_sentences_spec(c.content, max), c, overlap)
    }
}

pub open spec fn cands_step(st: Pass2, cs: Seq<Candidate>, max: nat, overlap: nat) -> Pass2
    decreases cs.len(),
{
    if cs.len() == 0 {
        st
    } else {
        cand_step(cands_step(st, cs.drop_last(), max, overlap), cs.last(), max, overlap)
    }
}

/// The chunk budget: 1600 bytes unless given.
pub open spec fn effective_max(chunk_max_chars: nat) -> nat {
    if chunk_max_chars == 0 {
        1600
    } else {
        chunk_max_chars
    }
}

/// The overlap budget: 200 bytes unless given.
pub open spec fn effective_overlap(chunk_overlap_chars: nat) -> nat {
    if chunk_overlap_chars == 0 {
        200
    } else {
        chunk_overlap_chars
    }
}

/// The chunks of a document.
pub open spec fn chunk_document_spec(
    pages: Seq<PageExtraction>,
    chunk_max_chars: nat,
    chunk_overlap_chars: nat,
) -> Seq<ChunkModel> {
    cands_step(
        Pass2 { chunks: Seq::empty(), tail: None },
        candidates(pages),
        effective_max(chunk_max_chars),
        effective_overlap(chunk_overlap_chars),
    ).chunks
}

/// No line of the pages makes `looks_like_heading` slice inside a character.
pub open spec fn pages_heading_safe(pages: Seq<PageExtraction>) -> bool {
    forall|i: int, j: int|
        0 <= i < pages.len() && 0 <= j < lines(pages[i].raw_text@).len() ==> !heading_slice_fails(
            trim(#[trigger] lines(pages[i].raw_text@)[j]),
        )
}

struct SectionCandidate {
    content: Vec<char>,
    page_range: (u32, u32),
    section_path: Vec<char>,
}

spec fn cand_view(c: SectionCandidate) -> Candidate {
    Candidate { content: c.content@, range: c.page_range, path: c.section_path@ }
}

spec fn cand_views(s: Seq<SectionCandidate>) -> Seq<Candidate> {
    s.map_values(|c: SectionCandidate| cand_view(c))
}

spec fn pass1_view(
    cands: Seq<SectionCandidate>,
    stack: Seq<Vec<char>>,
    cur: Seq<Vec<char>>,
    start: u32,
    end: u32,
) -> Pass1 {
    Pass1 { cands: cand_views(cands), stack: vs(stack), cur: vs(cur), start, end }
}

/// The structural pass over all pages.
fn structural_pass(pages: &[PageExtraction]) -> (r: Vec<SectionCandidate>)
    requires
        pages_heading_safe(pages@),
    ensures
        cand_views(r@) == flush(pages_step(pass1_init(), pages@)),
{
    let h2 = chars_of("## ");
    let h3 = chars_of("### ");
    let nl = chars_of("\n");
    let sep = chars_of(" > ");
    let mut cands: Vec<SectionCandidate> = Vec::new();
    let mut stack: Vec<Vec<char>> = Vec::new();
    let mut cur: Vec<Vec<char>> = Vec::new();
    let mut start: u32 = 0;
    let mut end: u32 = 0;
    proof {
        assert(cand_views(cands@) =~= Seq::<Candidate>::empty());
        assert(vs(stack@) =~= Seq::<Seq<char>>::empty());
        assert(vs(cur@) =~= Seq::<Seq<char>>::empty());
        assert(pages@.take(0) =~= Seq::<PageExtraction>::empty());
    }
    let mut i: usize = 0;
    while i < pages.len()
        invariant
            i <= pages.len(),
            pages_heading_safe(pages@),
            h2@ == "## "@,
            h3@ == "### "@,
            nl@ == "\n"@,
            sep@ == " > "@,
            pass1_view(cands@, stack@, cur@, start, end) == pages_step(
                pass1_init(),
                pages@.take(i as int),
            ),
        decreases pages.len() - i,
    {
        let page = &pages[i];
        let page_num = page.page_num;
        let text = chars_of(page.raw_text.as_str());
        let ls = lines_of(&text);
        let ghost before = pass1_view(cands@, stack@, cur@, start, end);
        let mut j: usize = 0;
        assert(vs(ls@).take(0) =~= Seq::<Seq<char>>::empty());
        while j < ls.len()
            invariant
                i < pages.len(),
                j <= ls.len(),
                pages_heading_safe(pages@),
                page_num == pages@[i as int].page_num,
                vs(ls@) == lines(pages@[i as int].raw_text@),
                h2@ == "## "@,
                h3@ == "### "@,
                nl@ == "\n"@,
                sep@ == " > "@,
                pass1_view(cands@, stack@, cur@, start, end) == lines_step(
                    before,
                    page_num,
                    vs(ls@).take(j as int),
                ),
            decreases ls.len() - j,
        {
            proof {
                lemma_take_last(vs(ls@), j as int);
            }
            let line = &ls[j];
            assert(vs(ls@)[j as int] == line@);
            let t = trimmed(line);
            let is_h2 = starts_with(&t, &h2);
            let is_h3 = starts_with(&t, &h3);
            let split = if is_h2 || is_h3 {
                true
            } else {
                proof {
                    assert(!heading_slice_fails(trim(lines(pages@[i as int].raw_text@)[j as int])));
                    assert(t@ == trim(line@));
                }
                looks_like_heading_chars(&t)
            };
            let ghost st = pass1_view(cands@, stack@, cur@, start, end);
            if split {
                if cur.len() > 0 {
                    let content = join_with(&cur, &nl);
                    let path = join_with(&stack, &sep);
                    let c = SectionCandidate {
                        content,
                        page_range: (start, end),
                        section_path: path,
                    };
                    proof {
                        assert(cand_views(cands@.push(c)) =~= cand_views(cands@).push(cand_view(c)));
                    }
                    cands.push(c);
                }
                assert(cand_views(cands@) == flush(st));
                cur = Vec::new();
                if is_h2 {
                    let title = strip_all_prefix_exec(&t, &h2);
                    stack = vec![title];
                    assert(vs(stack@) =~= seq![title@]);
                } else if is_h3 {
                    if stack.len() > 1 {
                        stack.truncate(1);
                        assert(vs(stack@) =~= st.stack.take(1));
                    }
                    let title = strip_all_prefix_exec(&t, &h3);
                    proof {
                        lemma_vs_push(stack@, title);
                    }
                    stack.push(title);
                } else {
                    let title = t;
                    stack = vec![title];
                    assert(vs(stack@) =~= seq![title@]);
                }
                start = page_num;
                end = page_num;
                assert(vs(cur@) =~= Seq::<Seq<char>>::empty());
            } else {
                let l = slice_of(line, 0, line.len());
                assert(l@ =~= line@);
                proof {
                    lemma_vs_push(cur@, l);
                }
                cur.push(l);
                end = page_num;
            }
            assert(pass1_view(cands@, stack@, cur@, start, end) == line_step(st, page_num, line@));
            j = j + 1;
        }
        proof {
            assert(vs(ls@).take(j as int) =~= vs(ls@));
            lemma_take_last(pages@, i as int);
        }
        i = i + 1;
    }
    assert(pages@.take(i as int) =~= pages@);
    let ghost st = pass1_view(cands@, stack@, cur@, start, end);
    if cur.len() > 0 {
        let content = join_with(&cur, &nl);
        let path = join_with(&stack, &sep);
        let c = SectionCandidate { content, page_range: (start, end), section_path: path };
        proof {
            assert(cand_views(cands@.push(c)) =~= cand_views(cands@).push(cand_view(c)));
        }
        cands.push(c);
    }
    cands
}

/// Candidates, with the whole-document fallback.
fn all_candidates(pages: &[PageExtraction]) -> (r: Vec<SectionCandidate>)
    requires
        pages_heading_safe(pages@),
    ensures
        cand_views(r@) == candidates(pages@),
{
    let mut cands = structural_pass(pages);
    if cands.len() == 0 && pages.len() > 0 {
        let mut texts: Vec<Vec<char>> = Vec::new();
        let mut i: usize = 0;
        while i < pages.len()
            invariant
                i <= pages.len(),
                vs(texts@) == pages@.take(i as int).map_values(|p: PageExtraction| p.raw_text@),
            decreases pages.len() - i,
        {
            let t = chars_of(pages[i].raw_text.as_str());
            proof {
                lemma_vs_push(texts@, t);
                assert(pages@.take(i + 1).map_values(|p: PageExtraction| p.raw_text@) =~= pages@.take(
                    i as int,
                ).map_values(|p: PageExtraction| p.raw_text@).push(t@));
            }
            texts.push(t);
            i = i + 1;
        }
        assert(pages@.take(i as int) =~= pages@);
        let sep = chars_of("\n\n");
        let content = join_with(&texts, &sep);
        let last = pages[pages.len() - 1].page_num;
        let c = SectionCandidate { content, page_range: (0, last), section_path: Vec::new() };
        cands = vec![c];
        assert(cand_views(cands@) =~= candidates(pages@));
    }
    cands
}

/// Splits extracted pages into chunks: first at heading lines ("## ", "### ",
/// and plain-text headings), then, for sections longer than
/// `chunk_max_chars` bytes, at sentence ends. Each chunk after the first
/// repeats the last `chunk_overlap_chars` bytes of the previous one.
/// A budget of 0 selects the default (1600 and 200 bytes).
pub fn chunk_document(
    pages: &[PageExtraction],
    chunk_max_chars: usize,
    chunk_overlap_chars: usize,
) -> (r: Result<Vec<DocumentChunk>, GuideError>)
    requires
        pages_heading_safe(pages@),
    ensures
        r is Ok,
        r matches Ok(v) ==> chunk_models(v@) == chunk_document_spec(
            pages@,
            chunk_max_chars as nat,
            chunk_overlap_chars as nat,
        ),
{
    let chunk_max: usize = if chunk_max_chars == 0 {
        1600
    } else {
        chunk_max_chars
    };
    let overlap: usize = if chunk_overlap_chars == 0 {
        200
    } else {
        chunk_overlap_chars
    };
    let cands = all_candidates(pages);
    let mut chunks: Vec<DocumentChunk> = Vec::new();
    let mut prev_tail: Option<Vec<char>> = None;
    let ghost init = Pass2 { chunks: Seq::empty(), tail: None };
    assert(chunk_models(chunks@) =~= Seq::<ChunkModel>::empty());
    assert(cand_views(cands@).take(0) =~= Seq::<Candidate>::empty());
    let mut i: usize = 0;
    while i < cands.len()
        invariant
            i <= cands.len(),
            chunk_max as nat == effective_max(chunk_max_chars as nat),
            overlap as nat == effective_overlap(chunk_overlap_chars as nat),
            cand_views(cands@) == candidates(pages@),
            init == (Pass2 { chunks: Seq::empty(), tail: None }),
            (Pass2 { chunks: chunk_models(chunks@), tail: opt_chars(prev_tail) }) == cands_step(
                init,
                cand_views(cands@).take(i as int),
                chunk_max as nat,
                overlap as nat,
            ),
        decreases cands.len() - i,
    {
        proof {
            lemma_take_last(cand_views(cands@), i as int);
        }
        let cand = &cands[i];
        assert(cand_views(cands@)[i as int] == cand_view(*cand));
        let ghost st = Pass2 { chunks: chunk_models(chunks@), tail: opt_chars(prev_tail) };
        if fits_within(&cand.content, chunk_max) {
            let content = prepend_overlap_chars(&cand.content, prev_tail);
            prev_tail = tail_overlap_chars(&cand.content, overlap);
            let ch = DocumentChunk {
                content: string_of(&content),
                page_range: cand.page_range,
                section_path: string_of(&cand.section_path),
            };
            proof {
                assert(chunk_models(chunks@.push(ch)) =~= chunk_models(chunks@).push(
                    chunk_model(ch),
                ));
            }
            chunks.push(ch);
        } else {
            let subs = split_at_sentences_chars(&cand.content, chunk_max);
            let mut k: usize = 0;
            assert(vs(subs@).take(0) =~= Seq::<Seq<char>>::empty());
            while k < subs.len()
                invariant
                    k <= subs.len(),
                    vs(subs@) == split_at_sentences_spec(cand.content@, chunk_max as nat),
                    (Pass2 { chunks: chunk_models(chunks@), tail: opt_chars(prev_tail) })
                        == subs_step(st, vs(subs@).take(k as int), cand_view(*cand), overlap as nat),
                decreases subs.len() - k,
            {
                proof {
                    lemma_take_last(vs(subs@), k as int);
                }
                let sub = &subs[k];
                assert(vs(subs@)[k as int] == sub@);
                let content = prepend_overlap_chars(sub, prev_tail);
                prev_tail = tail_overlap_chars(&content, overlap);
                let ch = DocumentChunk {
                    content: string_of(&content),
                    page_range: cand.page_range,
                    section_path: string_of(&cand.section_path),
                };
                proof {
                    assert(chunk_models(chunks@.push(ch)) =~= chunk_models(chunks@).push(
                        chunk_model(ch),
                    ));
                }
                chunks.push(ch);
                k = k + 1;
            }
            assert(vs(subs@).take(k as int) =~= vs(subs@));
        }
        i = i + 1;
    }
    assert(cand_views(cands@).take(i as int) =~= cand_views(cands@));
    Ok(chunks)
}


/// Whether `n` bytes into `t` is a character boundary.
fn is_boundary(t: &[char], n: usize) -> (b: bool)
    ensures
        b == on_boundary(t@, n as nat),
{
    let k = floor_boundary(t, n);
    proof {
        lemma_chars_within(t@, n as nat);
    }
    let head = slice_of(t, 0, k);
    assert(head@ =~= t@.take(k as int));
    byte_len(&head) == n
}

/// Whether `looks_like_heading` would slice this line inside a character.
pub fn heading_slice_fails_exec(line: &[char]) -> (b: bool)
    ensures
        b == heading_slice_fails(line@),
{
    let t = trimmed(line);
    if t.len() == 0 || !fits_within(&t, 80) {
        return false;
    }
    let h2 = chars_of("## ");
    let h3 = chars_of("### ");
    if starts_with(&t, &h2) || starts_with(&t, &h3) {
        return false;
    }
    let lower = to_lowercase(&t);
    let kws: Vec<Vec<char>> = vec![
        chars_of("chapter "),
        chars_of("part "),
        chars_of("act "),
        chars_of("scene "),
    ];
    proof {
        reveal_strlit("chapter ");
        reveal_strlit("part ");
        reveal_strlit("act ");
        reveal_strlit("scene ");
        assert(vs(kws@) =~= section_keywords());
    }
    let mut fails = false;
    let mut i: usize = 0;
    while i < 4
        invariant
            i <= 4,
            kws@.len() == 4,
            vs(kws@) == section_keywords(),
            forall|j: int| 0 <= j < 4 ==> (#[trigger] section_keywords()[j]).len() <= 8,
            t@ == trim(line@),
            lower@ == lowercase(t@),
            fails == exists|j: int|
                0 <= j < i && has_prefix(lower@, #[trigger] section_keywords()[j]) && !on_boundary(
                    t@,
                    utf8_len(section_keywords()[j]),
                ),
        decreases 4 - i,
    {
        assert(vs(kws@)[i as int] == kws@[i as int]@);
        proof {
            lemma_utf8_len_bounds(kws@[i as int]@);
        }
        let hit = starts_with(&lower, &kws[i]) && !is_boundary(&t, byte_len(&kws[i]));
        if hit {
            fails = true;
        }
        proof {
            if fails && !hit {
                let j = choose|j: int|
                    0 <= j < i && has_prefix(lower@, #[trigger] section_keywords()[j])
                        && !on_boundary(t@, utf8_len(section_keywords()[j]));
                assert(0 <= j < i + 1 && has_prefix(lower@, section_keywords()[j]) && !on_boundary(
                    t@,
                    utf8_len(section_keywords()[j]),
                ));
            }
            if hit {
                assert(0 <= i < i + 1 && has_prefix(lower@, section_keywords()[i as int])
                    && !on_boundary(t@, utf8_len(section_keywords()[i as int])));
            }
        }
        i = i + 1;
    }
    fails
}

/// Whether every line of the pages can go through heading detection.
fn pages_heading_safe_exec(pages: &[PageExtraction]) -> (b: bool)
    ensures
        b == pages_heading_safe(pages@),
{
    let mut i: usize = 0;
    while i < pages.len()
        invariant
            i <= pages.len(),
            forall|a: int, j: int|
                0 <= a < i && 0 <= j < lines(pages@[a].raw_text@).len() ==> !heading_slice_fails(
                    trim(#[trigger] lines(pages@[a].raw_text@)[j]),
                ),
        decreases pages.len() - i,
    {
        let text = chars_of(pages[i].raw_text.as_str());
        let ls = lines_of(&text);
        let mut j: usize = 0;
        while j < ls.len()
            invariant
                i < pages.len(),
                j <= ls.len(),
                vs(ls@) == lines(pages@[i as int].raw_text@),
                forall|a: int, k: int|
                    0 <= a < i && 0 <= k < lines(pages@[a].raw_text@).len() ==> !heading_slice_fails(
                        trim(#[trigger] lines(pages@[a].raw_text@)[k]),
                    ),
                forall|k: int| 0 <= k < j ==> !heading_slice_fails(trim(#[trigger] vs(ls@)[k])),
            decreases ls.len() - j,
        {
            let t = trimmed(&ls[j]);
            assert(vs(ls@)[j as int] == ls@[j as int]@);
            if heading_slice_fails_exec(&t) {
                proof {
                    assert(!heading_slice_fails(trim(lines(pages@[i as int].raw_text@)[j as int]))
                        == false);
                }
                return false;
            }
            j = j + 1;
        }
        proof {
            assert forall|a: int, k: int|
                0 <= a < i + 1 && 0 <= k < lines(pages@[a].raw_text@).len() implies !heading_slice_fails(
                trim(#[trigger] lines(pages@[a].raw_text@)[k]),
            ) by {
                if a == i {
                    assert(vs(ls@)[k] == lines(pages@[a].raw_text@)[k]);
                }
            }
        }
        i = i + 1;
    }
    true
}

/// `chunk_document` on pages whose every line can go through heading
/// detection; `None`, without chunking, when a line cannot.
pub fn try_chunk_document(
    pages: &[PageExtraction],
    chunk_max_chars: usize,
    chunk_overlap_chars: usize,
) -> (r: Option<Result<Vec<DocumentChunk>, GuideError>>)
    ensures
        r is None <==> !pages_heading_safe(pages@),
        r matches Some(Ok(v)) ==> chunk_models(v@) == chunk_document_spec(
            pages@,
            chunk_max_chars as nat,
            chunk_overlap_chars as nat,
        ),
        r matches Some(res) ==> res is Ok,
{
    if pages_heading_safe_exec(pages) {
        Some(chunk_document(pages, chunk_max_chars, chunk_overlap_chars))
    } else {
        None
    }
}

/// Heading titles joined into a breadcrumb with " > ".
pub fn section_path(stack: &[String]) -> (r: String)
    ensures
        r@ == section_path_spec(stack@.map_values(|s: String| s@)),
{
    let mut parts: Vec<Vec<char>> = Vec::new();
    let mut i: usize = 0;
    while i < stack.len()
        invariant
            i <= stack.len(),
            vs(parts@) == stack@.take(i as int).map_values(|s: String| s@),
        decreases stack.len() - i,
    {
        let c = chars_of(stack[i].as_str());
        proof {
            lemma_vs_push(parts@, c);
            assert(stack@.take(i + 1).map_values(|s: String| s@) =~= stack@.take(i as int).map_values(
                |s: String| s@,
            ).push(c@));
        }
        parts.push(c);
        i = i + 1;
    }
    assert(stack@.take(i as int) =~= stack@);
    let sep = chars_of(" > ");
    let j = join_with(&parts, &sep);
    string_of(&j)
}

/// Greedy packing of sentences (ends `.`, `?`, `!`) into trimmed chunks of
/// at most `max_chars` bytes; with no sentence text, `max_chars`-byte
/// pieces of the text, decoded lossily.
pub fn split_at_sentences(text: &str, max_chars: usize) -> (r: Vec<String>)
    requires
        !split_at_sentences_panics(text@, max_chars as nat),
    ensures
        r@.map_values(|s: String| s@) == split_at_sentences_spec(text@, max_chars as nat),
{
    let v = chars_of(text);
    let parts = split_at_sentences_chars(&v, max_chars);
    let mut out: Vec<String> = Vec::new();
    let mut i: usize = 0;
    while i < parts.len()
        invariant
            i <= parts.len(),
            out@.map_values(|s: String| s@) == vs(parts@).take(i as int),
        decreases parts.len() - i,
    {
        let s = string_of(&parts[i]);
        proof {
            assert(out@.push(s).map_values(|s: String| s@) =~= out@.map_values(|s: String| s@).push(
                s@,
            ));
            assert(vs(parts@).take(i + 1) =~= vs(parts@).take(i as int).push(parts@[i as int]@));
        }
        out.push(s);
        i = i + 1;
    }
    assert(vs(parts@).take(i as int) =~= vs(parts@));
    out
}


/// `looks_like_heading` on a line that it can take; `None` when the line
/// would make it slice inside a character.
pub fn try_looks_like_heading(line: &str) -> (r: Option<bool>)
    ensures
        r is None <==> heading_slice_fails(line@),
        r matches Some(b) ==> b == looks_like_heading_spec(line@),
{
    let v = chars_of(line);
    if heading_slice_fails_exec(&v) {
        None
    } else {
        Some(looks_like_heading(line))
    }
}


// ───────────────────────── laws ─────────────────────────

/// Prepending the carried-over text keeps the chunk's own content at its end.
pub proof fn overlap_keeps_content(content: Seq<char>, tail: Option<Seq<char>>)
    ensures
        has_suffix(prepend_overlap_spec(content, tail), content),
        (tail matches Some(t) && t.len() > 0) ==> has_prefix(prepend_overlap_spec(content, tail), overlap_marker()),
{
    let r = prepend_overlap_spec(content, tail);
    assert(r.subrange(r.len() - content.len(), r.len() as int) =~= content);
    if tail matches Some(t) && t.len() > 0 {
        assert(r.subrange(0, overlap_marker().len() as int) =~= overlap_marker());
    }
}

/// The carried-over tail is a suffix of the text, at least `overlap` bytes
/// long unless it is the whole text.
pub proof fn tail_is_suffix(content: Seq<char>, overlap: nat)
    ensures
        tail_overlap_spec(content, overlap) matches Some(t) ==> {
            &&& has_suffix(content, t)
            &&& (t == content || utf8_len(t) >= overlap)
        },
        tail_overlap_spec(content, overlap) is None <==> content.len() == 0,
{
    if content.len() > 0 && utf8_len(content) > overlap {
        let b = (utf8_len(content) - overlap) as nat;
        lemma_chars_within(content, b);
        let k = chars_within(content, b) as int;
        crate::text::lemma_utf8_len_split(content, k);
        let t = content.skip(k);
        assert(content.subrange(content.len() - t.len(), content.len() as int) =~= t);
    } else if content.len() > 0 {
        assert(content.subrange(0, content.len() as int) =~= content);
    }
}

/// A size of 0 stands for the default: a chunk budget of 0 chunks as 1600
/// bytes would, an overlap of 0 as 200 bytes would, on every document.
pub proof fn zero_sizes_are_defaults(pages: Seq<PageExtraction>, max: nat, overlap: nat)
    ensures
        chunk_document_spec(pages, 0, overlap) == chunk_document_spec(pages, 1600, overlap),
        chunk_document_spec(pages, max, 0) == chunk_document_spec(pages, max, 200),
        chunk_document_spec(pages, 0, 0) == chunk_document_spec(pages, 1600, 200),
{
}


// ───────────────────────── sections and their pages ─────────────────────────

/// The lines of `page`, each tagged with the page number.
pub open spec fn tag_lines(page: u32, ls: Seq<Seq<char>>) -> Seq<(u32, Seq<char>)> {
    ls.map_values(|l: Seq<char>| (page, l))
}

/// Every line of the document in reading order, tagged with its page number.
pub open spec fn page_lines(pages: Seq<PageExtraction>) -> Seq<(u32, Seq<char>)>
    decreases pages.len(),
{
    if pages.len() == 0 {
        Seq::empty()
    } else {
        page_lines(pages.drop_last()) + tag_lines(pages.last().page_num, lines(pages.last().raw_text@))
    }
}

/// Line `j` is body text: it exists and opens no section.
pub open spec fn is_body_line(tl: Seq<(u32, Seq<char>)>, j: int) -> bool {
    0 <= j < tl.len() && !is_split_line(trim(tl[j].1))
}

/// The body lines directly followed by a heading line, in order.
pub open spec fn closed_section_ends(tl: Seq<(u32, Seq<char>)>) -> Seq<int>
    decreases tl.len(),
{
    if tl.len() < 2 {
        Seq::empty()
    } else {
        let prev = closed_section_ends(tl.drop_last());
        let j = tl.len() - 2;
        if is_body_line(tl, j) && !is_body_line(tl, j + 1) {
            prev.push(j)
        } else {
            prev
        }
    }
}

/// The last line of each run of body lines, in order: a body line followed
/// by a heading line or by the end of the document.
pub open spec fn section_last_lines(tl: Seq<(u32, Seq<char>)>) -> Seq<int> {
    if tl.len() > 0 && is_body_line(tl, tl.len() - 1) {
        closed_section_ends(tl).push(tl.len() - 1)
    } else {
        closed_section_ends(tl)
    }
}

/// The first line of the run of body lines that line `j` belongs to.
pub open spec fn section_first_line(tl: Seq<(u32, Seq<char>)>, j: int) -> int
    decreases j,
{
    if j <= 0 || !is_body_line(tl, j - 1) {
        j
    } else {
        section_first_line(tl, j - 1)
    }
}

/// The page a section starts on: that of the heading line before its first
/// body line, or 0 when no heading precedes it.
pub open spec fn section_start_page(tl: Seq<(u32, Seq<char>)>, j: int) -> u32 {
    let f = section_first_line(tl, j);
    if f == 0 {
        0
    } else {
        tl[f - 1].0
    }
}

/// The text lines of the run of body lines that ends at line `j`.
pub open spec fn section_body(tl: Seq<(u32, Seq<char>)>, j: int) -> Seq<Seq<char>> {
    tl.subrange(section_first_line(tl, j), j + 1).map_values(|x: (u32, Seq<char>)| x.1)
}

spec fn tagged_step(st: Pass1, tl: Seq<(u32, Seq<char>)>) -> Pass1
    decreases tl.len(),
{
    if tl.len() == 0 {
        st
    } else {
        line_step(tagged_step(st, tl.drop_last()), tl.last().0, tl.last().1)
    }
}

proof fn lemma_tagged_step_concat(st: Pass1, a: Seq<(u32, Seq<char>)>, b: Seq<(u32, Seq<char>)>)
    ensures
        tagged_step(st, a + b) == tagged_step(tagged_step(st, a), b),
    decreases b.len(),
{
    if b.len() == 0 {
        assert(a + b =~= a);
    } else {
        assert((a + b).drop_last() =~= a + b.drop_last());
        assert((a + b).last() == b.last());
        lemma_tagged_step_concat(st, a, b.drop_last());
    }
}

proof fn lemma_lines_step_tagged(st: Pass1, page: u32, ls: Seq<Seq<char>>)
    ensures
        lines_step(st, page, ls) == tagged_step(st, tag_lines(page, ls)),
    decreases ls.len(),
{
    if ls.len() > 0 {
        assert(tag_lines(page, ls).drop_last() =~= tag_lines(page, ls.drop_last()));
        lemma_lines_step_tagged(st, page, ls.drop_last());
    }
}

proof fn lemma_pages_step_tagged(pages: Seq<PageExtraction>)
    ensures
        pages_step(pass1_init(), pages) == tagged_step(pass1_init(), page_lines(pages)),
    decreases pages.len(),
{
    if pages.len() > 0 {
        let p = pages.last();
        lemma_pages_step_tagged(pages.drop_last());
        lemma_lines_step_tagged(pages_step(pass1_init(), pages.drop_last()), p.page_num, lines(p.raw_text@));
        lemma_tagged_step_concat(
            pass1_init(),
            page_lines(pages.drop_last()),
            tag_lines(p.page_num, lines(p.raw_text@)),
        );
    }
}

proof fn lemma_first_line_push(tl: Seq<(u32, Seq<char>)>, x: (u32, Seq<char>), j: int)
    requires
        0 <= j < tl.len(),
    ensures
        section_first_line(tl.push(x), j) == section_first_line(tl, j),
        0 <= section_first_line(tl, j) <= j,
    decreases j,
{
    if j > 0 {
        assert(tl.push(x)[j - 1] == tl[j - 1]);
        lemma_first_line_push(tl, x, j - 1);
    }
}

proof fn lemma_closed_ends_bounds(tl: Seq<(u32, Seq<char>)>)
    ensures
        forall|i: int| 0 <= i < closed_section_ends(tl).len() ==> 0 <= #[trigger] closed_section_ends(tl)[i] < tl.len() - 1,
    decreases tl.len(),
{
    if tl.len() >= 2 {
        let prev = closed_section_ends(tl.drop_last());
        lemma_closed_ends_bounds(tl.drop_last());
        let j = tl.len() - 2;
        assert forall|i: int| 0 <= i < closed_section_ends(tl).len() implies 0 <= #[trigger] closed_section_ends(tl)[i]
            < tl.len() - 1 by {
            if i < prev.len() {
                assert(prev[i] < tl.drop_last().len() - 1);
            }
        }
    }
}

/// The state of the structural pass after the lines `tl`.
proof fn lemma_pass_sections(tl: Seq<(u32, Seq<char>)>)
    ensures
        ({
            let st = tagged_step(pass1_init(), tl);
            let e = closed_section_ends(tl);
            &&& st.cands.len() == e.len()
            &&& forall|i: int| 0 <= i < e.len() ==> (#[trigger] st.cands[i]).range == (
                section_start_page(tl, e[i]),
                tl[e[i]].0,
            ) && st.cands[i].content == join(section_body(tl, e[i]), "\n"@)
            &&& (st.cur.len() > 0 <==> (tl.len() > 0 && is_body_line(tl, tl.len() - 1)))
            &&& st.cur.len() > 0 ==> {
                &&& st.end == tl[tl.len() - 1].0
                &&& st.start == section_start_page(tl, tl.len() - 1)
                &&& st.cur == section_body(tl, tl.len() - 1)
            }
        }),
    decreases tl.len(),
{
    if tl.len() > 0 {
        let prev = tl.drop_last();
        let n = tl.len() - 1;
        let x = tl.last();
        assert(prev.push(x) =~= tl);
        lemma_pass_sections(prev);
        lemma_closed_ends_bounds(prev);
        let ps = tagged_step(pass1_init(), prev);
        let st = tagged_step(pass1_init(), tl);
        let pe = closed_section_ends(prev);
        let e = closed_section_ends(tl);
        assert(st == line_step(ps, x.0, x.1));
        // earlier sections read the same in `tl` as in `prev`
        assert forall|i: int| 0 <= i < pe.len() implies section_start_page(tl, #[trigger] pe[i])
            == section_start_page(prev, pe[i]) && tl[pe[i]].0 == prev[pe[i]].0 && section_body(tl, pe[i])
            == section_body(prev, pe[i]) by {
            let j = pe[i];
            lemma_first_line_push(prev, x, j);
            let f = section_first_line(prev, j);
            if f > 0 {
                assert(tl[f - 1] == prev[f - 1]);
            }
            assert(tl.subrange(f, j + 1) =~= prev.subrange(f, j + 1));
        }
        if n > 0 {
            assert(is_body_line(tl, n - 1) == is_body_line(prev, n - 1));
            lemma_first_line_push(prev, x, n - 1);
            let f = section_first_line(prev, n - 1);
            if f > 0 {
                assert(tl[f - 1] == prev[f - 1]);
            }
            assert(tl.subrange(f, n) =~= prev.subrange(f, n));
        }
        if n >= 1 {
            assert(e == if is_body_line(tl, n - 1) && !is_body_line(tl, n) {
                pe.push(n - 1)
            } else {
                pe
            });
        } else {
            assert(e.len() == 0 && pe.len() == 0);
        }
        if is_split_line(trim(x.1)) {
            assert(!is_body_line(tl, n));
            if ps.cur.len() > 0 {
                assert(e == pe.push(n - 1));
                assert(st.cands == ps.cands.push(
                    Candidate { content: join(ps.cur, "\n"@), range: (ps.start, ps.end), path: section_path_spec(ps.stack) },
                ));
                assert forall|i: int| 0 <= i < e.len() implies (#[trigger] st.cands[i]).range == (
                    section_start_page(tl, e[i]),
                    tl[e[i]].0,
                ) && st.cands[i].content == join(section_body(tl, e[i]), "\n"@) by {
                    if i < pe.len() {
                        assert(e[i] == pe[i]);
                        assert(st.cands[i] == ps.cands[i]);
                    }
                }
            } else {
                assert(e == pe);
                assert forall|i: int| 0 <= i < e.len() implies (#[trigger] st.cands[i]).range == (
                    section_start_page(tl, e[i]),
                    tl[e[i]].0,
                ) && st.cands[i].content == join(section_body(tl, e[i]), "\n"@) by {
                    assert(st.cands[i] == ps.cands[i]);
                }
            }
        } else {
            assert(is_body_line(tl, n));
            assert(e == pe);
            assert(st.cands == ps.cands);
            assert forall|i: int| 0 <= i < e.len() implies (#[trigger] st.cands[i]).range == (
                section_start_page(tl, e[i]),
                tl[e[i]].0,
            ) && st.cands[i].content == join(section_body(tl, e[i]), "\n"@) by {
                assert(st.cands[i] == ps.cands[i]);
            }
            if ps.cur.len() > 0 {
                assert(section_first_line(tl, n) == section_first_line(tl, n - 1));
                let f = section_first_line(tl, n);
                assert(tl.subrange(f, n + 1) =~= tl.subrange(f, n).push(x));
                assert(section_body(tl, n) =~= section_body(tl, n - 1).push(x.1));
            } else {
                assert(section_first_line(tl, n) == n);
                assert(section_body(tl, n) =~= seq![x.1]);
                assert(ps.cur =~= Seq::<Seq<char>>::empty());
                assert(st.cur =~= seq![x.1]);
            }
        }
    }
}

/// Each section found by the structural pass is a run of body lines
/// (lines that are no heading) ended by a heading line or by the end of the
/// document; in order, one section per run. Its text is the run's lines
/// joined by newlines, and its page range runs from the page of the heading
/// that opened it (0 when none did) to the page of its last body line: a
/// section whose body goes on to later pages ends on the last of them.
pub proof fn sections_span_their_body_pages(pages: Seq<PageExtraction>)
    ensures
        ({
            let tl = page_lines(pages);
            let e = section_last_lines(tl);
            let cs = flush(pages_step(pass1_init(), pages));
            &&& cs.len() == e.len()
            &&& forall|i: int| 0 <= i < e.len() ==> (#[trigger] cs[i]).range == (
                section_start_page(tl, e[i]),
                tl[e[i]].0,
            ) && cs[i].content == join(section_body(tl, e[i]), "\n"@)
        }),
{
    let tl = page_lines(pages);
    lemma_pages_step_tagged(pages);
    lemma_pass_sections(tl);
    let st = tagged_step(pass1_init(), tl);
    let ce = closed_section_ends(tl);
    let e = section_last_lines(tl);
    let cs = flush(st);
    assert forall|i: int| 0 <= i < e.len() implies (#[trigger] cs[i]).range == (
        section_start_page(tl, e[i]),
        tl[e[i]].0,
    ) && cs[i].content == join(section_body(tl, e[i]), "\n"@) by {
        if i < ce.len() {
            assert(e[i] == ce[i]);
            assert(cs[i] == st.cands[i]);
        }
    }
}

proof fn lemma_subs_ranges(st: Pass2, subs: Seq<Seq<char>>, c: Candidate, overlap: nat)
    ensures
        ({
            let r = subs_step(st, subs, c, overlap).chunks;
            &&& r.len() == st.chunks.len() + subs.len()
            &&& forall|i: int| 0 <= i < st.chunks.len() ==> #[trigger] r[i] == st.chunks[i]
            &&& forall|i: int| st.chunks.len() <= i < r.len() ==> (#[trigger] r[i]).page_range == c.range
        }),
    decreases subs.len(),
{
    if subs.len() > 0 {
        lemma_subs_ranges(st, subs.drop_last(), c, overlap);
    }
}

proof fn lemma_cands_ranges(st: Pass2, cs: Seq<Candidate>, max: nat, overlap: nat)
    ensures
        ({
            let r = cands_step(st, cs, max, overlap).chunks;
            &&& r.len() >= st.chunks.len()
            &&& forall|i: int| 0 <= i < st.chunks.len() ==> #[trigger] r[i] == st.chunks[i]
            &&& forall|i: int| st.chunks.len() <= i < r.len() ==> exists|k: int|
                0 <= k < cs.len() && (#[trigger] r[i]).page_range == cs[k].range
        }),
    decreases cs.len(),
{
    if cs.len() > 0 {
        let prev = cands_step(st, cs.drop_last(), max, overlap);
        let c = cs.last();
        lemma_cands_ranges(st, cs.drop_last(), max, overlap);
        let r = cands_step(st, cs, max, overlap).chunks;
        if utf8_len(c.content) > max {
            lemma_subs_ranges(prev, split_at_sentences_spec(c.content, max), c, overlap);
        }
        assert forall|i: int| st.chunks.len() <= i < r.len() implies exists|k: int|
            0 <= k < cs.len() && (#[trigger] r[i]).page_range == cs[k].range by {
            if i < prev.chunks.len() {
                assert(r[i] == prev.chunks[i]);
                let k = choose|k: int| 0 <= k < cs.drop_last().len() && prev.chunks[i].page_range == cs.drop_last()[k].range;
                assert(cs.drop_last()[k] == cs[k]);
            } else {
                assert(r[i].page_range == cs[cs.len() - 1].range);
            }
        }
    }
}

/// Every chunk carries the page range of a section of the document: from
/// the page of the heading that opened it (0 when none did) to the page of
/// its last body line. A document with no section is one chunk sequence
/// spanning pages 0 to the last page's number.
pub proof fn chunks_carry_section_pages(pages: Seq<PageExtraction>, max: nat, overlap: nat)
    ensures
        ({
            let tl = page_lines(pages);
            let e = section_last_lines(tl);
            let r = chunk_document_spec(pages, max, overlap);
            forall|i: int| 0 <= i < r.len() ==> {
                ||| exists|k: int| 0 <= k < e.len() && (#[trigger] r[i]).page_range == (
                    section_start_page(tl, e[k]),
                    tl[e[k]].0,
                )
                ||| e.len() == 0 && pages.len() > 0 && r[i].page_range == (0u32, pages.last().page_num)
            }
        }),
{
    let tl = page_lines(pages);
    let e = section_last_lines(tl);
    let cs = candidates(pages);
    let r = chunk_document_spec(pages, max, overlap);
    sections_span_their_body_pages(pages);
    lemma_cands_ranges(Pass2 { chunks: Seq::empty(), tail: None }, cs, effective_max(max), effective_overlap(overlap));
    assert forall|i: int| 0 <= i < r.len() implies {
        ||| exists|k: int| 0 <= k < e.len() && (#[trigger] r[i]).page_range == (
            section_start_page(tl, e[k]),
            tl[e[k]].0,
        )
        ||| e.len() == 0 && pages.len() > 0 && r[i].page_range == (0u32, pages.last().page_num)
    } by {
        let k = choose|k: int| 0 <= k < cs.len() && r[i].page_range == cs[k].range;
        if e.len() > 0 {
            assert(cs[k].range == (section_start_page(tl, e[k]), tl[e[k]].0));
        }
    }
}

/// Chunk `ch` was cut from section `c` under budget `max`: it carries the
/// section's pages and path, and ends with the section's whole text when
/// that fits, or else with one of its sentence groups.
pub open spec fn cut_from(ch: ChunkModel, c: Candidate, max: nat) -> bool {
    &&& ch.page_range == c.range
    &&& ch.section_path == c.path
    &&& if utf8_len(c.content) <= max {
        has_suffix(ch.content, c.content)
    } else {
        exists|m: int|
            0 <= m < split_at_sentences_spec(c.content, max).len() && has_suffix(
                ch.content,
                #[trigger] split_at_sentences_spec(c.content, max)[m],
            )
    }
}

proof fn lemma_subs_cut(st: Pass2, subs: Seq<Seq<char>>, c: Candidate, max: nat, overlap: nat)
    requires
        utf8_len(c.content) > max,
        subs == split_at_sentences_spec(c.content, max),
    ensures
        ({
            let r = subs_step(st, subs, c, overlap).chunks;
            &&& r.len() == st.chunks.len() + subs.len()
            &&& forall|i: int| 0 <= i < st.chunks.len() ==> #[trigger] r[i] == st.chunks[i]
            &&& forall|i: int| st.chunks.len() <= i < r.len() ==> cut_from(#[trigger] r[i], c, max)
        }),
{
    lemma_subs_cut_upto(st, subs, subs.len() as int, c, max, overlap);
    assert(subs.take(subs.len() as int) =~= subs);
}

proof fn lemma_subs_cut_upto(st: Pass2, subs: Seq<Seq<char>>, n: int, c: Candidate, max: nat, overlap: nat)
    requires
        utf8_len(c.content) > max,
        subs == split_at_sentences_spec(c.content, max),
        0 <= n <= subs.len(),
    ensures
        ({
            let r = subs_step(st, subs.take(n), c, overlap).chunks;
            &&& r.len() == st.chunks.len() + n
            &&& forall|i: int| 0 <= i < st.chunks.len() ==> #[trigger] r[i] == st.chunks[i]
            &&& forall|i: int| st.chunks.len() <= i < r.len() ==> cut_from(#[trigger] r[i], c, max)
        }),
    decreases n,
{
    if n > 0 {
        lemma_subs_cut_upto(st, subs, n - 1, c, max, overlap);
        assert(subs.take(n).drop_last() =~= subs.take(n - 1));
        let prev = subs_step(st, subs.take(n - 1), c, overlap);
        let r = subs_step(st, subs.take(n), c, overlap).chunks;
        overlap_keeps_content(subs[n - 1], prev.tail);
        assert(cut_from(r[r.len() - 1], c, max));
        assert forall|i: int| st.chunks.len() <= i < r.len() implies cut_from(#[trigger] r[i], c, max) by {
            if i < r.len() - 1 {
                assert(r[i] == prev.chunks[i]);
            }
        }
    }
}

proof fn lemma_cands_cut(st: Pass2, cs: Seq<Candidate>, max: nat, overlap: nat)
    ensures
        ({
            let r = cands_step(st, cs, max, overlap).chunks;
            &&& r.len() >= st.chunks.len()
            &&& forall|i: int| 0 <= i < st.chunks.len() ==> #[trigger] r[i] == st.chunks[i]
            &&& forall|i: int| st.chunks.len() <= i < r.len() ==> exists|k: int|
                0 <= k < cs.len() && cut_from(#[trigger] r[i], cs[k], max)
        }),
    decreases cs.len(),
{
    if cs.len() > 0 {
        let prev = cands_step(st, cs.drop_last(), max, overlap);
        let c = cs.last();
        lemma_cands_cut(st, cs.drop_last(), max, overlap);
        let r = cands_step(st, cs, max, overlap).chunks;
        if utf8_len(c.content) > max {
            lemma_subs_cut(prev, split_at_sentences_spec(c.content, max), c, max, overlap);
        } else {
            overlap_keeps_content(c.content, prev.tail);
            assert(cut_from(r[r.len() - 1], c, max));
        }
        assert forall|i: int| st.chunks.len() <= i < r.len() implies exists|k: int|
            0 <= k < cs.len() && cut_from(#[trigger] r[i], cs[k], max) by {
            if i < prev.chunks.len() {
                assert(r[i] == prev.chunks[i]);
                let k = choose|k: int| 0 <= k < cs.drop_last().len() && cut_from(prev.chunks[i], cs.drop_last()[k], max);
                assert(cs.drop_last()[k] == cs[k]);
            } else {
                assert(cut_from(r[i], cs[cs.len() - 1], max));
            }
        }
    }
}

/// Every chunk is cut from one section of the document (see `candidates`):
/// it carries that section's page range and path, and after the text
/// carried over from the chunk before it, it holds the section's whole text
/// when that fits the budget, or else one of the section's sentence groups.
pub proof fn chunks_are_cut_from_sections(pages: Seq<PageExtraction>, max: nat, overlap: nat)
    ensures
        forall|i: int| 0 <= i < chunk_document_spec(pages, max, overlap).len() ==> exists|k: int|
            0 <= k < candidates(pages).len() && cut_from(
                #[trigger] chunk_document_spec(pages, max, overlap)[i],
                candidates(pages)[k],
                effective_max(max),
            ),
{
    lemma_cands_cut(
        Pass2 { chunks: Seq::empty(), tail: None },
        candidates(pages),
        effective_max(max),
        effective_overlap(overlap),
    );
}

/// A plain-text heading is a non-empty trimmed line of at most 80 bytes that
/// is no markdown heading, and either opens (lowercased) with "chapter ",
/// "part ", "act " or "scene " or has no lowercase letter; and every such
/// line with no lowercase letter and a word of at least five letters, all
/// uppercase, is a heading.
pub proof fn heading_shape(line: Seq<char>)
    ensures
        looks_like_heading_spec(line) ==> {
            let t = trim(line);
            &&& 0 < t.len()
            &&& utf8_len(t) <= 80
            &&& !has_prefix(t, "## "@)
            &&& !has_prefix(t, "### "@)
            &&& {
                ||| has_prefix(lowercase(t), "chapter "@)
                ||| has_prefix(lowercase(t), "part "@)
                ||| has_prefix(lowercase(t), "act "@)
                ||| has_prefix(lowercase(t), "scene "@)
                ||| forall|j: int| 0 <= j < t.len() && alpha(#[trigger] t[j]) ==> upper(t[j])
            }
        },
        ({
            let t = trim(line);
            &&& 0 < t.len()
            &&& utf8_len(t) <= 80
            &&& !has_prefix(t, "## "@)
            &&& !has_prefix(t, "### "@)
            &&& forall|j: int| 0 <= j < t.len() && alpha(#[trigger] t[j]) ==> upper(t[j])
            &&& exists|w: int|
                0 <= w < words(t).len() && alpha_count(#[trigger] words(t)[w]) >= 5 && forall|j: int|
                    0 <= j < words(t)[w].len() && alpha(#[trigger] words(t)[w][j]) ==> upper(words(t)[w][j])
        }) ==> looks_like_heading_spec(line),
{
    let t = trim(line);
    let kws = section_keywords();
    assert(kws[0] == "chapter "@ && kws[1] == "part "@ && kws[2] == "act "@ && kws[3] == "scene "@);
    if looks_like_heading_spec(line) {
        if exists|i: int| 0 <= i < 4 && keyword_at(t, lowercase(t), #[trigger] section_keywords()[i]) {
            let i = choose|i: int| 0 <= i < 4 && keyword_at(t, lowercase(t), #[trigger] section_keywords()[i]);
            assert(has_prefix(lowercase(t), kws[i]));
        }
    }
    if ({
        &&& 0 < t.len()
        &&& utf8_len(t) <= 80
        &&& !has_prefix(t, "## "@)
        &&& !has_prefix(t, "### "@)
        &&& forall|j: int| 0 <= j < t.len() && alpha(#[trigger] t[j]) ==> upper(t[j])
        &&& exists|w: int|
            0 <= w < words(t).len() && alpha_count(#[trigger] words(t)[w]) >= 5 && forall|j: int|
                0 <= j < words(t)[w].len() && alpha(#[trigger] words(t)[w][j]) ==> upper(words(t)[w][j])
    }) {
        let w = choose|w: int|
            0 <= w < words(t).len() && alpha_count(#[trigger] words(t)[w]) >= 5 && forall|j: int|
                0 <= j < words(t)[w].len() && alpha(#[trigger] words(t)[w][j]) ==> upper(words(t)[w][j]);
        assert(long_caps_word(words(t)[w]));
        assert(all_caps_title(t));
    }
}

} // verus!
