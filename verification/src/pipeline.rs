//! Ingestion helpers: embedding text, index paths, and the grouping of
//! chunks into chapters and size-bounded windows for story extraction.
use vstd::prelude::*;
use crate::chunker::DocumentChunk;
use crate::error::GuideError;
use crate::store::{campaign_collection_name, global_collection_name, GLOBAL_COLLECTION};
use crate::split::{has_prefix, has_suffix, join, join_with, lemma_take_last, lemma_vs_push, occurs_at, occurs_at_exec, starts_with, ends_with, vs};
use crate::text::{
    append_all, byte_len, chars_of, chars_within, floor_boundary, fits_within, lemma_chars_within,
    lemma_utf8_len_bounds, slice_of, string_of, trim, trimmed, utf8_len,
};

verus! {

/// Text sent to the embedding model is cut to this many bytes.
pub const EMBED_MAX_BYTES: usize = 8000;

/// `s` cut at the last character boundary at or before `max` bytes.
pub open spec fn cut_bytes(s: Seq<char>, max: nat) -> Seq<char> {
    if utf8_len(s) <= max {
        s
    } else {
        s.take(chars_within(s, max) as int)
    }
}

/// `v` cut at the last character boundary at or before `max` bytes.
pub fn cut_bytes_chars(v: &[char], max: usize) -> (r: Vec<char>)
    ensures
        r@ == cut_bytes(v@, max as nat),
{
    if fits_within(v, max) {
        slice_of(v, 0, v.len())
    } else {
        let k = floor_boundary(v, max);
        proof {
            lemma_chars_within(v@, max as nat);
        }
        slice_of(v, 0, k)
    }
}

/// Text for the embedding model: at most 8000 bytes, cut at a character
/// boundary.
pub fn truncate_for_embed(text: &str) -> (r: String)
    ensures
        r@ == cut_bytes(text@, 8000),
{
    let v = chars_of(text);
    let c = cut_bytes_chars(&v, EMBED_MAX_BYTES);
    string_of(&c)
}

/// `PathBuf::push` on Unix paths, as text: an absolute `p` replaces the
/// path; otherwise a `/` is added unless the path is empty or already ends
/// with one.
pub open spec fn path_push(base: Seq<char>, p: Seq<char>) -> Seq<char> {
    if has_prefix(p, "/"@) {
        p
    } else if base.len() == 0 || has_suffix(base, "/"@) {
        base + p
    } else {
        base + "/"@ + p
    }
}

/// The path of a scope's document index: `data/indexes/<scope>/meta.json`.
pub open spec fn meta_index_path_spec(scope: Seq<char>) -> Seq<char> {
    path_push(path_push("data/indexes"@, scope), "meta.json"@)
}

fn path_push_exec(base: &[char], p: &[char]) -> (r: Vec<char>)
    ensures
        r@ == path_push(base@, p@),
{
    let slash = chars_of("/");
    if starts_with(p, &slash) {
        slice_of(p, 0, p.len())
    } else if base.len() == 0 || ends_with(base, &slash) {
        let mut r = slice_of(base, 0, base.len());
        append_all(&mut r, p);
        r
    } else {
        let mut r = slice_of(base, 0, base.len());
        append_all(&mut r, &slash);
        append_all(&mut r, p);
        r
    }
}

/// The path, as text, of the document index of a scope (a campaign id or
/// "global").
pub fn meta_index_path(scope: &str) -> (r: String)
    ensures
        r@ == meta_index_path_spec(scope@),
{
    let base = chars_of("data/indexes");
    let s = chars_of(scope);
    let d = path_push_exec(&base, &s);
    let m = chars_of("meta.json");
    let f = path_push_exec(&d, &m);
    string_of(&f)
}

// ───────────────────────── chapters ─────────────────────────

/// Position of the first occurrence of `p` in `s` at or after `i`, or the
/// length of `s` when there is none.
pub open spec fn find_from(s: Seq<char>, p: Seq<char>, i: int) -> int
    decreases s.len() - i,
{
    if i >= s.len() {
        s.len() as int
    } else if occurs_at(s, p, i) {
        i
    } else {
        find_from(s, p, i + 1)
    }
}

/// The first piece of `s.split(p)` (a non-empty pattern).
pub open spec fn first_piece(s: Seq<char>, p: Seq<char>) -> Seq<char> {
    s.take(find_from(s, p, 0))
}

proof fn lemma_find_from_bounds(s: Seq<char>, p: Seq<char>, i: int)
    requires
        0 <= i,
    ensures
        i <= find_from(s, p, i) <= s.len() || (i > s.len() && find_from(s, p, i) == s.len()),
    decreases s.len() - i,
{
    if i < s.len() && !occurs_at(s, p, i) {
        lemma_find_from_bounds(s, p, i + 1);
    }
}

/// The chapter of a chunk: the first part of its section path, trimmed, or
/// "(Introduction)" when that is empty.
pub open spec fn chapter_name_spec(section_path: Seq<char>) -> Seq<char> {
    let t = trim(first_piece(section_path, " > "@));
    if t.len() == 0 {
        "(Introduction)"@
    } else {
        t
    }
}

fn first_piece_exec(v: &[char], p: &[char]) -> (r: Vec<char>)
    ensures
        r@ == first_piece(v@, p@),
{
    let mut i: usize = 0;
    while i < v.len() && !occurs_at_exec(v, p, i)
        invariant
            i <= v.len(),
            find_from(v@, p@, 0) == find_from(v@, p@, i as int),
        decreases v.len() - i,
    {
        i = i + 1;
    }
    slice_of(v, 0, i)
}

fn chapter_name_chars(section_path: &str) -> (r: Vec<char>)
    ensures
        r@ == chapter_name_spec(section_path@),
{
    let v = chars_of(section_path);
    let sep = chars_of(" > ");
    let first = first_piece_exec(&v, &sep);
    let t = trimmed(&first);
    if t.len() == 0 {
        chars_of("(Introduction)")
    } else {
        t
    }
}

/// The chapter a chunk belongs to.
pub fn chapter_name_of(chunk: &DocumentChunk) -> (r: String)
    ensures
        r@ == chapter_name_spec(chunk.section_path@),
{
    string_of(&chapter_name_chars(chunk.section_path.as_str()))
}

/// The chapter of each chunk.
pub open spec fn chapter_names(chunks: Seq<DocumentChunk>) -> Seq<Seq<char>> {
    chunks.map_values(|c: DocumentChunk| chapter_name_spec(c.section_path@))
}

/// Distinct chapter names in order of first appearance.
pub open spec fn chapter_order(names: Seq<Seq<char>>) -> Seq<Seq<char>>
    decreases names.len(),
{
    if names.len() == 0 {
        Seq::empty()
    } else {
        let prev = chapter_order(names.drop_last());
        if prev.contains(names.last()) {
            prev
        } else {
            prev.push(names.last())
        }
    }
}

/// The chunks of chapter `n`, in order.
pub open spec fn chapter_members(chunks: Seq<DocumentChunk>, n: Seq<char>) -> Seq<DocumentChunk>
    decreases chunks.len(),
{
    if chunks.len() == 0 {
        Seq::empty()
    } else {
        let prev = chapter_members(chunks.drop_last(), n);
        if chapter_name_spec(chunks.last().section_path@) == n {
            prev.push(chunks.last())
        } else {
            prev
        }
    }
}

/// Dereferenced chunks.
pub open spec fn derefs(v: Seq<&DocumentChunk>) -> Seq<DocumentChunk> {
    v.map_values(|c: &DocumentChunk| *c)
}

fn order_exec(names: &Vec<Vec<char>>) -> (r: Vec<Vec<char>>)
    ensures
        vs(r@) == chapter_order(vs(names@)),
{
    let mut out: Vec<Vec<char>> = Vec::new();
    let mut i: usize = 0;
    assert(vs(names@).take(0) =~= Seq::<Seq<char>>::empty());
    assert(vs(out@) =~= Seq::<Seq<char>>::empty());
    while i < names.len()
        invariant
            i <= names.len(),
            vs(out@) == chapter_order(vs(names@).take(i as int)),
        decreases names.len() - i,
    {
        proof {
            lemma_take_last(vs(names@), i as int);
        }
        assert(vs(names@)[i as int] == names@[i as int]@);
        let mut found = false;
        let mut j: usize = 0;
        while j < out.len()
            invariant
                i < names.len(),
                j <= out.len(),
                found == exists|k: int| 0 <= k < j && vs(out@)[k] == names@[i as int]@,
            decreases out.len() - j,
        {
            assert(vs(out@)[j as int] == out@[j as int]@);
            if crate::split::chars_eq(&out[j], &names[i]) {
                found = true;
            }
            j = j + 1;
        }
        proof {
            if found {
                let k = choose|k: int| 0 <= k < j && vs(out@)[k] == names@[i as int]@;
                assert(vs(out@).contains(names@[i as int]@));
            } else {
                assert(!vs(out@).contains(names@[i as int]@));
            }
        }
        if !found {
            let n = slice_of(&names[i], 0, names[i].len());
            assert(n@ =~= names@[i as int]@);
            proof {
                lemma_vs_push(out@, n);
            }
            out.push(n);
        }
        i = i + 1;
    }
    assert(vs(names@).take(i as int) =~= vs(names@));
    out
}

/// Chunks grouped by chapter (the first part of the section path), chapters
/// in order of first appearance, each with its chunks in order.
pub fn group_chunks_by_chapter(chunks: &[DocumentChunk]) -> (r: Vec<(String, Vec<&DocumentChunk>)>)
    ensures
        r@.map_values(|g: (String, Vec<&DocumentChunk>)| g.0@) == chapter_order(chapter_names(chunks@)),
        forall|k: int|
            0 <= k < r@.len() ==> derefs((#[trigger] r@[k]).1@) == chapter_members(chunks@, r@[k].0@),
{
    let mut names: Vec<Vec<char>> = Vec::new();
    let mut i: usize = 0;
    while i < chunks.len()
        invariant
            i <= chunks.len(),
            vs(names@) == chapter_names(chunks@.take(i as int)),
        decreases chunks.len() - i,
    {
        let n = chapter_name_chars(chunks[i].section_path.as_str());
        proof {
            lemma_vs_push(names@, n);
            assert(chapter_names(chunks@.take(i + 1)) =~= chapter_names(chunks@.take(i as int)).push(n@));
        }
        names.push(n);
        i = i + 1;
    }
    assert(chunks@.take(i as int) =~= chunks@);
    assert(names@.len() == chunks@.len());
    let order = order_exec(&names);
    let mut out: Vec<(String, Vec<&DocumentChunk>)> = Vec::new();
    let mut k: usize = 0;
    while k < order.len()
        invariant
            k <= order.len(),
            names@.len() == chunks@.len(),
            vs(names@) == chapter_names(chunks@),
            vs(order@) == chapter_order(chapter_names(chunks@)),
            out@.map_values(|g: (String, Vec<&DocumentChunk>)| g.0@) == vs(order@).take(k as int),
            forall|m: int|
                0 <= m < out@.len() ==> derefs((#[trigger] out@[m]).1@) == chapter_members(chunks@, out@[m].0@),
        decreases order.len() - k,
    {
        let mut members: Vec<&DocumentChunk> = Vec::new();
        let mut j: usize = 0;
        assert(derefs(members@) =~= Seq::<DocumentChunk>::empty());
        while j < chunks.len()
            invariant
                k < order.len(),
                j <= chunks.len(),
                names@.len() == chunks@.len(),
                vs(names@) == chapter_names(chunks@),
                derefs(members@) == chapter_members(chunks@.take(j as int), order@[k as int]@),
            decreases chunks.len() - j,
        {
            assert(chunks@.take(j + 1).drop_last() =~= chunks@.take(j as int));
            assert(vs(names@)[j as int] == names@[j as int]@);
            if crate::split::chars_eq(&names[j], &order[k]) {
                assert(derefs(members@.push(&chunks[j as int])) =~= derefs(members@).push(chunks@[j as int]));
                members.push(&chunks[j]);
            }
            j = j + 1;
        }
        assert(chunks@.take(j as int) =~= chunks@);
        let name = string_of(&order[k]);
        let ghost before = out@;
        out.push((name, members));
        proof {
            assert(out@.map_values(|g: (String, Vec<&DocumentChunk>)| g.0@) =~= before.map_values(
                |g: (String, Vec<&DocumentChunk>)| g.0@,
            ).push(name@));
            assert(vs(order@).take(k + 1) =~= vs(order@).take(k as int).push(order@[k as int]@));
            assert forall|m: int| 0 <= m < out@.len() implies derefs((#[trigger] out@[m]).1@)
                == chapter_members(chunks@, out@[m].0@) by {
                if m < before.len() {
                    assert(out@[m] == before[m]);
                }
            }
        }
        k = k + 1;
    }
    assert(vs(order@).take(k as int) =~= vs(order@));
    out
}


// ───────────────────────── windows ─────────────────────────

/// The contents of chunks.
pub open spec fn contents(v: Seq<&DocumentChunk>) -> Seq<Seq<char>> {
    v.map_values(|c: &DocumentChunk| c.content@)
}

/// The contents joined with blank lines.
pub open spec fn joined(v: Seq<&DocumentChunk>) -> Seq<char> {
    join(contents(v), "\n\n"@)
}

fn join_chars(chunks: &[&DocumentChunk]) -> (r: Vec<char>)
    ensures
        r@ == joined(chunks@),
{
    let mut parts: Vec<Vec<char>> = Vec::new();
    let mut i: usize = 0;
    while i < chunks.len()
        invariant
            i <= chunks.len(),
            vs(parts@) == contents(chunks@.take(i as int)),
        decreases chunks.len() - i,
    {
        let c = chars_of(chunks[i].content.as_str());
        proof {
            lemma_vs_push(parts@, c);
            assert(contents(chunks@.take(i + 1)) =~= contents(chunks@.take(i as int)).push(c@));
        }
        parts.push(c);
        i = i + 1;
    }
    assert(chunks@.take(i as int) =~= chunks@);
    let sep = chars_of("\n\n");
    join_with(&parts, &sep)
}

/// The chunks' contents joined with blank lines.
pub fn join_chunks(chunks: &[&DocumentChunk]) -> (r: String)
    ensures
        r@ == joined(chunks@),
{
    string_of(&join_chars(chunks))
}

/// The joined contents, cut to at most `max_chars` bytes at a character
/// boundary.
pub fn join_and_truncate(chunks: &[&DocumentChunk], max_chars: usize) -> (r: String)
    ensures
        r@ == cut_bytes(joined(chunks@), max_chars as nat),
{
    let j = join_chars(chunks);
    string_of(&cut_bytes_chars(&j, max_chars))
}

/// Windows closed so far (their sizes), and the size and byte length of the
/// window being filled.
pub struct WindowState {
    pub sizes: Seq<nat>,
    pub count: nat,
    pub bytes: nat,
}

/// One chunk of `len` bytes: a window that has chunks and would pass `max`
/// with it (and the blank line before it) is closed first.
pub open spec fn window_step(st: WindowState, len: nat, max: nat) -> WindowState {
    let st1 = if st.count > 0 && st.bytes + 2 + len > max {
        WindowState { sizes: st.sizes.push(st.count), count: 0, bytes: 0 }
    } else {
        st
    };
    WindowState {
        sizes: st1.sizes,
        count: st1.count + 1,
        bytes: if st1.count == 0 {
            len
        } else {
            st1.bytes + 2 + len
        },
    }
}

pub open spec fn window_steps(lens: Seq<nat>, max: nat) -> WindowState
    decreases lens.len(),
{
    if lens.len() == 0 {
        WindowState { sizes: Seq::empty(), count: 0, bytes: 0 }
    } else {
        window_step(window_steps(lens.drop_last(), max), lens.last(), max)
    }
}

/// Sizes of the windows of chunks of byte lengths `lens`.
pub open spec fn window_sizes(lens: Seq<nat>, max: nat) -> Seq<nat> {
    let st = window_steps(lens, max);
    if st.count > 0 {
        st.sizes.push(st.count)
    } else {
        st.sizes
    }
}

/// Byte lengths of the chunks' contents.
pub open spec fn content_lens(v: Seq<&DocumentChunk>) -> Seq<nat> {
    v.map_values(|c: &DocumentChunk| utf8_len(c.content@))
}

/// Total bytes of the chunks with a two-byte separator each.
pub open spec fn total_with_seps(lens: Seq<nat>) -> nat
    decreases lens.len(),
{
    if lens.len() == 0 {
        0
    } else {
        total_with_seps(lens.drop_last()) + lens.last() + 2
    }
}

/// The pieces, concatenated.
pub open spec fn flatten<T>(ws: Seq<Seq<T>>) -> Seq<T>
    decreases ws.len(),
{
    if ws.len() == 0 {
        Seq::empty()
    } else {
        flatten(ws.drop_last()) + ws.last()
    }
}

proof fn lemma_window_bytes(lens: Seq<nat>, max: nat)
    ensures
        window_steps(lens, max).bytes + 2 <= total_with_seps(lens) + 2,
        window_steps(lens, max).count == 0 ==> window_steps(lens, max).bytes == 0,
    decreases lens.len(),
{
    if lens.len() > 0 {
        lemma_window_bytes(lens.drop_last(), max);
    }
}

/// Splits a chapter's chunks into windows whose joined text fits in
/// `max_chars` bytes; a chunk larger than that gets a window of its own.
/// A chapter with chunks always gets at least one window (see
/// `windows_cover_chunks`); a chapter without chunks gets none, since a window
/// holds at least one chunk, and chapters are only formed around chunks.
pub fn windows_for_chapter<'a>(chunks: &[&'a DocumentChunk], max_chars: usize) -> (r: Vec<
    Vec<&'a DocumentChunk>,
>)
    requires
        total_with_seps(content_lens(chunks@)) <= usize::MAX,
    ensures
        flatten(r@.map_values(|w: Vec<&'a DocumentChunk>| w@)) == chunks@,
        r@.map_values(|w: Vec<&'a DocumentChunk>| w@.len()) == window_sizes(
            content_lens(chunks@),
            max_chars as nat,
        ),
{
    let ghost lens = content_lens(chunks@);
    let mut windows: Vec<Vec<&'a DocumentChunk>> = Vec::new();
    let mut current: Vec<&'a DocumentChunk> = Vec::new();
    let mut current_len: usize = 0;
    let mut i: usize = 0;
    assert(lens.take(0) =~= Seq::<nat>::empty());
    assert(chunks@.take(0) =~= Seq::<&DocumentChunk>::empty());
    assert(windows@.map_values(|w: Vec<&'a DocumentChunk>| w@) =~= Seq::<Seq<&DocumentChunk>>::empty());
    assert(windows@.map_values(|w: Vec<&'a DocumentChunk>| w@.len()) =~= Seq::<nat>::empty());
    while i < chunks.len()
        invariant
            i <= chunks.len(),
            lens == content_lens(chunks@),
            total_with_seps(lens) <= usize::MAX,
            ({
                let st = window_steps(lens.take(i as int), max_chars as nat);
                &&& windows@.map_values(|w: Vec<&'a DocumentChunk>| w@.len()) == st.sizes
                &&& current@.len() == st.count
                &&& current_len == st.bytes
            }),
            flatten(windows@.map_values(|w: Vec<&'a DocumentChunk>| w@)) + current@ == chunks@.take(i as int),
        decreases chunks.len() - i,
    {
        proof {
            lemma_take_last(lens, i as int);
            lemma_window_bytes(lens.take(i as int), max_chars as nat);
            lemma_total_mono(lens, i as int);
        }
        let c = chars_of(chunks[i].content.as_str());
        proof {
            lemma_utf8_len_bounds(c@);
        }
        assert(lens[i as int] == utf8_len(c@));
        let chunk_len = byte_len(&c);
        let ghost st = window_steps(lens.take(i as int), max_chars as nat);
        if current.len() > 0 && current_len + 2 + chunk_len > max_chars {
            let ghost wv = windows@.map_values(|w: Vec<&'a DocumentChunk>| w@);
            let ghost wl = windows@.map_values(|w: Vec<&'a DocumentChunk>| w@.len());
            let cur = current;
            windows.push(cur);
            current = Vec::new();
            current_len = 0;
            proof {
                assert(windows@.map_values(|w: Vec<&'a DocumentChunk>| w@) =~= wv.push(cur@));
                assert(windows@.map_values(|w: Vec<&'a DocumentChunk>| w@.len()) =~= wl.push(cur@.len()));
                assert(wv.push(cur@).drop_last() =~= wv);
                assert(flatten(wv.push(cur@)) =~= flatten(wv) + cur@);
                assert(flatten(wv.push(cur@)) + current@ =~= flatten(wv) + cur@);
            }
        }
        current_len = if current.len() == 0 {
            chunk_len
        } else {
            current_len + 2 + chunk_len
        };
        let ghost before = current@;
        current.push(chunks[i]);
        proof {
            assert(chunks@.take(i + 1) =~= chunks@.take(i as int).push(chunks@[i as int]));
            let wv2 = windows@.map_values(|w: Vec<&'a DocumentChunk>| w@);
            assert(flatten(wv2) + current@ =~= (flatten(wv2) + before).push(chunks@[i as int]));
        }
        i = i + 1;
    }
    assert(lens.take(i as int) =~= lens);
    assert(chunks@.take(i as int) =~= chunks@);
    if current.len() > 0 {
        let ghost wv = windows@.map_values(|w: Vec<&'a DocumentChunk>| w@);
        let ghost wl = windows@.map_values(|w: Vec<&'a DocumentChunk>| w@.len());
        let cur = current;
        windows.push(cur);
        proof {
            assert(windows@.map_values(|w: Vec<&'a DocumentChunk>| w@) =~= wv.push(cur@));
            assert(windows@.map_values(|w: Vec<&'a DocumentChunk>| w@.len()) =~= wl.push(cur@.len()));
            assert(wv.push(cur@).drop_last() =~= wv);
            assert(flatten(wv.push(cur@)) =~= flatten(wv) + cur@);
        }
    } else {
        proof {
            let wv = windows@.map_values(|w: Vec<&'a DocumentChunk>| w@);
            assert(flatten(wv) + current@ =~= flatten(wv));
        }
    }
    windows
}

proof fn lemma_total_mono(lens: Seq<nat>, i: int)
    requires
        0 <= i < lens.len(),
    ensures
        total_with_seps(lens.take(i + 1)) <= total_with_seps(lens),
        total_with_seps(lens.take(i + 1)) == total_with_seps(lens.take(i)) + lens[i] + 2,
    decreases lens.len() - i,
{
    assert(lens.take(i + 1).drop_last() =~= lens.take(i));
    if i + 1 < lens.len() {
        lemma_total_mono(lens, i + 1);
    } else {
        assert(lens.take(i + 1) =~= lens);
    }
}


// ───────────────────────── story extraction plan ─────────────────────────

/// `s` cut into consecutive pieces of the given sizes.
pub open spec fn split_by_sizes<T>(s: Seq<T>, sizes: Seq<nat>) -> Seq<Seq<T>>
    decreases sizes.len(),
{
    if sizes.len() == 0 {
        Seq::empty()
    } else {
        let n = sizes.last();
        split_by_sizes(s.take(s.len() - n), sizes.drop_last()).push(s.skip(s.len() - n))
    }
}

proof fn lemma_split_by_sizes<T>(ws: Seq<Seq<T>>)
    ensures
        split_by_sizes(flatten(ws), ws.map_values(|w: Seq<T>| w.len())) == ws,
    decreases ws.len(),
{
    if ws.len() > 0 {
        let sizes = ws.map_values(|w: Seq<T>| w.len());
        let f = flatten(ws);
        let pre = ws.drop_last();
        assert(sizes.drop_last() =~= pre.map_values(|w: Seq<T>| w.len()));
        assert(f.take(f.len() - ws.last().len()) =~= flatten(pre));
        assert(f.skip(f.len() - ws.last().len()) =~= ws.last());
        lemma_split_by_sizes(pre);
        assert(split_by_sizes(f, sizes) =~= ws);
    }
}

proof fn lemma_flatten_derefs(ws: Seq<Seq<&DocumentChunk>>)
    ensures
        derefs(flatten(ws)) == flatten(ws.map_values(|w: Seq<&DocumentChunk>| derefs(w))),
    decreases ws.len(),
{
    if ws.len() > 0 {
        let m = ws.map_values(|w: Seq<&DocumentChunk>| derefs(w));
        assert(m.drop_last() =~= ws.drop_last().map_values(|w: Seq<&DocumentChunk>| derefs(w)));
        lemma_flatten_derefs(ws.drop_last());
        assert(derefs(flatten(ws.drop_last()) + ws.last()) =~= derefs(flatten(ws.drop_last())) + derefs(
            ws.last(),
        ));
    }
}

/// One extraction call over a window of a chapter.
pub struct WindowCall {
    pub chapter: String,
    pub label: String,
    pub text: String,
}

/// How a document's story is extracted.
pub enum StoryPlan {
    /// One call over the whole text (fewer than two chapters).
    Whole { text: String },
    /// One call per window of each chapter, chapters and windows in order.
    Windows { calls: Vec<WindowCall> },
}

/// Bytes of joined text for a single whole-document call.
pub const WHOLE_TEXT_BYTES: usize = 40000;

/// Bytes of joined text per chapter window.
pub const WINDOW_BYTES: usize = 20000;

/// The label of window `w` (from 0) of `n` windows of a chapter.
pub open spec fn window_label(chapter: Seq<char>, w: nat, n: nat) -> Seq<char> {
    if n > 1 {
        chapter + " (part "@ + crate::agent::decimal(w + 1) + "/"@ + crate::agent::decimal(n) + ")"@
    } else {
        chapter
    }
}

/// A window call as values: chapter, label, text.
pub open spec fn call_view(c: WindowCall) -> (Seq<char>, Seq<char>, Seq<char>) {
    (c.chapter@, c.label@, c.text@)
}

/// Byte lengths of chunk contents.
pub open spec fn lens_v(cs: Seq<DocumentChunk>) -> Seq<nat> {
    cs.map_values(|c: DocumentChunk| utf8_len(c.content@))
}

/// Chunk contents joined with blank lines.
pub open spec fn joined_v(cs: Seq<DocumentChunk>) -> Seq<char> {
    join(cs.map_values(|c: DocumentChunk| c.content@), "\n\n"@)
}

/// The calls for one chapter with member chunks `ms`: one per window of
/// at most 20000 bytes.
pub open spec fn chapter_calls(name: Seq<char>, ms: Seq<DocumentChunk>) -> Seq<(Seq<char>, Seq<char>, Seq<char>)> {
    let ws = split_by_sizes(ms, window_sizes(lens_v(ms), 20000));
    Seq::new(ws.len(), |w: int| (name, window_label(name, w as nat, ws.len()), joined_v(ws[w])))
}

/// The calls for the first `k` chapters.
pub open spec fn calls_upto(chunks: Seq<DocumentChunk>, names: Seq<Seq<char>>, k: nat) -> Seq<(Seq<char>, Seq<char>, Seq<char>)>
    decreases k,
{
    if k == 0 {
        Seq::empty()
    } else {
        calls_upto(chunks, names, (k - 1) as nat) + chapter_calls(
            names[k - 1],
            chapter_members(chunks, names[k - 1]),
        )
    }
}

/// Every chapter's windows can be measured in `usize`.
pub open spec fn chapters_measurable(chunks: Seq<DocumentChunk>) -> bool {
    let names = chapter_order(chapter_names(chunks));
    forall|k: int|
        0 <= k < names.len() ==> total_with_seps(lens_v(chapter_members(chunks, #[trigger] names[k])))
            <= usize::MAX
}

proof fn lemma_derefs_lens(v: Seq<&DocumentChunk>)
    ensures
        content_lens(v) == lens_v(derefs(v)),
        joined(v) == joined_v(derefs(v)),
{
    assert(content_lens(v) =~= lens_v(derefs(v)));
    assert(contents(v) =~= derefs(v).map_values(|c: DocumentChunk| c.content@));
}

/// Plans story extraction. With fewer than two chapters: one call over the
/// joined chunks cut to 40000 bytes. Otherwise one call per window (of at
/// most 20000 bytes of joined text) of each chapter, labelled
/// "<chapter> (part i/n)" when a chapter has several windows.
pub fn plan_story_extraction(chunks: &[DocumentChunk]) -> (r: StoryPlan)
    requires
        chapters_measurable(chunks@),
    ensures
        ({
            let names = chapter_order(chapter_names(chunks@));
            match r {
                StoryPlan::Whole { text } => names.len() < 2 && text@ == cut_bytes(joined_v(chunks@), 40000),
                StoryPlan::Windows { calls } => names.len() >= 2 && calls@.map_values(|c: WindowCall| call_view(c))
                    == calls_upto(chunks@, names, names.len()),
            }
        }),
{
    let groups = group_chunks_by_chapter(chunks);
    let ghost names = chapter_order(chapter_names(chunks@));
    assert(groups@.map_values(|g: (String, Vec<&DocumentChunk>)| g.0@) == names);
    assert(groups@.len() == names.len());
    if groups.len() < 2 {
        let mut refs: Vec<&DocumentChunk> = Vec::new();
        let mut i: usize = 0;
        while i < chunks.len()
            invariant
                i <= chunks.len(),
                derefs(refs@) == chunks@.take(i as int),
            decreases chunks.len() - i,
        {
            let ghost before = refs@;
            refs.push(&chunks[i]);
            assert(derefs(refs@) =~= derefs(before).push(chunks@[i as int]));
            assert(chunks@.take(i + 1) =~= chunks@.take(i as int).push(chunks@[i as int]));
            i = i + 1;
        }
        assert(chunks@.take(i as int) =~= chunks@);
        proof {
            lemma_derefs_lens(refs@);
        }
        let text = join_and_truncate(&refs, WHOLE_TEXT_BYTES);
        return StoryPlan::Whole { text };
    }
    let mut calls: Vec<WindowCall> = Vec::new();
    let mut k: usize = 0;
    assert(calls@.map_values(|c: WindowCall| call_view(c)) =~= Seq::<(Seq<char>, Seq<char>, Seq<char>)>::empty());
    while k < groups.len()
        invariant
            k <= groups.len(),
            groups@.len() == names.len(),
            names == chapter_order(chapter_names(chunks@)),
            chapters_measurable(chunks@),
            forall|m: int| 0 <= m < groups@.len() ==> (#[trigger] groups@[m]).0@ == names[m],
            forall|m: int|
                0 <= m < groups@.len() ==> derefs((#[trigger] groups@[m]).1@) == chapter_members(chunks@, groups@[m].0@),
            calls@.map_values(|c: WindowCall| call_view(c)) == calls_upto(chunks@, names, k as nat),
        decreases groups.len() - k,
    {
        let name = &groups[k].0;
        let members = &groups[k].1;
        let ghost ms = chapter_members(chunks@, names[k as int]);
        assert(derefs(members@) == ms);
        proof {
            lemma_derefs_lens(members@);
        }
        assert(total_with_seps(content_lens(members@)) <= usize::MAX);
        let windows = windows_for_chapter(members, WINDOW_BYTES);
        let ghost wv = windows@.map_values(|w: Vec<&DocumentChunk>| w@);
        let ghost sizes = window_sizes(content_lens(members@), 20000);
        let ghost xs = wv.map_values(|w: Seq<&DocumentChunk>| derefs(w));
        proof {
            assert(wv.map_values(|w: Seq<&DocumentChunk>| w.len()) =~= windows@.map_values(
                |w: Vec<&DocumentChunk>| w@.len(),
            ));
            assert(xs.map_values(|w: Seq<DocumentChunk>| w.len()) =~= wv.map_values(|w: Seq<&DocumentChunk>| w.len()));
            lemma_flatten_derefs(wv);
            lemma_split_by_sizes(xs);
        }
        let ghost dws = split_by_sizes(ms, window_sizes(lens_v(ms), 20000));
        assert(dws == xs);
        let n = windows.len();
        let ghost before = calls@.map_values(|c: WindowCall| call_view(c));
        let mut w: usize = 0;
        while w < n
            invariant
                w <= n == windows@.len(),
                n == dws.len(),
                k < names.len(),
                dws == split_by_sizes(ms, window_sizes(lens_v(ms), 20000)),
                forall|j: int| 0 <= j < n ==> derefs((#[trigger] windows@[j])@) == dws[j],
                calls@.map_values(|c: WindowCall| call_view(c)) == before + chapter_calls(names[k as int], ms).take(w as int),
                name@ == names[k as int],
            decreases n - w,
        {
            let text = join_chunks(&windows[w]);
            proof {
                lemma_derefs_lens(windows@[w as int]@);
            }
            let label = if n > 1 {
                let mut l = chars_of(name.as_str());
                append_all(&mut l, &chars_of(" (part "));
                append_all(&mut l, &crate::agent::decimal_usize(w + 1));
                append_all(&mut l, &chars_of("/"));
                append_all(&mut l, &crate::agent::decimal_usize(n));
                append_all(&mut l, &chars_of(")"));
                string_of(&l)
            } else {
                string_of(&chars_of(name.as_str()))
            };
            let call = WindowCall { chapter: string_of(&chars_of(name.as_str())), label, text };
            let ghost prev_calls = calls@;
            calls.push(call);
            proof {
                assert(call_view(call) == chapter_calls(names[k as int], ms)[w as int]);
                assert(calls@.map_values(|c: WindowCall| call_view(c)) =~= prev_calls.map_values(
                    |c: WindowCall| call_view(c),
                ).push(call_view(call)));
                assert(chapter_calls(names[k as int], ms).take(w + 1) =~= chapter_calls(names[k as int], ms).take(
                    w as int,
                ).push(chapter_calls(names[k as int], ms)[w as int]));
            }
            w = w + 1;
        }
        assert(chapter_calls(names[k as int], ms).take(w as int) =~= chapter_calls(names[k as int], ms));
        k = k + 1;
    }
    StoryPlan::Windows { calls }
}


/// The UTF-8 length of a character sequence, as a `u128`.
fn utf8_len_wide(v: &[char]) -> (n: u128)
    ensures
        n == utf8_len(v@),
{
    let mut n: u128 = 0;
    let mut i: usize = v.len();
    assert(v@.skip(i as int) =~= Seq::<char>::empty());
    while i > 0
        invariant
            i <= v.len(),
            n == utf8_len(v@.skip(i as int)),
            n <= 4 * (v.len() - i),
        decreases i,
    {
        assert(v@.skip(i - 1).drop_first() =~= v@.skip(i as int));
        n = n + crate::text::width_of(v[i - 1]) as u128;
        i = i - 1;
    }
    assert(v@.skip(0) =~= v@);
    n
}

/// Whether `plan_story_extraction` can take these chunks: each chapter's
/// chunk lengths, with two bytes each, add up within `usize`.
pub fn chapters_measurable_exec(chunks: &[DocumentChunk]) -> (b: bool)
    ensures
        b == chapters_measurable(chunks@),
{
    let groups = group_chunks_by_chapter(chunks);
    let ghost names = chapter_order(chapter_names(chunks@));
    let mut k: usize = 0;
    while k < groups.len()
        invariant
            k <= groups.len(),
            groups@.len() == names.len(),
            names == chapter_order(chapter_names(chunks@)),
            forall|m: int| 0 <= m < groups@.len() ==> (#[trigger] groups@[m]).0@ == names[m],
            forall|m: int|
                0 <= m < groups@.len() ==> derefs((#[trigger] groups@[m]).1@) == chapter_members(chunks@, groups@[m].0@),
            forall|m: int| 0 <= m < k ==> total_with_seps(lens_v(chapter_members(chunks@, #[trigger] names[m])))
                <= usize::MAX,
        decreases groups.len() - k,
    {
        let members = &groups[k].1;
        let ghost ms = chapter_members(chunks@, names[k as int]);
        assert(derefs(members@) == ms);
        let mut total: u128 = 0;
        let mut j: usize = 0;
        assert(lens_v(ms).take(0) =~= Seq::<nat>::empty());
        while j < members.len()
            invariant
                j <= members.len(),
                k < names.len(),
                names == chapter_order(chapter_names(chunks@)),
                derefs(members@) == ms,
                ms.len() == members@.len(),
                ms == chapter_members(chunks@, names[k as int]),
                total == total_with_seps(lens_v(ms).take(j as int)),
                total <= usize::MAX,
            decreases members.len() - j,
        {
            assert(lens_v(ms).take(j + 1).drop_last() =~= lens_v(ms).take(j as int));
            assert(ms[j as int] == *members@[j as int]);
            let c = chars_of(members[j].content.as_str());
            let n = utf8_len_wide(&c);
            if n > (usize::MAX as u128) || total + n + 2 > (usize::MAX as u128) {
                proof {
                    lemma_total_prefix(lens_v(ms), j + 1);
                    assert(lens_v(ms)[j as int] == utf8_len(c@));
                    assert(lens_v(ms).take(j + 1).last() == lens_v(ms)[j as int]);
                    assert(total_with_seps(lens_v(ms).take(j + 1)) > usize::MAX);
                    assert(!(total_with_seps(lens_v(chapter_members(chunks@, names[k as int]))) <= usize::MAX));
                    assert(names == chapter_order(chapter_names(chunks@)));
                    assert(!chapters_measurable(chunks@));
                }
                return false;
            }
            total = total + n + 2;
            j = j + 1;
        }
        assert(lens_v(ms).take(j as int) =~= lens_v(ms));
        k = k + 1;
    }
    true
}

proof fn lemma_total_prefix(lens: Seq<nat>, n: int)
    requires
        0 <= n <= lens.len(),
    ensures
        total_with_seps(lens.take(n)) <= total_with_seps(lens),
    decreases lens.len() - n,
{
    if n < lens.len() {
        lemma_total_prefix(lens, n + 1);
        assert(lens.take(n + 1).drop_last() =~= lens.take(n));
    } else {
        assert(lens.take(n) =~= lens);
    }
}

// ───────────────────────── laws ─────────────────────────

/// Cutting keeps a prefix of the text that fits in `max` bytes, and keeps
/// the whole text when it fits.
pub proof fn cut_is_fitting_prefix(s: Seq<char>, max: nat)
    ensures
        has_prefix(s, cut_bytes(s, max)),
        utf8_len(cut_bytes(s, max)) <= max || utf8_len(s) <= max,
        utf8_len(s) <= max ==> cut_bytes(s, max) == s,
{
    lemma_chars_within(s, max);
    let c = cut_bytes(s, max);
    assert(s.subrange(0, c.len() as int) =~= c);
}

proof fn lemma_window_steps_count(lens: Seq<nat>, max: nat)
    ensures
        lens.len() > 0 ==> window_steps(lens, max).count > 0,
        forall|i: int| 0 <= i < window_steps(lens, max).sizes.len() ==> #[trigger] window_steps(lens, max).sizes[i] > 0,
    decreases lens.len(),
{
    if lens.len() > 0 {
        lemma_window_steps_count(lens.drop_last(), max);
        let prev = window_steps(lens.drop_last(), max);
        let cur = window_steps(lens, max);
        assert forall|i: int| 0 <= i < cur.sizes.len() implies #[trigger] cur.sizes[i] > 0 by {
            if i < prev.sizes.len() {
                assert(cur.sizes[i] == prev.sizes[i]);
            }
        }
    }
}

/// Chapter windows: there is at least one window when there are chunks,
/// and no window is empty.
pub proof fn windows_cover_chunks(lens: Seq<nat>, max: nat)
    ensures
        lens.len() > 0 ==> window_sizes(lens, max).len() > 0,
        forall|i: int| 0 <= i < window_sizes(lens, max).len() ==> #[trigger] window_sizes(lens, max)[i] > 0,
{
    lemma_window_steps_count(lens, max);
    let st = window_steps(lens, max);
    if st.count > 0 {
        assert forall|i: int| 0 <= i < window_sizes(lens, max).len() implies #[trigger] window_sizes(lens, max)[i]
            > 0 by {
            if i < st.sizes.len() {
                assert(window_sizes(lens, max)[i] == st.sizes[i]);
            }
        }
    }
}

proof fn lemma_chapter_order(names: Seq<Seq<char>>)
    ensures
        forall|k: int| 0 <= k < names.len() ==> chapter_order(names).contains(#[trigger] names[k]),
        forall|i: int| 0 <= i < chapter_order(names).len() ==> names.contains(#[trigger] chapter_order(names)[i]),
        forall|i: int, j: int|
            0 <= i < j < chapter_order(names).len() ==> #[trigger] chapter_order(names)[i] != #[trigger] chapter_order(names)[j],
    decreases names.len(),
{
    if names.len() > 0 {
        let t = names.drop_last();
        lemma_chapter_order(t);
        let prev = chapter_order(t);
        let r = chapter_order(names);
        assert forall|k: int| 0 <= k < names.len() implies r.contains(#[trigger] names[k]) by {
            if k < t.len() {
                assert(t[k] == names[k]);
                let i = choose|i: int| 0 <= i < prev.len() && prev[i] == t[k];
                assert(r[i] == prev[i]);
            } else if !prev.contains(names.last()) {
                assert(r[prev.len() as int] == names.last());
            } else {
                let i = choose|i: int| 0 <= i < prev.len() && prev[i] == names.last();
                assert(r[i] == prev[i]);
            }
        }
        assert forall|i: int| 0 <= i < r.len() implies names.contains(#[trigger] r[i]) by {
            if i < prev.len() {
                assert(r[i] == prev[i]);
                let k = choose|k: int| 0 <= k < t.len() && t[k] == prev[i];
                assert(names[k] == t[k]);
            } else {
                assert(names[names.len() - 1] == r[i]);
            }
        }
    }
}

proof fn lemma_members_filter(chunks: Seq<DocumentChunk>, n: Seq<char>)
    ensures
        chapter_members(chunks, n) == chunks.filter(|c: DocumentChunk| chapter_name_spec(c.section_path@) == n),
    decreases chunks.len(),
{
    reveal(Seq::filter);
    if chunks.len() > 0 {
        lemma_members_filter(chunks.drop_last(), n);
    }
}

/// Grouping by chapter partitions the chunks: the chapters are the chunks'
/// chapter names, each once, and every chunk's chapter is among them; the
/// chunks of a chapter are exactly the chunks of that chapter name, in
/// their order.
pub proof fn chapters_partition_chunks(chunks: Seq<DocumentChunk>)
    ensures
        forall|k: int|
            0 <= k < chunks.len() ==> chapter_order(chapter_names(chunks)).contains(
                chapter_name_spec((#[trigger] chunks[k]).section_path@),
            ),
        forall|i: int|
            0 <= i < chapter_order(chapter_names(chunks)).len() ==> exists|k: int|
                0 <= k < chunks.len() && chapter_name_spec(chunks[k].section_path@) == #[trigger] chapter_order(
                    chapter_names(chunks),
                )[i],
        forall|i: int, j: int|
            0 <= i < j < chapter_order(chapter_names(chunks)).len() ==> #[trigger] chapter_order(chapter_names(chunks))[i]
                != #[trigger] chapter_order(chapter_names(chunks))[j],
        forall|n: Seq<char>|
            #[trigger] chapter_members(chunks, n) == chunks.filter(|c: DocumentChunk| chapter_name_spec(c.section_path@) == n),
{
    let names = chapter_names(chunks);
    lemma_chapter_order(names);
    assert forall|k: int| 0 <= k < chunks.len() implies chapter_order(names).contains(
        chapter_name_spec((#[trigger] chunks[k]).section_path@),
    ) by {
        assert(names[k] == chapter_name_spec(chunks[k].section_path@));
    }
    assert forall|i: int| 0 <= i < chapter_order(names).len() implies exists|k: int|
        0 <= k < chunks.len() && chapter_name_spec(chunks[k].section_path@) == #[trigger] chapter_order(names)[i] by {
        assert(names.contains(chapter_order(names)[i]));
        let k = choose|k: int| 0 <= k < names.len() && names[k] == chapter_order(names)[i];
        assert(names[k] == chapter_name_spec(chunks[k].section_path@));
    }
    assert forall|n: Seq<char>|
        #[trigger] chapter_members(chunks, n) == chunks.filter(|c: DocumentChunk| chapter_name_spec(c.section_path@) == n) by {
        lemma_members_filter(chunks, n);
    }
}

/// The sum of `s`.
pub open spec fn sum_lens(s: Seq<nat>) -> nat
    decreases s.len(),
{
    if s.len() == 0 {
        0
    } else {
        sum_lens(s.drop_last()) + s.last()
    }
}

/// The length of chunks of lengths `ls` joined with a two-byte separator.
pub open spec fn joined_len(ls: Seq<nat>) -> nat {
    if ls.len() == 0 {
        0
    } else {
        (sum_lens(ls) + 2 * (ls.len() - 1)) as nat
    }
}

/// The chunk lengths of window `w`, the windows having sizes `sizes`.
pub open spec fn window_at(lens: Seq<nat>, sizes: Seq<nat>, w: int) -> Seq<nat> {
    lens.subrange(sum_lens(sizes.take(w)) as int, sum_lens(sizes.take(w)) as int + sizes[w])
}

/// Window `w` is closed properly: it is not empty, fits in `max` unless it
/// holds one chunk, and the chunk after it would not have fitted.
pub open spec fn window_closed_ok(lens: Seq<nat>, sizes: Seq<nat>, w: int, max: nat) -> bool {
    let a: int = sum_lens(sizes.take(w)) as int;
    &&& sizes[w] > 0
    &&& a + sizes[w] < lens.len()
    &&& (sizes[w] == 1 || joined_len(window_at(lens, sizes, w)) <= max)
    &&& joined_len(window_at(lens, sizes, w)) + 2 + lens[a + sizes[w]] > max
}

proof fn lemma_joined_push(s: Seq<nat>, x: nat)
    ensures
        joined_len(s.push(x)) == if s.len() == 0 { x } else { joined_len(s) + 2 + x },
{
    assert(s.push(x).drop_last() =~= s);
    assert(sum_lens(s.push(x)) == sum_lens(s) + x);
    if s.len() == 0 {
        assert(sum_lens(s) == 0);
    }
}

proof fn lemma_sum_take_step(s: Seq<nat>, w: int)
    requires
        0 <= w < s.len(),
    ensures
        sum_lens(s.take(w + 1)) == sum_lens(s.take(w)) + s[w],
{
    assert(s.take(w + 1).drop_last() =~= s.take(w));
}

proof fn lemma_window_inv(lens: Seq<nat>, max: nat)
    ensures
        ({
            let st = window_steps(lens, max);
            &&& sum_lens(st.sizes) + st.count == lens.len()
            &&& (st.sizes.len() > 0 ==> st.count > 0)
            &&& st.bytes == joined_len(lens.subrange(sum_lens(st.sizes) as int, lens.len() as int))
            &&& (st.count <= 1 || st.bytes <= max)
            &&& forall|w: int| 0 <= w < st.sizes.len() ==> #[trigger] window_closed_ok(lens, st.sizes, w, max)
        }),
    decreases lens.len(),
{
    if lens.len() > 0 {
        let pre = lens.drop_last();
        let n = pre.len();
        let x = lens.last();
        lemma_window_inv(pre, max);
        let ps = window_steps(pre, max);
        let st = window_steps(lens, max);
        let a: int = sum_lens(ps.sizes) as int;
        assert(pre.push(x) =~= lens);
        let close = ps.count > 0 && ps.bytes + 2 + x > max;
        let sizes1 = if close { ps.sizes.push(ps.count) } else { ps.sizes };
        assert(st.sizes == sizes1);
        // the windows closed before stay closed properly
        assert forall|w: int| 0 <= w < ps.sizes.len() implies #[trigger] window_closed_ok(lens, sizes1, w, max) by {
            assert(window_closed_ok(pre, ps.sizes, w, max));
            if close {
                assert(sizes1.take(w) =~= ps.sizes.take(w));
            }
            let b: int = sum_lens(ps.sizes.take(w)) as int;
            assert(lens.subrange(b as int, b + ps.sizes[w]) =~= pre.subrange(b as int, b + ps.sizes[w]));
            assert(lens[b + ps.sizes[w]] == pre[b + ps.sizes[w]]);
        }
        if close {
            assert(sum_lens(sizes1) == a + ps.count) by {
                assert(sizes1.drop_last() =~= ps.sizes);
            }
            let w = ps.sizes.len() as int;
            assert(sizes1.take(w) =~= ps.sizes);
            assert(window_at(lens, sizes1, w) =~= pre.subrange(a as int, n as int));
            assert(lens[a + ps.count] == x);
            assert(window_closed_ok(lens, sizes1, w, max));
            assert(lens.subrange((a + ps.count) as int, lens.len() as int) =~= seq![x]);
            lemma_joined_push(Seq::<nat>::empty(), x);
            assert(Seq::<nat>::empty().push(x) =~= seq![x]);
        } else {
            assert(lens.subrange(a as int, lens.len() as int) =~= pre.subrange(a as int, n as int).push(x));
            lemma_joined_push(pre.subrange(a as int, n as int), x);
        }
    }
}

/// Chapter windows pack the chunks greedily: the windows cover the chunks
/// one after another, none is empty, each fits in `max` bytes (its chunks
/// joined by a blank line) unless it holds a single chunk, and each window
/// but the last was closed because the next chunk would not have fitted.
pub proof fn windows_pack_greedily(lens: Seq<nat>, max: nat)
    ensures
        sum_lens(window_sizes(lens, max)) == lens.len(),
        forall|w: int| 0 <= w < window_sizes(lens, max).len() ==> (#[trigger] window_sizes(lens, max)[w] > 0 && (
            window_sizes(lens, max)[w] == 1 || joined_len(window_at(lens, window_sizes(lens, max), w)) <= max)),
        forall|w: int|
            0 <= w < window_sizes(lens, max).len() - 1 ==> joined_len(window_at(lens, window_sizes(lens, max), w)) + 2
                + lens[sum_lens(window_sizes(lens, max).take(w)) as int + #[trigger] window_sizes(lens, max)[w]] > max,
{
    lemma_window_inv(lens, max);
    let st = window_steps(lens, max);
    let ws = window_sizes(lens, max);
    if st.count > 0 {
        let k = st.sizes.len() as int;
        assert(ws.drop_last() =~= st.sizes);
        assert(ws.take(k) =~= st.sizes);
        assert forall|w: int| 0 <= w < k implies #[trigger] window_closed_ok(lens, ws, w, max) by {
            assert(window_closed_ok(lens, st.sizes, w, max));
            assert(ws.take(w) =~= st.sizes.take(w));
        }
        assert(window_at(lens, ws, k) =~= lens.subrange(sum_lens(st.sizes) as int, lens.len() as int));
        assert forall|w: int| 0 <= w < ws.len() implies (#[trigger] ws[w] > 0 && (
            ws[w] == 1 || joined_len(window_at(lens, ws, w)) <= max)) by {
            if w < k {
                assert(window_closed_ok(lens, ws, w, max));
            }
        }
        assert forall|w: int| 0 <= w < ws.len() - 1 implies joined_len(window_at(lens, ws, w)) + 2
            + lens[sum_lens(ws.take(w)) as int + #[trigger] ws[w]] > max by {
            assert(window_closed_ok(lens, ws, w, max));
        }
    } else {
        assert(ws == st.sizes);
        assert forall|w: int| 0 <= w < ws.len() implies #[trigger] window_closed_ok(lens, ws, w, max) by {}
    }
}

/// The most characters of a document that its summary is written from.
pub const SUMMARY_EXCERPT_CHARS: usize = 2000;

/// The excerpt a document summary is written from: the first 2000
/// characters of its first chunk, or nothing when it has no chunks.
pub fn summary_excerpt(chunks: &[DocumentChunk]) -> (r: String)
    ensures
        chunks.len() == 0 ==> r@.len() == 0,
        chunks.len() > 0 ==> r@ == if chunks[0].content@.len() <= SUMMARY_EXCERPT_CHARS {
            chunks[0].content@
        } else {
            chunks[0].content@.take(SUMMARY_EXCERPT_CHARS as int)
        },
{
    if chunks.len() == 0 {
        return String::new();
    }
    let v = chars_of(chunks[0].content.as_str());
    if v.len() <= SUMMARY_EXCERPT_CHARS {
        string_of(&v)
    } else {
        string_of(&slice_of(&v, 0, SUMMARY_EXCERPT_CHARS))
    }
}

// ───────────────────────────── meta index ─────────────────────────────

/// The summary of one ingested document, as the meta index keeps it.
pub struct DocSummary {
    pub doc_id: u128,
    pub doc_name: String,
    pub filename: String,
    pub summary: String,
    pub scope: String,
    /// When the document was ingested, in RFC 3339.
    pub ingested_at: String,
}

/// The summaries of the documents of one scope (a campaign, or "global").
pub struct MetaIndex {
    pub scope: String,
    pub entries: Vec<DocSummary>,
}

/// The entries that are not about document `id`, in order.
pub open spec fn without_doc(entries: Seq<DocSummary>, id: u128) -> Seq<DocSummary>
    decreases entries.len(),
{
    if entries.len() == 0 {
        Seq::empty()
    } else if entries.last().doc_id == id {
        without_doc(entries.drop_last(), id)
    } else {
        without_doc(entries.drop_last(), id).push(entries.last())
    }
}

/// Records a document's summary in the index: any earlier summary of the
/// same document is dropped and the new one goes last.
pub fn add_to_meta_index(index: MetaIndex, doc_summary: DocSummary) -> (r: MetaIndex)
    ensures
        r.scope == index.scope,
        r.entries@ == without_doc(index.entries@, doc_summary.doc_id).push(doc_summary),
{
    let MetaIndex { scope, entries } = index;
    let ghost old_entries = entries@;
    let id = doc_summary.doc_id;
    let mut kept: Vec<DocSummary> = Vec::new();
    let ghost mut done: Seq<DocSummary> = Seq::empty();
    for e in it: entries.into_iter()
        invariant
            it.seq() == old_entries,
            done == it.history(),
            kept@ == without_doc(done, id),
    {
        proof {
            assert(done.push(e).drop_last() =~= done);
            done = done.push(e);
        }
        if e.doc_id != id {
            kept.push(e);
        }
    }
    assert(done =~= old_entries);
    kept.push(doc_summary);
    MetaIndex { scope, entries: kept }
}

proof fn lemma_without_doc(entries: Seq<DocSummary>, id: u128)
    ensures
        forall|j: int| 0 <= j < without_doc(entries, id).len() ==> (#[trigger] without_doc(entries, id)[j]).doc_id != id,
        without_doc(without_doc(entries, id), id) == without_doc(entries, id),
        forall|e: DocSummary| entries.contains(e) && e.doc_id != id ==> #[trigger] without_doc(entries, id).contains(e),
    decreases entries.len(),
{
    if entries.len() > 0 {
        let t = entries.drop_last();
        lemma_without_doc(t, id);
        let w = without_doc(t, id);
        if entries.last().doc_id != id {
            assert(without_doc(w.push(entries.last()), id) =~= without_doc(w, id).push(entries.last())) by {
                assert(w.push(entries.last()).drop_last() =~= w);
            }
            assert forall|e: DocSummary| entries.contains(e) && e.doc_id != id implies #[trigger] without_doc(entries, id).contains(e) by {
                if e != entries.last() {
                    let k = choose|k: int| 0 <= k < entries.len() && entries[k] == e;
                    assert(t[k] == e);
                    assert(t.contains(e));
                    assert(w.contains(e));
                    let m = choose|m: int| 0 <= m < w.len() && w[m] == e;
                    assert(w.push(entries.last())[m] == e);
                } else {
                    assert(w.push(entries.last())[w.len() as int] == e);
                }
            }
        } else {
            assert forall|e: DocSummary| entries.contains(e) && e.doc_id != id implies #[trigger] without_doc(entries, id).contains(e) by {
                let k = choose|k: int| 0 <= k < entries.len() && entries[k] == e;
                assert(k != entries.len() - 1);
                assert(t[k] == e);
                assert(t.contains(e));
            }
        }
    }
}

/// After a document's summary is recorded, the index holds exactly one
/// entry for that document, the new summary, as its last entry; the
/// summaries of every other document are kept.
pub proof fn meta_index_keeps_latest(entries: Seq<DocSummary>, s: DocSummary)
    ensures
        ({
            let r = without_doc(entries, s.doc_id).push(s);
            &&& r.last() == s
            &&& forall|j: int| 0 <= j < r.len() - 1 ==> (#[trigger] r[j]).doc_id != s.doc_id
            &&& forall|e: DocSummary| entries.contains(e) && e.doc_id != s.doc_id ==> #[trigger] r.contains(e)
        }),
{
    lemma_without_doc(entries, s.doc_id);
    let w = without_doc(entries, s.doc_id);
    let r = w.push(s);
    assert forall|j: int| 0 <= j < r.len() - 1 implies (#[trigger] r[j]).doc_id != s.doc_id by {
        assert(r[j] == w[j]);
    }
    assert forall|e: DocSummary| entries.contains(e) && e.doc_id != s.doc_id implies #[trigger] r.contains(e) by {
        assert(w.contains(e));
        let m = choose|m: int| 0 <= m < w.len() && w[m] == e;
        assert(r[m] == e);
    }
}

/// Recording the same summary twice leaves the index as recording it once.
pub proof fn meta_index_add_is_idempotent(entries: Seq<DocSummary>, s: DocSummary)
    ensures
        without_doc(without_doc(entries, s.doc_id).push(s), s.doc_id).push(s)
            == without_doc(entries, s.doc_id).push(s),
{
    lemma_without_doc(entries, s.doc_id);
    let w = without_doc(entries, s.doc_id);
    assert(w.push(s).drop_last() =~= w);
    assert(without_doc(w.push(s), s.doc_id) == without_doc(w, s.doc_id));
}

// ───────────────────────────── ingesting lore ─────────────────────────────

/// What a document is ingested as: a rulebook, shared by every campaign, or
/// the material of one campaign.
#[derive(Debug, Clone, Copy, PartialEq, Eq, Structural)]
pub enum LoreKind {
    Rulebook,
    Campaign,
}

/// The lore type stored with a chunk: rules text is mechanics, campaign text
/// is plot.
pub fn infer_lore_type(kind: LoreKind) -> (r: &'static str)
    ensures
        kind == LoreKind::Rulebook ==> r@ == "mechanic"@,
        kind == LoreKind::Campaign ==> r@ == "plot"@,
{
    match kind {
        LoreKind::Rulebook => "mechanic",
        LoreKind::Campaign => "plot",
    }
}

/// The collection a document's chunks go to: the global one for a rulebook,
/// the campaign's own for campaign material, which needs a campaign id.
pub fn lore_collection(kind: LoreKind, campaign_id: Option<&str>) -> (r: Result<String, GuideError>)
    ensures
        kind == LoreKind::Rulebook ==> (r matches Ok(c) && c@ == GLOBAL_COLLECTION@),
        kind == LoreKind::Campaign && campaign_id is None ==> (r matches Err(e) && e matches GuideError::PdfProcessing(m)
            && m@ == "campaign_id required for Campaign documents"@),
        kind == LoreKind::Campaign && campaign_id is Some ==> (r matches Ok(c) && c@ == "campaign_"@
            + campaign_id->0@ + "_lore"@),
{
    match kind {
        LoreKind::Rulebook => Ok(String::from_str(global_collection_name())),
        LoreKind::Campaign => match campaign_id {
            Some(id) => Ok(campaign_collection_name(id)),
            None => Err(GuideError::PdfProcessing(String::from_str("campaign_id required for Campaign documents"))),
        },
    }
}

/// Whether players may see a chunk: rulebook text always; campaign text when
/// the chunk is visible and the document's default allows it.
pub fn lore_visible(kind: LoreKind, chunk_visible: bool, visible_by_default: bool) -> (b: bool)
    ensures
        b == (kind == LoreKind::Rulebook || (chunk_visible && visible_by_default)),
{
    match kind {
        LoreKind::Rulebook => true,
        LoreKind::Campaign => chunk_visible && visible_by_default,
    }
}

/// The chunk budget in bytes for a budget in tokens: four bytes a token.
pub fn chunk_char_budget(chunk_max_tokens: usize) -> (r: usize)
    requires
        chunk_max_tokens * 4 <= usize::MAX,
    ensures
        r == chunk_max_tokens * 4,
{
    chunk_max_tokens * 4
}

/// How many of the chunks were embedded.
pub open spec fn count_true(s: Seq<bool>) -> nat
    decreases s.len(),
{
    if s.len() == 0 {
        0
    } else {
        count_true(s.drop_last()) + if s.last() {
            1nat
        } else {
            0nat
        }
    }
}

/// The number of lore chunks an ingestion creates: a chunk whose embedding
/// failed is skipped, every other one is stored.
pub fn lore_chunks_created(embedded: &[bool]) -> (r: usize)
    ensures
        r == count_true(embedded@),
{
    let mut n: usize = 0;
    let mut i: usize = 0;
    while i < embedded.len()
        invariant
            i <= embedded.len(),
            n == count_true(embedded@.take(i as int)),
            n <= i,
        decreases embedded.len() - i,
    {
        assert(embedded@.take(i + 1).drop_last() =~= embedded@.take(i as int));
        if embedded[i] {
            n = n + 1;
        }
        i = i + 1;
    }
    assert(embedded@.take(i as int) =~= embedded@);
    n
}

} // verus!
