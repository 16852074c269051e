//! The document-navigation tools offered to the story-extraction agent and
//! the prompts that brief it.
use vstd::prelude::*;
use std::collections::HashMap;
use crate::navigation::{IndexEntry, TocEntry};
use crate::sheet::digit_char;
use crate::split::{chars_eq, join, join_with, lemma_vs_push, vs};
use crate::text::{append_all, chars_of, lowercase, string_of, to_lowercase};

verus! {

/// Everything the agent's tools read, loaded before the agent runs.
pub struct DocumentData {
    /// PDF page number (from 1) to page text.
    pub pages: HashMap<u32, String>,
    /// Table of Contents entries in document order.
    pub toc: Vec<TocEntry>,
    /// Index entries (lowercase terms).
    pub index: Vec<IndexEntry>,
    /// Offset to add to a printed page number to get the PDF page number.
    pub page_offset: i32,
}

/// The failure of a tool call, shown to the agent as text.
pub struct ToolErr(pub String);

impl ToolErr {
    /// The message.
    pub fn to_string(&self) -> (r: String)
        ensures
            r@ == self.0@,
    {
        string_of(&chars_of(self.0.as_str()))
    }
}

/// Decimal digits of `n`.
pub open spec fn decimal(n: nat) -> Seq<char>
    decreases n,
{
    if n < 10 {
        seq![digit_char(n as int)]
    } else {
        decimal(n / 10).push(digit_char((n % 10) as int))
    }
}

/// The decimal text of a number.
pub fn decimal_exec(n: u32) -> (r: Vec<char>)
    ensures
        r@ == decimal(n as nat),
    decreases n,
{
    let digits = chars_of("0123456789");
    proof {
        reveal_strlit("0123456789");
        assert(digits@ =~= seq!['0', '1', '2', '3', '4', '5', '6', '7', '8', '9']);
    }
    if n < 10 {
        let mut v: Vec<char> = Vec::new();
        v.push(digits[n as usize]);
        assert(v@ =~= seq![digit_char(n as int)]);
        v
    } else {
        let mut v = decimal_exec(n / 10);
        v.push(digits[(n % 10) as usize]);
        v
    }
}

/// The decimal text of a count.
pub fn decimal_usize(n: usize) -> (r: Vec<char>)
    ensures
        r@ == decimal(n as nat),
    decreases n,
{
    let digits = chars_of("0123456789");
    proof {
        reveal_strlit("0123456789");
        assert(digits@ =~= seq!['0', '1', '2', '3', '4', '5', '6', '7', '8', '9']);
    }
    if n < 10 {
        let mut v: Vec<char> = Vec::new();
        v.push(digits[n]);
        assert(v@ =~= seq![digit_char(n as int)]);
        v
    } else {
        let mut v = decimal_usize(n / 10);
        v.push(digits[n % 10]);
        v
    }
}

/// The PDF page for a printed page: printed page plus offset, at least 1.
pub open spec fn pdf_page_spec(printed: u32, offset: i32) -> u32 {
    let p = printed + offset;
    if p < 1 {
        1
    } else {
        p as u32
    }
}

/// The printed page number and the offset add up within `i32`.
pub open spec fn offset_fits(printed: u32, offset: i32) -> bool {
    printed <= i32::MAX && i32::MIN <= printed + offset <= i32::MAX
}

/// Whether a printed page number and an offset add up within `i32`.
pub fn offset_fits_exec(printed: u32, offset: i32) -> (b: bool)
    ensures
        b == offset_fits(printed, offset),
{
    if printed > 0x7fff_ffffu32 {
        return false;
    }
    let s = printed as i64 + offset as i64;
    -0x8000_0000i64 <= s && s <= 0x7fff_ffffi64
}

fn pdf_page(printed: u32, offset: i32) -> (r: u32)
    requires
        offset_fits(printed, offset),
    ensures
        r == pdf_page_spec(printed, offset),
{
    let p = printed as i32 + offset;
    if p < 1 {
        1
    } else {
        p as u32
    }
}

/// "Page <n> not found in document (pdf_page=<p>)".
pub open spec fn page_missing_msg(n: u32, p: u32) -> Seq<char> {
    "Page "@ + decimal(n as nat) + " not found in document (pdf_page="@ + decimal(p as nat) + ")"@
}

/// `get_page`: the text of one page, by printed page number.
pub fn get_page(data: &DocumentData, page_num: u32) -> (r: Result<String, ToolErr>)
    requires
        offset_fits(page_num, data.page_offset),
    ensures
        ({
            let p = pdf_page_spec(page_num, data.page_offset);
            &&& data.pages@.contains_key(p) <==> r is Ok
            &&& r matches Ok(t) ==> t@ == data.pages@[p]@
            &&& r matches Err(e) ==> e.0@ == page_missing_msg(page_num, p)
        }),
{
    broadcast use vstd::std_specs::hash::group_hash_axioms;
    let p = pdf_page(page_num, data.page_offset);
    match data.pages.get(&p) {
        Some(t) => Ok(string_of(&chars_of(t.as_str()))),
        None => {
            let mut m = chars_of("Page ");
            append_all(&mut m, &decimal_exec(page_num));
            append_all(&mut m, &chars_of(" not found in document (pdf_page="));
            append_all(&mut m, &decimal_exec(p));
            append_all(&mut m, &chars_of(")"));
            Err(ToolErr(string_of(&m)))
        },
    }
}

/// The texts of the pages `lo..=hi` that exist, in order.
pub open spec fn range_texts(pages: Map<u32, String>, lo: int, hi: int) -> Seq<Seq<char>>
    decreases hi - lo + 1,
{
    if hi < lo {
        Seq::empty()
    } else {
        let prev = range_texts(pages, lo, hi - 1);
        if 0 <= hi <= u32::MAX && pages.contains_key(hi as u32) {
            prev.push(pages[hi as u32]@)
        } else {
            prev
        }
    }
}

/// The last page read by `get_page_range`: at most 30 pages from the first.
pub open spec fn range_end_spec(start: u32, end: u32) -> u32 {
    let cap = if start + 29 > u32::MAX {
        u32::MAX
    } else {
        (start + 29) as u32
    };
    if end < cap {
        end
    } else {
        cap
    }
}

/// "No pages found in range <s>-<e> (pdf <a>-<b>)".
pub open spec fn range_missing_msg(s: u32, e: u32, a: u32, b: u32) -> Seq<char> {
    "No pages found in range "@ + decimal(s as nat) + "-"@ + decimal(e as nat) + " (pdf "@
        + decimal(a as nat) + "-"@ + decimal(b as nat) + ")"@
}

/// `get_page_range`: the texts of up to 30 consecutive pages, by printed
/// page numbers, separated by `---` lines.
pub fn get_page_range(data: &DocumentData, start: u32, end: u32) -> (r: Result<String, ToolErr>)
    requires
        offset_fits(start, data.page_offset),
        offset_fits(end, data.page_offset),
    ensures
        ({
            let a = pdf_page_spec(start, data.page_offset);
            let b = range_end_spec(a, pdf_page_spec(end, data.page_offset));
            let ts = range_texts(data.pages@, a as int, b as int);
            &&& ts.len() > 0 <==> r is Ok
            &&& r matches Ok(t) ==> t@ == join(ts, "\n\n---\n\n"@)
            &&& r matches Err(e) ==> e.0@ == range_missing_msg(start, end, a, b)
        }),
{
    broadcast use vstd::std_specs::hash::group_hash_axioms;
    let a = pdf_page(start, data.page_offset);
    let e0 = pdf_page(end, data.page_offset);
    let cap = a.saturating_add(29);
    let b = if e0 < cap {
        e0
    } else {
        cap
    };
    let mut parts: Vec<Vec<char>> = Vec::new();
    let mut k: u32 = a;
    assert(range_texts(data.pages@, a as int, a - 1) =~= Seq::<Seq<char>>::empty());
    if a <= b {
        loop
            invariant_except_break
                a <= k <= b,
                vs(parts@) == range_texts(data.pages@, a as int, k - 1),
            ensures
                vs(parts@) == range_texts(data.pages@, a as int, b as int),
            decreases b - k,
        {
            match data.pages.get(&k) {
                Some(t) => {
                    let c = chars_of(t.as_str());
                    proof {
                        lemma_vs_push(parts@, c);
                    }
                    parts.push(c);
                },
                None => {},
            }
            if k == b {
                break;
            }
            k = k + 1;
        }
    }
    assert(vs(parts@) == range_texts(data.pages@, a as int, b as int));
    if parts.len() == 0 {
        let mut m = chars_of("No pages found in range ");
        append_all(&mut m, &decimal_exec(start));
        append_all(&mut m, &chars_of("-"));
        append_all(&mut m, &decimal_exec(end));
        append_all(&mut m, &chars_of(" (pdf "));
        append_all(&mut m, &decimal_exec(a));
        append_all(&mut m, &chars_of("-"));
        append_all(&mut m, &decimal_exec(b));
        append_all(&mut m, &chars_of(")"));
        Err(ToolErr(string_of(&m)))
    } else {
        let sep = chars_of("\n\n---\n\n");
        Ok(string_of(&join_with(&parts, &sep)))
    }
}


/// The agent's system prompt: its tools, its output rules and the JSON
/// shape of its answer, for a document with the given setting, tone and
/// themes.
pub fn agent_system_prompt(doc_title: &str, setting: &str, tone: &str, themes: &str) -> (r: String)
    ensures
        r@ == "You are a specialist story extraction agent for the D&D campaign document '"@ + doc_title@ + "'.\n\
         Setting: "@ + setting@ + ". Tone: "@ + tone@ + ". Themes: "@ + themes@ + ".\n\n\
         You have tools to navigate the document by page number:\n\
         - get_toc(): See the Table of Contents with chapter pages.\n\
         - get_page(page_num): Read a single page.\n\
         - get_page_range(start, end): Read a range of pages (max 30 at once).\n\
         - lookup_index(term): Find which pages mention a specific term.\n\n\
         Use these tools to gather information, then return your findings as a single JSON object.\n\n\
         STRICT RULES:\n\
         - arcs is an array of OBJECTS, not strings. Each arc: \
           {\"title\": \"<name>\", \"description\": \"<2-3 sentences>\", \"arc_order\": <int>}.\n\
           arc_order MUST be a positive integer (1, 2, 3...). NEVER null.\n\
         - event_type MUST be EXACTLY ONE value from: combat, social, revelation, travel, rest, \
           discovery, puzzle, trap, boss, quest_given, npc_interaction. \
           Do NOT use | as a separator. Do NOT invent new types.\n\
         - Return ONLY the JSON object — no prose before or after, no markdown fences.\n\n\
         JSON schema:\n\
         {\n\
           \"arcs\": [\n\
             {\"title\": \"<arc name>\", \"description\": \"<2-3 sentences>\", \"arc_order\": 1}\n\
           ],\n\
           \"events\": [\n\
             {\"title\": \"<name>\", \"description\": \"<2-3 sentences>\", \
               \"event_type\": \"<combat|social|revelation|...>\", \
               \"significance\": \"<trivial|minor|moderate|major|pivotal|climax>\", \
               \"location\": \"<name or null>\", \"involved_characters\": [\"<name>\"], \
               \"event_order\": 1, \"arc_title\": \"<arc title or null>\"}\n\
           ],\n\
           \"subplots\": [{\"title\": \"<title>\", \"description\": \"<desc>\", \"arc_title\": \"<arc or null>\"}],\n\
           \"character_arcs\": [{\"character_name\": \"<name>\", \"description\": \"<desc>\", \
             \"arc_points\": [{\"description\": \"<point>\", \"order\": 1}]}],\n\
           \"encounters\": [{\"name\": \"<name>\", \"description\": \"<desc>\", \
             \"location\": \"<loc or null>\", \"difficulty_hint\": \"<easy|medium|hard|deadly|null>\", \
             \"monsters\": [{\"name\": \"<name>\", \"count\": 1, \"cr\": \"<cr or null>\"}], \
             \"story_event_title\": \"<event title or null>\"}],\n\
           \"npcs\": [{\"name\": \"<name>\", \"role\": \"<villain|ally|neutral|questgiver|boss>\", \
             \"description\": \"<1-2 sentences>\", \"location\": \"<loc or null>\"}],\n\
           \"locations\": [{\"name\": \"<name>\", \"description\": \"<1-2 sentences>\", \
             \"location_type\": \"<dungeon|town|wilderness|stronghold|planar>\"}],\n\
           \"factions\": [{\"name\": \"<name>\", \"description\": \"<1-2 sentences>\", \
             \"alignment_hint\": \"<e.g. lawful evil or null>\"}]\n\
         }\n\
         All arrays may be empty if not applicable."@,
{
    let mut r = String::from_str("You are a specialist story extraction agent for the D&D campaign document '");
    r.append(doc_title);
    r.append("'.\n\
         Setting: ");
    r.append(setting);
    r.append(". Tone: ");
    r.append(tone);
    r.append(". Themes: ");
    r.append(themes);
    r.append(".\n\n\
         You have tools to navigate the document by page number:\n\
         - get_toc(): See the Table of Contents with chapter pages.\n\
         - get_page(page_num): Read a single page.\n\
         - get_page_range(start, end): Read a range of pages (max 30 at once).\n\
         - lookup_index(term): Find which pages mention a specific term.\n\n\
         Use these tools to gather information, then return your findings as a single JSON object.\n\n\
         STRICT RULES:\n\
         - arcs is an array of OBJECTS, not strings. Each arc: \
           {\"title\": \"<name>\", \"description\": \"<2-3 sentences>\", \"arc_order\": <int>}.\n\
           arc_order MUST be a positive integer (1, 2, 3...). NEVER null.\n\
         - event_type MUST be EXACTLY ONE value from: combat, social, revelation, travel, rest, \
           discovery, puzzle, trap, boss, quest_given, npc_interaction. \
           Do NOT use | as a separator. Do NOT invent new types.\n\
         - Return ONLY the JSON object — no prose before or after, no markdown fences.\n\n\
         JSON schema:\n\
         {\n\
           \"arcs\": [\n\
             {\"title\": \"<arc name>\", \"description\": \"<2-3 sentences>\", \"arc_order\": 1}\n\
           ],\n\
           \"events\": [\n\
             {\"title\": \"<name>\", \"description\": \"<2-3 sentences>\", \
               \"event_type\": \"<combat|social|revelation|...>\", \
               \"significance\": \"<trivial|minor|moderate|major|pivotal|climax>\", \
               \"location\": \"<name or null>\", \"involved_characters\": [\"<name>\"], \
               \"event_order\": 1, \"arc_title\": \"<arc title or null>\"}\n\
           ],\n\
           \"subplots\": [{\"title\": \"<title>\", \"description\": \"<desc>\", \"arc_title\": \"<arc or null>\"}],\n\
           \"character_arcs\": [{\"character_name\": \"<name>\", \"description\": \"<desc>\", \
             \"arc_points\": [{\"description\": \"<point>\", \"order\": 1}]}],\n\
           \"encounters\": [{\"name\": \"<name>\", \"description\": \"<desc>\", \
             \"location\": \"<loc or null>\", \"difficulty_hint\": \"<easy|medium|hard|deadly|null>\", \
             \"monsters\": [{\"name\": \"<name>\", \"count\": 1, \"cr\": \"<cr or null>\"}], \
             \"story_event_title\": \"<event title or null>\"}],\n\
           \"npcs\": [{\"name\": \"<name>\", \"role\": \"<villain|ally|neutral|questgiver|boss>\", \
             \"description\": \"<1-2 sentences>\", \"location\": \"<loc or null>\"}],\n\
           \"locations\": [{\"name\": \"<name>\", \"description\": \"<1-2 sentences>\", \
             \"location_type\": \"<dungeon|town|wilderness|stronghold|planar>\"}],\n\
           \"factions\": [{\"name\": \"<name>\", \"description\": \"<1-2 sentences>\", \
             \"alignment_hint\": \"<e.g. lawful evil or null>\"}]\n\
         }\n\
         All arrays may be empty if not applicable.");
    r
}

/// The agent's task for one chapter, with the summary of the chapters
/// before it when there is one.
pub fn agent_chapter_prompt(
    chapter_text: &str,
    chapter_name: &str,
    doc_title: &str,
    prev_summary: Option<&str>,
) -> (r: String)
    ensures
        r@ == "Document: "@ + doc_title@ + "\nChapter: "@ + chapter_name@ + "\n"@ + match prev_summary {
            Some(p) => "\nPrevious chapters summary:\n"@ + p@ + "\n"@,
            None => Seq::<char>::empty(),
        } + "\n# "@ + chapter_name@ + "\n"@ + chapter_text@ + "\n\n\
         Extract the complete story structure for this chapter. \
         Use lookup_index or get_page if you need more detail on any element. \
         Return the StoryExtractionResult JSON."@,
{
    let mut r = String::from_str("Document: ");
    r.append(doc_title);
    r.append("\nChapter: ");
    r.append(chapter_name);
    r.append("\n");
    match prev_summary {
        Some(p) => {
            r.append("\nPrevious chapters summary:\n");
            r.append(p);
            r.append("\n");
        },
        None => {},
    }
    r.append("\n# ");
    r.append(chapter_name);
    r.append("\n");
    r.append(chapter_text);
    r.append("\n\n\
         Extract the complete story structure for this chapter. \
         Use lookup_index or get_page if you need more detail on any element. \
         Return the StoryExtractionResult JSON.");
    r
}


/// `"  "` repeated `n` times.
pub open spec fn indent(n: nat) -> Seq<char>
    decreases n,
{
    if n == 0 {
        Seq::empty()
    } else {
        indent((n - 1) as nat) + "  "@
    }
}

/// One ToC line: indented by depth, "<title> — page <n>".
pub open spec fn toc_line(e: TocEntry) -> Seq<char> {
    indent(e.depth as nat) + e.title@ + " \u{2014} page "@ + decimal(e.page as nat)
}

/// What `get_toc` returns.
pub open spec fn get_toc_spec(toc: Seq<TocEntry>) -> Seq<char> {
    if toc.len() == 0 {
        "No Table of Contents available for this document."@
    } else {
        join(toc.map_values(|e: TocEntry| toc_line(e)), "\n"@)
    }
}

fn indent_exec(n: u8) -> (r: Vec<char>)
    ensures
        r@ == indent(n as nat),
{
    let mut r: Vec<char> = Vec::new();
    let mut i: u8 = 0;
    let two = chars_of("  ");
    while i < n
        invariant
            i <= n,
            r@ == indent(i as nat),
            two@ == "  "@,
        decreases n - i,
    {
        append_all(&mut r, &two);
        i = i + 1;
    }
    r
}

/// `get_toc`: the Table of Contents, one indented line per entry.
pub fn get_toc(data: &DocumentData) -> (r: String)
    ensures
        r@ == get_toc_spec(data.toc@),
{
    if data.toc.len() == 0 {
        return string_of(&chars_of("No Table of Contents available for this document."));
    }
    let mut lines: Vec<Vec<char>> = Vec::new();
    let mut i: usize = 0;
    while i < data.toc.len()
        invariant
            i <= data.toc.len(),
            vs(lines@) == data.toc@.take(i as int).map_values(|e: TocEntry| toc_line(e)),
        decreases data.toc.len() - i,
    {
        let e = &data.toc[i];
        let mut l = indent_exec(e.depth);
        append_all(&mut l, &chars_of(e.title.as_str()));
        append_all(&mut l, &chars_of(" \u{2014} page "));
        append_all(&mut l, &decimal_exec(e.page));
        proof {
            lemma_vs_push(lines@, l);
            assert(data.toc@.take(i + 1).map_values(|e: TocEntry| toc_line(e)) =~= data.toc@.take(
                i as int,
            ).map_values(|e: TocEntry| toc_line(e)).push(l@));
        }
        lines.push(l);
        i = i + 1;
    }
    assert(data.toc@.take(i as int) =~= data.toc@);
    string_of(&join_with(&lines, &chars_of("\n")))
}

/// Position of the first Index entry with term `k`, or the number of entries.
pub open spec fn find_term(idx: Seq<IndexEntry>, k: Seq<char>) -> int
    decreases idx.len(),
{
    if idx.len() == 0 {
        0
    } else if idx[0].term@ == k {
        0
    } else {
        1 + find_term(idx.drop_first(), k)
    }
}

/// What `lookup_index` answers for a term.
pub open spec fn lookup_index_spec(idx: Seq<IndexEntry>, term: Seq<char>) -> Seq<char> {
    let i = find_term(idx, lowercase(term));
    if i < idx.len() && idx[i].pages@.len() > 0 {
        "'"@ + term + "' appears on page(s): "@ + join(
            idx[i].pages@.map_values(|p: u32| decimal(p as nat)),
            ", "@,
        )
    } else {
        "'"@ + term + "' was not found in the document index."@
    }
}

/// `lookup_index`: the pages on which an Index term (case-insensitive) appears.
pub fn lookup_index(data: &DocumentData, term: &str) -> (r: String)
    ensures
        r@ == lookup_index_spec(data.index@, term@),
{
    let key = to_lowercase(&chars_of(term));
    let mut i: usize = 0;
    assert(data.index@.skip(0) =~= data.index@);
    while i < data.index.len()
        invariant
            i <= data.index.len(),
            find_term(data.index@, key@) == i + find_term(data.index@.skip(i as int), key@),
        ensures
            i <= data.index.len(),
            find_term(data.index@, key@) == i + find_term(data.index@.skip(i as int), key@),
            i < data.index.len() ==> data.index@[i as int].term@ == key@,
        decreases data.index.len() - i,
    {
        assert(data.index@.skip(i as int)[0] == data.index@[i as int]);
        if chars_eq(&chars_of(data.index[i].term.as_str()), &key) {
            break;
        }
        assert(data.index@.skip(i as int).drop_first() =~= data.index@.skip(i + 1));
        i = i + 1;
    }
    proof {
        if i == data.index.len() {
            assert(data.index@.skip(i as int) =~= Seq::<IndexEntry>::empty());
        } else {
            assert(data.index@.skip(i as int)[0] == data.index@[i as int]);
        }
    }
    let mut m = chars_of("'");
    append_all(&mut m, &chars_of(term));
    if i < data.index.len() && data.index[i].pages.len() > 0 {
        let pages = &data.index[i].pages;
        let mut ds: Vec<Vec<char>> = Vec::new();
        let mut j: usize = 0;
        while j < pages.len()
            invariant
                j <= pages.len(),
                vs(ds@) == pages@.take(j as int).map_values(|p: u32| decimal(p as nat)),
            decreases pages.len() - j,
        {
            let d = decimal_exec(pages[j]);
            proof {
                lemma_vs_push(ds@, d);
                assert(pages@.take(j + 1).map_values(|p: u32| decimal(p as nat)) =~= pages@.take(
                    j as int,
                ).map_values(|p: u32| decimal(p as nat)).push(d@));
            }
            ds.push(d);
            j = j + 1;
        }
        assert(pages@.take(j as int) =~= pages@);
        append_all(&mut m, &chars_of("' appears on page(s): "));
        append_all(&mut m, &join_with(&ds, &chars_of(", ")));
    } else {
        append_all(&mut m, &chars_of("' was not found in the document index."));
    }
    string_of(&m)
}

// ───────────────────────────── tool definitions ─────────────────────────────

/// The JSON type of a tool argument.
#[derive(Debug, Clone, Copy, PartialEq, Eq, Structural)]
pub enum ArgType {
    Integer,
    Text,
}

/// One argument of a tool; every argument is required.
pub struct ToolArg {
    pub name: &'static str,
    pub arg_type: ArgType,
    pub description: &'static str,
}

/// What the agent is told about a tool: its name, what it does, and its
/// arguments.
pub struct ToolSpec {
    pub name: &'static str,
    pub description: &'static str,
    pub args: Vec<ToolArg>,
}

/// The `get_page` tool.
pub fn get_page_tool() -> (r: ToolSpec)
    ensures
        r.name@ == "get_page"@,
        r.description@ == "Return the raw text of a single page from the campaign document. Use this after finding a page number via lookup_index or get_toc."@,
        r.args@.len() == 1,
        r.args@[0].name@ == "page_num"@,
        r.args@[0].arg_type == ArgType::Integer,
        r.args@[0].description@ == "1-based page number to retrieve"@,
{
    ToolSpec {
        name: "get_page",
        description: "Return the raw text of a single page from the campaign document. Use this after finding a page number via lookup_index or get_toc.",
        args: vec![ToolArg { name: "page_num", arg_type: ArgType::Integer, description: "1-based page number to retrieve" }],
    }
}

/// The `get_page_range` tool.
pub fn get_page_range_tool() -> (r: ToolSpec)
    ensures
        r.name@ == "get_page_range"@,
        r.description@ == "Return the concatenated text of a range of consecutive pages. Use this to read an entire chapter at once after finding its start page from get_toc. Limit to 30 pages per call."@,
        r.args@.len() == 2,
        r.args@[0].name@ == "start"@,
        r.args@[0].arg_type == ArgType::Integer,
        r.args@[0].description@ == "First page number (inclusive, 1-based)"@,
        r.args@[1].name@ == "end"@,
        r.args@[1].arg_type == ArgType::Integer,
        r.args@[1].description@ == "Last page number (inclusive, 1-based, max start+29)"@,
{
    ToolSpec {
        name: "get_page_range",
        description: "Return the concatenated text of a range of consecutive pages. Use this to read an entire chapter at once after finding its start page from get_toc. Limit to 30 pages per call.",
        args: vec![
            ToolArg { name: "start", arg_type: ArgType::Integer, description: "First page number (inclusive, 1-based)" },
            ToolArg { name: "end", arg_type: ArgType::Integer, description: "Last page number (inclusive, 1-based, max start+29)" },
        ],
    }
}

/// The `get_toc` tool, which takes no argument.
pub fn get_toc_tool() -> (r: ToolSpec)
    ensures
        r.name@ == "get_toc"@,
        r.description@ == "Return the Table of Contents for this document as a formatted list showing chapter titles and their starting page numbers."@,
        r.args@.len() == 0,
{
    ToolSpec {
        name: "get_toc",
        description: "Return the Table of Contents for this document as a formatted list showing chapter titles and their starting page numbers.",
        args: Vec::new(),
    }
}

/// The `lookup_index` tool.
pub fn lookup_index_tool() -> (r: ToolSpec)
    ensures
        r.name@ == "lookup_index"@,
        r.description@ == "Look up a term in the document's back-of-book Index and return the page numbers where it appears. Use this when you need more information about a specific NPC, location, faction, or concept."@,
        r.args@.len() == 1,
        r.args@[0].name@ == "term"@,
        r.args@[0].arg_type == ArgType::Text,
        r.args@[0].description@ == "The term to look up (case-insensitive)"@,
{
    ToolSpec {
        name: "lookup_index",
        description: "Look up a term in the document's back-of-book Index and return the page numbers where it appears. Use this when you need more information about a specific NPC, location, faction, or concept.",
        args: vec![ToolArg { name: "term", arg_type: ArgType::Text, description: "The term to look up (case-insensitive)" }],
    }
}

} // verus!
