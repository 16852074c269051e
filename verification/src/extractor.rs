//! Page extraction results and the text clean-up applied to them.
use vstd::prelude::*;
use crate::agent::{decimal, decimal_exec};
use crate::sheet::strings_of;
use crate::split::{
    join, join_with, lemma_take_last, lemma_vs_push, lines, lines_of, strip_all_prefix,
    strip_all_prefix_exec, vs, words, words_of,
};
use crate::text::{
    append_all, byte_len, chars_of, fits_within, opt_str, is_uppercase, string_of, trim, trim_end, trimmed,
    trimmed_end, upper, utf8_len,
};

verus! {

/// The text of one page of a document, as produced by the text layer or OCR.
pub struct PageExtraction {
    pub page_num: u32,
    pub raw_text: String,
    pub headings: Vec<String>,
}

/// Side of the square patches that the vision model works on, in pixels.
pub const VISION_PATCH_SIZE: u32 = 28;

/// `n` rounded up to a multiple of the patch size.
pub open spec fn align_to_patch_spec(n: nat) -> nat {
    ((n + 27) / 28) * 28
}

/// Rounds an image dimension up to a multiple of 28 pixels.
pub fn align_to_patch(n: u32) -> (r: u32)
    requires
        align_to_patch_spec(n as nat) <= u32::MAX,
    ensures
        r == align_to_patch_spec(n as nat),
        r % 28 == 0,
        n <= r < n + 28,
{
    let q: u32 = n / VISION_PATCH_SIZE + if n % VISION_PATCH_SIZE == 0 {
        0
    } else {
        1
    };
    assert(q == (n as nat + 27) / 28) by (nonlinear_arith)
        requires
            q == n / 28 + if n % 28 == 0 {
                0int
            } else {
                1int
            },
    ;
    assert(q * 28 <= u32::MAX);
    assert(n <= q * 28 < n + 28) by (nonlinear_arith)
        requires
            q == (n as nat + 27) / 28,
    ;
    q * VISION_PATCH_SIZE
}

/// Line breaks unified: `\r\n` and a lone `\r` become `\n`; tabs become spaces.
pub open spec fn unify_breaks(s: Seq<char>) -> Seq<char>
    decreases s.len(),
{
    if s.len() == 0 {
        s
    } else if s[0] == '\r' && s.len() >= 2 && s[1] == '\n' {
        seq!['\n'] + unify_breaks(s.skip(2))
    } else if s[0] == '\r' {
        seq!['\n'] + unify_breaks(s.skip(1))
    } else if s[0] == '\t' {
        seq![' '] + unify_breaks(s.skip(1))
    } else {
        seq![s[0]] + unify_breaks(s.skip(1))
    }
}

/// Runs of spaces collapsed to one space.
pub open spec fn collapse_spaces(s: Seq<char>) -> Seq<char>
    decreases s.len(),
{
    if s.len() == 0 {
        s
    } else if s.last() == ' ' && s.len() >= 2 && s[s.len() - 2] == ' ' {
        collapse_spaces(s.drop_last())
    } else {
        collapse_spaces(s.drop_last()).push(s.last())
    }
}

/// A normalised line: spaces collapsed, trailing whitespace removed.
pub open spec fn normalize_line(l: Seq<char>) -> Seq<char> {
    trim_end(collapse_spaces(l))
}

/// The normalised text of a page.
pub open spec fn normalize_page_text_spec(s: Seq<char>) -> Seq<char> {
    join(lines(unify_breaks(s)).map_values(|l: Seq<char>| normalize_line(l)), "\n"@)
}

fn unify_breaks_exec(v: &[char]) -> (r: Vec<char>)
    ensures
        r@ == unify_breaks(v@),
{
    let mut out: Vec<char> = Vec::new();
    let mut i: usize = 0;
    assert(v@.skip(0) =~= v@);
    while i < v.len()
        invariant
            i <= v.len(),
            unify_breaks(v@) == out@ + unify_breaks(v@.skip(i as int)),
        decreases v.len() - i,
    {
        let ghost rest = v@.skip(i as int);
        if v[i] == '\r' && i + 1 < v.len() && v[i + 1] == '\n' {
            assert(rest.skip(2) =~= v@.skip(i + 2));
            out.push('\n');
            assert(unify_breaks(v@) == out@ + unify_breaks(v@.skip(i + 2)));
            i = i + 2;
        } else {
            let c = if v[i] == '\r' {
                '\n'
            } else if v[i] == '\t' {
                ' '
            } else {
                v[i]
            };
            assert(rest.skip(1) =~= v@.skip(i + 1));
            out.push(c);
            assert(unify_breaks(v@) == out@ + unify_breaks(v@.skip(i + 1)));
            i = i + 1;
        }
    }
    assert(v@.skip(i as int) =~= Seq::<char>::empty());
    assert(out@ + Seq::<char>::empty() =~= out@);
    out
}

fn collapse_spaces_exec(v: &[char]) -> (r: Vec<char>)
    ensures
        r@ == collapse_spaces(v@),
{
    let mut out: Vec<char> = Vec::new();
    let mut prev_space = false;
    let mut i: usize = 0;
    assert(v@.take(0) =~= Seq::<char>::empty());
    while i < v.len()
        invariant
            i <= v.len(),
            out@ == collapse_spaces(v@.take(i as int)),
            prev_space == (i > 0 && v@[i - 1] == ' '),
        decreases v.len() - i,
    {
        let ghost t = v@.take(i + 1);
        assert(t.drop_last() =~= v@.take(i as int));
        if v[i] == ' ' {
            if !prev_space {
                out.push(' ');
            }
            prev_space = true;
        } else {
            out.push(v[i]);
            prev_space = false;
        }
        i = i + 1;
    }
    assert(v@.take(i as int) =~= v@);
    out
}

/// Normalises page text: `\r\n` and `\r` become `\n`, tabs become spaces,
/// runs of spaces on a line become one space, and trailing whitespace is
/// removed from each line.
pub fn normalize_page_text(s: &str) -> (r: String)
    ensures
        r@ == normalize_page_text_spec(s@),
{
    let v = chars_of(s);
    let u = unify_breaks_exec(&v);
    let ls = lines_of(&u);
    let mut outs: Vec<Vec<char>> = Vec::new();
    let mut i: usize = 0;
    while i < ls.len()
        invariant
            i <= ls.len(),
            vs(ls@) == lines(u@),
            vs(outs@) == vs(ls@).take(i as int).map_values(|l: Seq<char>| normalize_line(l)),
        decreases ls.len() - i,
    {
        let c = collapse_spaces_exec(&ls[i]);
        let t = trimmed_end(&c);
        proof {
            lemma_vs_push(outs@, t);
            assert(vs(ls@)[i as int] == ls@[i as int]@);
            assert(vs(ls@).take(i + 1).map_values(|l: Seq<char>| normalize_line(l)) =~= vs(
                ls@,
            ).take(i as int).map_values(|l: Seq<char>| normalize_line(l)).push(t@));
        }
        outs.push(t);
        i = i + 1;
    }
    assert(vs(ls@).take(i as int) =~= vs(ls@));
    let sep = chars_of("\n");
    let j = join_with(&outs, &sep);
    string_of(&j)
}

// ───────────────────────────── text-layer pages ─────────────────────────────

/// The fewest words a page's text layer must have to be read without OCR.
pub const TEXT_LAYER_MIN_WORDS: usize = 80;

/// Whether a page's text layer has enough words to be used as it is.
pub fn has_text_layer(native_text: &str) -> (b: bool)
    ensures
        b == (words(native_text@).len() >= TEXT_LAYER_MIN_WORDS),
{
    words_of(&chars_of(native_text)).len() >= TEXT_LAYER_MIN_WORDS
}

/// Number of uppercase characters.
pub open spec fn upper_count(s: Seq<char>) -> nat
    decreases s.len(),
{
    if s.len() == 0 {
        0
    } else {
        upper_count(s.drop_last()) + if upper(s.last()) {
            1nat
        } else {
            0nat
        }
    }
}

/// A text-layer line that looks like a heading: once trimmed it is not
/// empty, is shorter than 80 bytes, and starts with `#` or has more
/// uppercase characters than half its length in bytes.
pub open spec fn is_layer_heading(l: Seq<char>) -> bool {
    let t = trim(l);
    t.len() > 0 && utf8_len(t) < 80 && (t[0] == '#' || upper_count(t) > utf8_len(t) / 2)
}

/// The heading lines, in order.
pub open spec fn layer_heading_lines(ls: Seq<Seq<char>>) -> Seq<Seq<char>>
    decreases ls.len(),
{
    if ls.len() == 0 {
        Seq::empty()
    } else if is_layer_heading(ls.last()) {
        layer_heading_lines(ls.drop_last()).push(ls.last())
    } else {
        layer_heading_lines(ls.drop_last())
    }
}

/// A heading line without the `#` marks it starts with, trimmed.
pub open spec fn layer_heading_text(l: Seq<char>) -> Seq<char> {
    trim(strip_all_prefix(l, seq!['#']))
}

/// The headings of a text-layer page: its first ten heading lines.
pub open spec fn text_layer_headings_spec(text: Seq<char>) -> Seq<Seq<char>> {
    let hs = layer_heading_lines(lines(text));
    let first = if hs.len() <= 10 {
        hs
    } else {
        hs.take(10)
    };
    first.map_values(|l: Seq<char>| layer_heading_text(l))
}

fn count_upper(v: &[char]) -> (n: usize)
    ensures
        n == upper_count(v@),
{
    let mut n: usize = 0;
    let mut i: usize = 0;
    while i < v.len()
        invariant
            i <= v.len(),
            n == upper_count(v@.take(i as int)),
            n <= i,
        decreases v.len() - i,
    {
        assert(v@.take(i + 1).drop_last() =~= v@.take(i as int));
        if is_uppercase(v[i]) {
            n = n + 1;
        }
        i = i + 1;
    }
    assert(v@.take(i as int) =~= v@);
    n
}

fn is_layer_heading_exec(l: &[char]) -> (b: bool)
    ensures
        b == is_layer_heading(l@),
{
    let t = trimmed(l);
    if t.len() == 0 || !fits_within(&t, 79) {
        return false;
    }
    if t[0] == '#' {
        return true;
    }
    let n = byte_len(&t);
    count_upper(&t) > n / 2
}

/// The headings that a text-layer page shows: the first ten lines that look
/// like headings, with their leading `#` marks and surrounding whitespace
/// removed.
pub fn text_layer_headings(text: &str) -> (r: Vec<String>)
    ensures
        r@.map_values(|s: String| s@) == text_layer_headings_spec(text@),
{
    let ls = lines_of(&chars_of(text));
    let ghost all = vs(ls@);
    let mut hs: Vec<Vec<char>> = Vec::new();
    let mut i: usize = 0;
    while i < ls.len()
        invariant
            i <= ls.len(),
            all == vs(ls@),
            vs(hs@) == layer_heading_lines(all.take(i as int)),
        decreases ls.len() - i,
    {
        proof {
            assert(all.take(i + 1).drop_last() =~= all.take(i as int));
            assert(all.take(i + 1).last() == ls@[i as int]@);
        }
        if is_layer_heading_exec(&ls[i]) {
            proof {
                lemma_vs_push(hs@, ls@[i as int]);
            }
            hs.push(ls[i].clone());
        }
        i = i + 1;
    }
    assert(all.take(i as int) =~= all);
    let ghost hv = vs(hs@);
    let n: usize = if hs.len() <= 10 { hs.len() } else { 10 };
    let hash = vec!['#'];
    let mut out: Vec<Vec<char>> = Vec::new();
    let mut j: usize = 0;
    while j < n
        invariant
            j <= n,
            n <= hs.len(),
            n == if hs.len() <= 10 { hs.len() } else { 10 },
            hv == vs(hs@),
            hash@ == seq!['#'],
            vs(out@) == hv.take(j as int).map_values(|l: Seq<char>| layer_heading_text(l)),
        decreases n - j,
    {
        let h = trimmed(&strip_all_prefix_exec(&hs[j], &hash));
        proof {
            lemma_vs_push(out@, h);
            assert(hv[j as int] == hs@[j as int]@);
            assert(hv.take(j + 1).map_values(|l: Seq<char>| layer_heading_text(l)) =~= hv.take(
                j as int,
            ).map_values(|l: Seq<char>| layer_heading_text(l)).push(h@));
        }
        out.push(h);
        j = j + 1;
    }
    proof {
        if hv.len() <= 10 {
            assert(hv.take(j as int) =~= hv);
        }
    }
    strings_of(&out)
}

/// A page read from its text layer: the normalised text, with the headings
/// found in the text as it was.
pub fn text_layer_page(page_num: u32, text: &str) -> (r: PageExtraction)
    ensures
        r.page_num == page_num,
        r.raw_text@ == normalize_page_text_spec(text@),
        r.headings@.map_values(|s: String| s@) == text_layer_headings_spec(text@),
{
    PageExtraction {
        page_num,
        raw_text: normalize_page_text(text),
        headings: text_layer_headings(text),
    }
}

// ───────────────────────────── OCR pages ─────────────────────────────

/// What the vision model answers for a page: its text and the headings it
/// saw.
pub struct OcrPageReply {
    pub raw_text: String,
    pub headings: Vec<String>,
}

/// The page made from a vision-OCR answer: `content` is the model's reply
/// (`None` when the call failed), `reply` the reply read as an
/// `OcrPageReply` where it is one. A failed call gives an empty page; a
/// reply that is not an `OcrPageReply` is taken as the page's text.
pub fn vision_page(page_num: u32, content: Option<&str>, reply: Option<OcrPageReply>) -> (r: PageExtraction)
    ensures
        r.page_num == page_num,
        content is None ==> r.raw_text@.len() == 0 && r.headings@.len() == 0,
        content matches Some(c) ==> match reply {
            Some(p) => r.raw_text@ == normalize_page_text_spec(p.raw_text@) && r.headings@ == p.headings@,
            None => r.raw_text@ == normalize_page_text_spec(c@) && r.headings@.len() == 0,
        },
{
    match content {
        None => PageExtraction { page_num, raw_text: String::new(), headings: Vec::new() },
        Some(c) => match reply {
            Some(p) => PageExtraction {
                page_num,
                raw_text: normalize_page_text(p.raw_text.as_str()),
                headings: p.headings,
            },
            None => PageExtraction { page_num, raw_text: normalize_page_text(c), headings: Vec::new() },
        },
    }
}

/// The text of OCR'd character-sheet pages joined in order: each answered
/// page's text, with a `--- Page N ---` line before it once some text is
/// there; pages whose call failed are left out.
pub open spec fn combined_ocr(pages: Seq<(u32, Option<Seq<char>>)>) -> Seq<char>
    decreases pages.len(),
{
    if pages.len() == 0 {
        Seq::empty()
    } else {
        let prev = combined_ocr(pages.drop_last());
        match pages.last().1 {
            None => prev,
            Some(c) => if prev.len() == 0 {
                prev + c
            } else {
                prev + "\n\n--- Page "@ + decimal(pages.last().0 as nat) + " ---\n"@ + c
            },
        }
    }
}

pub open spec fn page_texts_view(pages: Seq<(u32, Option<String>)>) -> Seq<(u32, Option<Seq<char>>)> {
    pages.map_values(|p: (u32, Option<String>)| (p.0, opt_str(p.1)))
}

/// The character-sheet text from OCR'd pages: the joined page texts, or
/// `fallback` (the text layer's) when they are blank.
pub fn combine_sheet_pages(pages: &[(u32, Option<String>)], fallback: String) -> (r: String)
    ensures
        r@ == if trim(combined_ocr(page_texts_view(pages@))).len() == 0 {
            fallback@
        } else {
            combined_ocr(page_texts_view(pages@))
        },
{
    let ghost pv = page_texts_view(pages@);
    let mut out: Vec<char> = Vec::new();
    let mut i: usize = 0;
    while i < pages.len()
        invariant
            i <= pages.len(),
            pv == page_texts_view(pages@),
            out@ == combined_ocr(pv.take(i as int)),
        decreases pages.len() - i,
    {
        proof {
            assert(pv.take(i + 1).drop_last() =~= pv.take(i as int));
            assert(pv.take(i + 1).last() == pv[i as int]);
        }
        match &pages[i].1 {
            None => {},
            Some(c) => {
                if out.len() > 0 {
                    append_all(&mut out, &chars_of("\n\n--- Page "));
                    append_all(&mut out, &decimal_exec(pages[i].0));
                    append_all(&mut out, &chars_of(" ---\n"));
                }
                append_all(&mut out, &chars_of(c.as_str()));
            },
        }
        i = i + 1;
    }
    assert(pv.take(i as int) =~= pv);
    if trimmed(&out).len() == 0 {
        fallback
    } else {
        string_of(&out)
    }
}

// ───────────────────────────── column layout ─────────────────────────────

/// Number of bins in the histogram of character x-positions across a page.
pub const LAYOUT_BINS: usize = 24;

/// Number of maximal runs of bins at or below `t` (the valleys between
/// columns of text).
pub open spec fn valley_runs(s: Seq<u32>, t: u32) -> nat
    decreases s.len(),
{
    if s.len() == 0 {
        0
    } else {
        valley_runs(s.drop_last(), t) + if s.last() <= t && (s.len() == 1 || s[s.len() - 2] > t) {
            1nat
        } else {
            0nat
        }
    }
}

/// Counts the valleys in the middle third of the histogram (bins 8 to 15):
/// the runs of bins whose count is at most `threshold`.
pub fn count_valleys(hist: &[u32], threshold: u32) -> (n: usize)
    requires
        hist.len() == LAYOUT_BINS,
    ensures
        n == valley_runs(hist@.subrange(8, 16), threshold),
{
    let ghost mid = hist@.subrange(8, 16);
    let mut in_valley = false;
    let mut n: usize = 0;
    let mut i: usize = 8;
    while i < 16
        invariant
            8 <= i <= 16,
            hist.len() == LAYOUT_BINS,
            mid == hist@.subrange(8, 16),
            n == valley_runs(mid.take(i - 8), threshold),
            n <= i - 8,
            in_valley == (i > 8 && hist[i - 1] <= threshold),
        decreases 16 - i,
    {
        proof {
            let k = (i - 8) as int;
            assert(mid.take(k + 1).drop_last() =~= mid.take(k));
            assert(mid.take(k + 1).last() == hist@[i as int]);
            if k > 0 {
                assert(mid.take(k + 1)[k - 1] == hist@[i - 1]);
            }
        }
        if hist[i] <= threshold {
            if !in_valley {
                in_valley = true;
                n = n + 1;
            }
        } else {
            in_valley = false;
        }
        i = i + 1;
    }
    assert(mid.take(8) =~= mid);
    n
}

/// The layout that a number of valleys shows: none is one column, one is
/// two columns, more are three.
pub fn layout_for_valleys(n: usize) -> (r: &'static str)
    ensures
        n == 0 ==> r@ == "single-column"@,
        n == 1 ==> r@ == "two-column"@,
        n >= 2 ==> r@ == "three-column"@,
{
    if n == 0 {
        "single-column"
    } else if n == 1 {
        "two-column"
    } else {
        "three-column"
    }
}

// ───────────────────────────── OCR image size ─────────────────────────────

/// The fewest pixels a page image sent to the vision model may have.
pub const OCR_MIN_PIXELS: u32 = 12_544;

/// The most pixels a page image sent to the vision model may have.
pub const OCR_MAX_PIXELS: u32 = 71_372_800;

/// How a rendered page image is resized before OCR.
#[derive(Debug, Clone, Copy, PartialEq, Eq, Structural)]
pub enum Rescale {
    /// Scale up to the minimum pixel count.
    Up,
    /// Scale down to the maximum pixel count.
    Down,
    /// Keep the size.
    Keep,
}

/// Whether an image of `width` × `height` pixels must be scaled up or down to
/// stay within the vision model's pixel budget.
pub fn ocr_rescale(width: u32, height: u32) -> (r: Rescale)
    requires
        width * height <= u32::MAX,
    ensures
        r == if width * height < OCR_MIN_PIXELS {
            Rescale::Up
        } else if width * height > OCR_MAX_PIXELS {
            Rescale::Down
        } else {
            Rescale::Keep
        },
{
    let area: u32 = width * height;
    if area < OCR_MIN_PIXELS {
        Rescale::Up
    } else if area > OCR_MAX_PIXELS {
        Rescale::Down
    } else {
        Rescale::Keep
    }
}

} // verus!
