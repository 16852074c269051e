//! The AcroForm fields of a fillable PDF: decoding PDF text strings and
//! choosing, object by object, the (name, value) pairs of filled-in fields.
use vstd::prelude::*;
use crate::sheet::{
    either, field_views, has_field, lookup, names_distinct, parse_character_sheet_from_fields,
    sheet_matches, ParsedSheetResult,
};
use crate::store::str_eq;
use crate::text::{chars_of, opt_str, string_of, trim, trimmed};

verus! {

// ───────────────────────────── PDF text strings ─────────────────────────────

/// The code units of a UTF-16 string that follows a two-byte mark in `b`,
/// read in the given byte order; a trailing odd byte is dropped.
pub open spec fn utf16_units(b: Seq<u8>, big_endian: bool) -> Seq<u16>
    recommends
        b.len() >= 2,
{
    Seq::new(
        ((b.len() - 2) / 2) as nat,
        |i: int|
            if big_endian {
                (b[2 + 2 * i] as int * 256 + b[3 + 2 * i] as int) as u16
            } else {
                (b[3 + 2 * i] as int * 256 + b[2 + 2 * i] as int) as u16
            },
    )
}

/// A UTF-16 high (leading) surrogate.
pub open spec fn is_high_surrogate(u: u16) -> bool {
    0xD800 <= u <= 0xDBFF
}

/// A UTF-16 low (trailing) surrogate.
pub open spec fn is_low_surrogate(u: u16) -> bool {
    0xDC00 <= u <= 0xDFFF
}

/// UTF-16 decoding: a unit outside the surrogate range stands for itself, a
/// high surrogate followed by a low one for a supplementary character; any
/// other surrogate makes the whole decoding fail.
pub open spec fn decode_utf16(u: Seq<u16>) -> Option<Seq<char>>
    decreases u.len(),
{
    if u.len() == 0 {
        Some(Seq::empty())
    } else if !is_high_surrogate(u[0]) && !is_low_surrogate(u[0]) {
        match decode_utf16(u.drop_first()) {
            Some(rest) => Some(seq![u[0] as char] + rest),
            None => None,
        }
    } else if is_high_surrogate(u[0]) && u.len() >= 2 && is_low_surrogate(u[1]) {
        match decode_utf16(u.subrange(2, u.len() as int)) {
            Some(rest) => Some(
                seq![(0x10000 + (u[0] - 0xD800) * 0x400 + (u[1] - 0xDC00)) as char] + rest,
            ),
            None => None,
        }
    } else {
        None
    }
}

/// Bytes read as Latin-1: each byte is the character with that code.
pub open spec fn latin1(b: Seq<u8>) -> Seq<char> {
    b.map_values(|x: u8| x as char)
}

/// The text of a PDF string object, trimmed: UTF-16 big- or little-endian
/// after its byte-order mark, else UTF-8 where the bytes are valid UTF-8,
/// else Latin-1. An empty string, or UTF-16 that does not decode, has none.
pub open spec fn pdf_text(b: Seq<u8>) -> Option<Seq<char>> {
    if b.len() == 0 {
        None
    } else if b.len() >= 2 && b[0] == 0xfe && b[1] == 0xff {
        match decode_utf16(utf16_units(b, true)) {
            Some(s) => Some(trim(s)),
            None => None,
        }
    } else if b.len() >= 2 && b[0] == 0xff && b[1] == 0xfe {
        match decode_utf16(utf16_units(b, false)) {
            Some(s) => Some(trim(s)),
            None => None,
        }
    } else if vstd::utf8::valid_utf8(b) {
        Some(trim(vstd::utf8::decode_utf8(b)))
    } else {
        Some(trim(latin1(b)))
    }
}

/// `String::from_utf16`, which decodes UTF-16 and fails on an unpaired
/// surrogate, as its documentation says; the decoding is `decode_utf16`.
#[verifier::external_body]
fn string_from_utf16(units: &[u16]) -> (r: Option<String>)
    ensures
        match r {
            Some(s) => decode_utf16(units@) == Some(s@),
            None => decode_utf16(units@) is None,
        },
{
    String::from_utf16(units).ok()
}

/// `std::str::from_utf8`: succeeds exactly on valid UTF-8, which it decodes.
#[verifier::external_body]
fn str_from_utf8(b: &[u8]) -> (r: Option<&str>)
    ensures
        r is Some <==> vstd::utf8::valid_utf8(b@),
        r matches Some(s) ==> s@ == vstd::utf8::decode_utf8(b@),
{
    std::str::from_utf8(b).ok()
}

/// The UTF-16 code units after the two-byte mark.
fn utf16_units_of(b: &[u8], big_endian: bool) -> (r: Vec<u16>)
    requires
        b.len() >= 2,
    ensures
        r@ == utf16_units(b@, big_endian),
{
    let n: usize = (b.len() - 2) / 2;
    let mut r: Vec<u16> = Vec::new();
    let mut i: usize = 0;
    while i < n
        invariant
            n == (b.len() - 2) / 2,
            i <= n,
            r@ == utf16_units(b@, big_endian).take(i as int),
        decreases n - i,
    {
        let hi: u8 = if big_endian { b[2 + 2 * i] } else { b[3 + 2 * i] };
        let lo: u8 = if big_endian { b[3 + 2 * i] } else { b[2 + 2 * i] };
        let u: u16 = hi as u16 * 256 + lo as u16;
        r.push(u);
        assert(r@ =~= utf16_units(b@, big_endian).take(i + 1));
        i = i + 1;
    }
    assert(r@ =~= utf16_units(b@, big_endian));
    r
}

/// The bytes read as Latin-1.
fn latin1_chars(b: &[u8]) -> (r: Vec<char>)
    ensures
        r@ == latin1(b@),
{
    let mut r: Vec<char> = Vec::new();
    let mut i: usize = 0;
    while i < b.len()
        invariant
            i <= b.len(),
            r@ == latin1(b@).take(i as int),
        decreases b.len() - i,
    {
        r.push(b[i] as char);
        assert(r@ =~= latin1(b@).take(i + 1));
        i = i + 1;
    }
    assert(r@ =~= latin1(b@));
    r
}

/// Decodes the bytes of a PDF string object as `pdf_text` says.
pub fn pdf_str_to_string(raw: &[u8]) -> (r: Option<String>)
    ensures
        match r {
            Some(s) => pdf_text(raw@) == Some(s@),
            None => pdf_text(raw@) is None,
        },
{
    if raw.len() == 0 {
        return None;
    }
    if raw.len() >= 2 && ((raw[0] == 0xfe && raw[1] == 0xff) || (raw[0] == 0xff && raw[1] == 0xfe)) {
        let big_endian = raw[0] == 0xfe;
        let units = utf16_units_of(raw, big_endian);
        return match string_from_utf16(&units) {
            Some(s) => Some(string_of(&trimmed(&chars_of(s.as_str())))),
            None => None,
        };
    }
    match str_from_utf8(raw) {
        Some(s) => Some(string_of(&trimmed(&chars_of(s)))),
        None => Some(string_of(&trimmed(&latin1_chars(raw)))),
    }
}

// ───────────────────────────── form fields ─────────────────────────────

/// What the field logic reads of one object of a PDF: the bytes of its `T`
/// entry when that is a string, and of its `V` entry when that is a string or
/// when it is a name. An object that is not a dictionary has none of them.
pub struct PdfObjectEntries {
    pub title: Option<Vec<u8>>,
    pub value_text: Option<Vec<u8>>,
    pub value_name: Option<Vec<u8>>,
}

pub open spec fn opt_bytes(o: Option<Vec<u8>>) -> Option<Seq<u8>> {
    match o {
        Some(v) => Some(v@),
        None => None,
    }
}

impl View for PdfObjectEntries {
    type V = (Option<Seq<u8>>, Option<Seq<u8>>, Option<Seq<u8>>);

    open spec fn view(&self) -> (Option<Seq<u8>>, Option<Seq<u8>>, Option<Seq<u8>>) {
        (opt_bytes(self.title), opt_bytes(self.value_text), opt_bytes(self.value_name))
    }
}

pub open spec fn objects_view(v: Seq<PdfObjectEntries>) -> Seq<(Option<Seq<u8>>, Option<Seq<u8>>, Option<Seq<u8>>)> {
    v.map_values(|o: PdfObjectEntries| o.view())
}

/// The objects that `lopdf::Document::load_mem` reads from `bytes`, in the
/// order of their object ids, each as `PdfObjectEntries` shows it; `None`
/// when the bytes do not load as a PDF.
pub uninterp spec fn pdf_form_objects(bytes: Seq<u8>) -> Option<Seq<(Option<Seq<u8>>, Option<Seq<u8>>, Option<Seq<u8>>)>>;

/// `lopdf::Document::load_mem`, then each of the document's objects (a
/// `BTreeMap` walked in key order) with `Object::as_dict`, `Dictionary::get`,
/// `Object::as_str` and `Object::as_name`. The crate's reader (0.46) returns
/// on every input: object nesting is cut off at `MAX_NESTING_DEPTH`, the
/// `/Prev` chain stops at an offset already read, and resolving an object
/// that is already being resolved is an error. It is built without its
/// `rayon` feature, so objects are read one after another and the result
/// depends on the bytes alone; it is named `pdf_form_objects`. What the
/// parser makes of the bytes is not stated.
#[verifier::external_body]
fn load_pdf_objects(bytes: &[u8]) -> (r: Option<Vec<PdfObjectEntries>>)
    ensures
        match r {
            Some(v) => pdf_form_objects(bytes@) == Some(objects_view(v@)),
            None => pdf_form_objects(bytes@) is None,
        },
{
    let doc = lopdf::Document::load_mem(bytes).ok()?;
    Some(doc.objects.values().map(|o| match o.as_dict() {
        Ok(d) => PdfObjectEntries {
            title: d.get(b"T").and_then(|t| t.as_str()).ok().map(|b| b.to_vec()),
            value_text: d.get(b"V").and_then(|v| v.as_str()).ok().map(|b| b.to_vec()),
            value_name: d.get(b"V").and_then(|v| v.as_name()).ok().map(|b| b.to_vec()),
        },
        Err(_) => PdfObjectEntries { title: None, value_text: None, value_name: None },
    }).collect())
}

/// The decoded text of a string entry, when it is not empty.
pub open spec fn nonempty_text(b: Option<Seq<u8>>) -> Option<Seq<char>> {
    match b {
        Some(x) => match pdf_text(x) {
            Some(s) => if s.len() > 0 {
                Some(s)
            } else {
                None
            },
            None => None,
        },
        None => None,
    }
}

/// The value of a checkbox or radio button: its name when that is valid
/// UTF-8, not empty, and neither `Off` nor `No`.
pub open spec fn checkbox_value(b: Option<Seq<u8>>) -> Option<Seq<char>> {
    match b {
        Some(x) => if vstd::utf8::valid_utf8(x) && vstd::utf8::decode_utf8(x).len() > 0
            && vstd::utf8::decode_utf8(x) != "Off"@ && vstd::utf8::decode_utf8(x) != "No"@ {
            Some(vstd::utf8::decode_utf8(x))
        } else {
            None
        },
        None => None,
    }
}

/// The (name, value) pair of a filled-in field: a non-empty name, and a
/// non-empty text value or else a checked box.
pub open spec fn field_entry(o: (Option<Seq<u8>>, Option<Seq<u8>>, Option<Seq<u8>>)) -> Option<(Seq<char>, Seq<char>)> {
    match nonempty_text(o.0) {
        Some(n) => match either(nonempty_text(o.1), checkbox_value(o.2)) {
            Some(v) => Some((n, v)),
            None => None,
        },
        None => None,
    }
}

/// The pairs of the filled-in fields among the objects, in order.
pub open spec fn field_entries(objs: Seq<(Option<Seq<u8>>, Option<Seq<u8>>, Option<Seq<u8>>)>) -> Seq<(Seq<char>, Seq<char>)>
    decreases objs.len(),
{
    if objs.len() == 0 {
        Seq::empty()
    } else {
        match field_entry(objs.last()) {
            Some(p) => field_entries(objs.drop_last()).push(p),
            None => field_entries(objs.drop_last()),
        }
    }
}

/// Sets field `p.0` to `p.1`: in place where the name is there, else at the end.
pub open spec fn upsert(fs: Seq<(Seq<char>, Seq<char>)>, p: (Seq<char>, Seq<char>)) -> Seq<(Seq<char>, Seq<char>)> {
    if has_field(fs, p.0) {
        fs.map_values(|q: (Seq<char>, Seq<char>)| if q.0 == p.0 { p } else { q })
    } else {
        fs.push(p)
    }
}

/// The fields after setting each pair in turn, starting from none.
pub open spec fn upsert_all(ps: Seq<(Seq<char>, Seq<char>)>) -> Seq<(Seq<char>, Seq<char>)>
    decreases ps.len(),
{
    if ps.len() == 0 {
        Seq::empty()
    } else {
        upsert(upsert_all(ps.drop_last()), ps.last())
    }
}

/// The form fields of a PDF: none when it does not load.
pub open spec fn form_fields(bytes: Seq<u8>) -> Seq<(Seq<char>, Seq<char>)> {
    match pdf_form_objects(bytes) {
        Some(objs) => upsert_all(field_entries(objs)),
        None => Seq::empty(),
    }
}

fn nonempty_text_of(b: &Option<Vec<u8>>) -> (r: Option<String>)
    ensures
        opt_str(r) == nonempty_text(opt_bytes(*b)),
{
    match b {
        Some(x) => match pdf_str_to_string(x.as_slice()) {
            Some(s) => if chars_of(s.as_str()).len() > 0 {
                Some(s)
            } else {
                None
            },
            None => None,
        },
        None => None,
    }
}

fn checkbox_value_of(b: &Option<Vec<u8>>) -> (r: Option<String>)
    ensures
        opt_str(r) == checkbox_value(opt_bytes(*b)),
{
    match b {
        Some(x) => match str_from_utf8(x.as_slice()) {
            Some(s) => {
                let cs = chars_of(s);
                if cs.len() > 0 && !str_eq(s, "Off") && !str_eq(s, "No") {
                    Some(string_of(&cs))
                } else {
                    None
                }
            },
            None => None,
        },
        None => None,
    }
}

/// The (name, value) pair of one object, as `field_entry` says.
pub fn form_field_entry(o: &PdfObjectEntries) -> (r: Option<(String, String)>)
    ensures
        match r {
            Some(p) => field_entry(o.view()) == Some((p.0@, p.1@)),
            None => field_entry(o.view()) is None,
        },
{
    let name = match nonempty_text_of(&o.title) {
        Some(n) => n,
        None => return None,
    };
    let value = match nonempty_text_of(&o.value_text) {
        Some(v) => v,
        None => match checkbox_value_of(&o.value_name) {
            Some(v) => v,
            None => return None,
        },
    };
    Some((name, value))
}

/// Sets field `name` to `value` in fields whose names are distinct.
fn upsert_field(fs: &mut Vec<(String, String)>, name: String, value: String)
    requires
        names_distinct(field_views(old(fs)@)),
    ensures
        field_views(final(fs)@) == upsert(field_views(old(fs)@), (name@, value@)),
        names_distinct(field_views(final(fs)@)),
{
    let ghost p = (name@, value@);
    let ghost f0 = field_views(fs@);
    let mut i: usize = 0;
    while i < fs.len()
        invariant
            i <= fs.len(),
            fs@ == old(fs)@,
            f0 == field_views(fs@),
            p == (name@, value@),
            names_distinct(f0),
            forall|j: int| 0 <= j < i ==> (#[trigger] f0[j]).0 != name@,
        decreases fs.len() - i,
    {
        if str_eq(fs[i].0.as_str(), name.as_str()) {
            let ghost k = i as int;
            assert(f0[k].0 == p.0);
            assert(has_field(f0, p.0));
            fs.set(i, (name, value));
            proof {
                assert forall|j: int| 0 <= j < f0.len() implies #[trigger] field_views(fs@)[j]
                    == upsert(f0, p)[j] by {
                    if j != k {
                        assert(f0[j].0 != f0[k].0);
                    }
                }
                assert(field_views(fs@) =~= upsert(f0, p));
                assert forall|a: int, b: int| 0 <= a < b < fs@.len() implies (#[trigger] field_views(fs@)[a]).0
                    != (#[trigger] field_views(fs@)[b]).0 by {
                    if a == k {
                        assert(f0[b].0 != f0[k].0);
                    } else if b == k {
                        assert(f0[a].0 != f0[k].0);
                    } else {
                        assert(f0[a].0 != f0[b].0);
                    }
                }
            }
            return;
        }
        i = i + 1;
    }
    proof {
        assert(!has_field(f0, p.0));
    }
    fs.push((name, value));
    proof {
        assert(field_views(fs@) =~= f0.push(p));
        assert forall|a: int, b: int| 0 <= a < b < fs@.len() implies (#[trigger] field_views(fs@)[a]).0
            != (#[trigger] field_views(fs@)[b]).0 by {
            if b == f0.len() {
                assert(f0[a].0 != p.0);
            } else {
                assert(f0[a].0 != f0[b].0);
            }
        }
    }
}

/// The filled-in AcroForm fields of a PDF, one pair per field name; where a
/// name occurs on several objects, the last one's value stands. A PDF that
/// does not load has none.
pub fn extract_form_fields(pdf_bytes: &[u8]) -> (r: Vec<(String, String)>)
    ensures
        field_views(r@) == form_fields(pdf_bytes@),
        names_distinct(field_views(r@)),
{
    match load_pdf_objects(pdf_bytes) {
        Some(objs) => form_fields_of_objects(&objs),
        None => {
            let out: Vec<(String, String)> = Vec::new();
            assert(field_views(out@) =~= Seq::empty());
            out
        },
    }
}

/// The filled-in fields among a PDF's objects, one pair per field name,
/// the last object's value standing where a name occurs more than once.
pub fn form_fields_of_objects(objs: &[PdfObjectEntries]) -> (r: Vec<(String, String)>)
    ensures
        field_views(r@) == upsert_all(field_entries(objects_view(objs@))),
        names_distinct(field_views(r@)),
{
    let mut out: Vec<(String, String)> = Vec::new();
    let ghost all = objects_view(objs@);
    let mut i: usize = 0;
    assert(field_views(out@) =~= upsert_all(field_entries(all.take(0))));
    while i < objs.len()
        invariant
            i <= objs.len(),
            all == objects_view(objs@),
            field_views(out@) == upsert_all(field_entries(all.take(i as int))),
            names_distinct(field_views(out@)),
        decreases objs.len() - i,
    {
        let e = form_field_entry(&objs[i]);
        proof {
            assert(all.take(i + 1).drop_last() =~= all.take(i as int));
            assert(all.take(i + 1).last() == objs@[i as int].view());
        }
        match e {
            Some(p) => {
                let ghost q = (p.0@, p.1@);
                let ghost prev = field_entries(all.take(i as int));
                assert(field_entries(all.take(i + 1)) == prev.push(q));
                assert(prev.push(q).drop_last() =~= prev);
                upsert_field(&mut out, p.0, p.1);
            },
            None => {
                assert(field_entries(all.take(i + 1)) == field_entries(all.take(i as int)));
            },
        }
        i = i + 1;
    }
    assert(all.take(i as int) =~= all);
    out
}

/// Parses a fillable character sheet from the PDF's form fields, as
/// `parse_character_sheet_from_fields` does: `None` when fewer than five
/// fields are filled in.
pub fn parse_character_sheet_from_form(pdf_bytes: &[u8]) -> (r: Option<ParsedSheetResult>)
    ensures
        r is None <==> form_fields(pdf_bytes@).len() < 5,
        r matches Some(p) ==> sheet_matches(p, form_fields(pdf_bytes@)),
{
    let fields = extract_form_fields(pdf_bytes);
    parse_character_sheet_from_fields(&fields)
}

// ───────────────────────────── laws ─────────────────────────────

proof fn lemma_lookup_at(fs: Seq<(Seq<char>, Seq<char>)>, m: int, k: Seq<char>)
    requires
        0 <= m < fs.len(),
        fs[m].0 == k,
        forall|j: int| 0 <= j < m ==> (#[trigger] fs[j]).0 != k,
    ensures
        lookup(fs, k) == fs[m].1,
        has_field(fs, k),
    decreases m,
{
    if m > 0 {
        assert(fs[0].0 != k);
        let t = fs.drop_first();
        assert forall|j: int| 0 <= j < m - 1 implies (#[trigger] t[j]).0 != k by {
            assert(t[j] == fs[j + 1]);
        }
        lemma_lookup_at(t, m - 1, k);
    }
}

proof fn lemma_upsert_distinct(fs: Seq<(Seq<char>, Seq<char>)>, p: (Seq<char>, Seq<char>))
    requires
        names_distinct(fs),
    ensures
        names_distinct(upsert(fs, p)),
        upsert(fs, p).len() >= fs.len(),
        forall|m: int| 0 <= m < upsert(fs, p).len() ==> #[trigger] upsert(fs, p)[m] == p
            || (m < fs.len() && upsert(fs, p)[m] == fs[m]),
{
    let u = upsert(fs, p);
    if has_field(fs, p.0) {
        assert forall|a: int, b: int| 0 <= a < b < u.len() implies (#[trigger] u[a]).0 != (#[trigger] u[b]).0 by {
            assert(fs[a].0 != fs[b].0);
        }
    } else {
        assert forall|a: int, b: int| 0 <= a < b < u.len() implies (#[trigger] u[a]).0 != (#[trigger] u[b]).0 by {
            if b < fs.len() {
                assert(fs[a].0 != fs[b].0);
            } else {
                assert(fs[a].0 != p.0);
            }
        }
    }
}

proof fn lemma_upsert_all_distinct(ps: Seq<(Seq<char>, Seq<char>)>)
    ensures
        names_distinct(upsert_all(ps)),
    decreases ps.len(),
{
    if ps.len() > 0 {
        lemma_upsert_all_distinct(ps.drop_last());
        lemma_upsert_distinct(upsert_all(ps.drop_last()), ps.last());
    }
}

/// Where several filled-in fields share a name, the field keeps the value of
/// the last of them: setting pairs one after another leaves distinct names,
/// and each name that some pair sets has the value of its last pair.
pub proof fn form_fields_keep_last_value(ps: Seq<(Seq<char>, Seq<char>)>, i: int)
    requires
        0 <= i < ps.len(),
        forall|j: int| i < j < ps.len() ==> (#[trigger] ps[j]).0 != ps[i].0,
    ensures
        names_distinct(upsert_all(ps)),
        has_field(upsert_all(ps), ps[i].0),
        lookup(upsert_all(ps), ps[i].0) == ps[i].1,
    decreases ps.len(),
{
    lemma_upsert_all_distinct(ps);
    let k = ps[i].0;
    let prev = upsert_all(ps.drop_last());
    let p = ps.last();
    lemma_upsert_all_distinct(ps.drop_last());
    let u = upsert_all(ps);
    assert(u == upsert(prev, p));
    if i == ps.len() - 1 {
        if has_field(prev, k) {
            let m = choose|m: int| 0 <= m < prev.len() && (#[trigger] prev[m]).0 == k;
            assert forall|j: int| 0 <= j < m implies (#[trigger] u[j]).0 != k by {
                assert(prev[j].0 != prev[m].0);
            }
            assert(u[m] == p);
            lemma_lookup_at(u, m, k);
        } else {
            assert forall|j: int| 0 <= j < prev.len() implies (#[trigger] u[j]).0 != k by {
                assert(u[j] == prev[j]);
            }
            assert(u[prev.len() as int] == p);
            lemma_lookup_at(u, prev.len() as int, k);
        }
    } else {
        let t = ps.drop_last();
        assert forall|j: int| i < j < t.len() implies (#[trigger] t[j]).0 != t[i].0 by {
            assert(t[j] == ps[j]);
        }
        form_fields_keep_last_value(t, i);
        assert(p.0 != k);
        let m = choose|m: int| 0 <= m < prev.len() && (#[trigger] prev[m]).0 == k;
        assert(u[m] == prev[m]);
        assert(lookup(prev, k) == prev[m].1) by {
            assert forall|j: int| 0 <= j < m implies (#[trigger] prev[j]).0 != k by {
                assert(prev[j].0 != prev[m].0);
            }
            lemma_lookup_at(prev, m, k);
        }
        assert forall|j: int| 0 <= j < m implies (#[trigger] u[j]).0 != k by {
            assert(prev[j].0 != prev[m].0);
        }
        lemma_lookup_at(u, m, k);
    }
}

/// Every form field is one of the filled-in (name, value) pairs: no name or
/// value is made up.
pub proof fn form_fields_come_from_entries(ps: Seq<(Seq<char>, Seq<char>)>, m: int)
    requires
        0 <= m < upsert_all(ps).len(),
    ensures
        exists|i: int| 0 <= i < ps.len() && ps[i] == #[trigger] upsert_all(ps)[m],
    decreases ps.len(),
{
    let t = ps.drop_last();
    let prev = upsert_all(t);
    lemma_upsert_all_distinct(t);
    lemma_upsert_distinct(prev, ps.last());
    if upsert_all(ps)[m] == ps.last() {
        assert(ps[ps.len() - 1] == upsert_all(ps)[m]);
    } else {
        form_fields_come_from_entries(t, m);
        let i = choose|i: int| 0 <= i < t.len() && t[i] == #[trigger] prev[m];
        assert(ps[i] == upsert_all(ps)[m]);
    }
}

} // verus!
