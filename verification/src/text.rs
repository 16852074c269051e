//! Character-level text model shared by the rest of the library.
//!
//! Text is handled as sequences of `char`; every byte length that the
//! library compares against a budget is the UTF-8 length `utf8_len`.
use vstd::prelude::*;

verus! {

broadcast use vstd::string::group_string_axioms;

// ───────────────────────── UTF-8 lengths ─────────────────────────

/// Number of bytes in the UTF-8 encoding of a character.
pub open spec fn char_width(c: char) -> nat {
    let v = c as u32;
    if v <= 0x7F {
        1
    } else if v <= 0x7FF {
        2
    } else if v <= 0xFFFF {
        3
    } else {
        4
    }
}

/// Number of bytes in the UTF-8 encoding of a character sequence.
pub open spec fn utf8_len(s: Seq<char>) -> nat
    decreases s.len(),
{
    if s.len() == 0 {
        0
    } else {
        char_width(s[0]) + utf8_len(s.drop_first())
    }
}

pub proof fn lemma_utf8_len_concat(a: Seq<char>, b: Seq<char>)
    ensures
        utf8_len(a + b) == utf8_len(a) + utf8_len(b),
    decreases a.len(),
{
    if a.len() > 0 {
        assert((a + b).drop_first() =~= a.drop_first() + b);
        lemma_utf8_len_concat(a.drop_first(), b);
    } else {
        assert(a + b =~= b);
    }
}

pub proof fn lemma_utf8_len_push(a: Seq<char>, c: char)
    ensures
        utf8_len(a.push(c)) == utf8_len(a) + char_width(c),
{
    lemma_utf8_len_concat(a, seq![c]);
    assert(a.push(c) =~= a + seq![c]);
    assert(seq![c].drop_first() =~= Seq::<char>::empty());
    assert(utf8_len(Seq::<char>::empty()) == 0);
    assert(utf8_len(seq![c]) == char_width(c) + utf8_len(seq![c].drop_first()));
}

pub proof fn lemma_utf8_len_bounds(s: Seq<char>)
    ensures
        s.len() <= utf8_len(s) <= 4 * s.len(),
        utf8_len(s) == 0 <==> s.len() == 0,
    decreases s.len(),
{
    if s.len() > 0 {
        lemma_utf8_len_bounds(s.drop_first());
    }
}

/// `utf8_len` agrees with the length of vstd's UTF-8 encoding, which is what
/// `str::len` reports.
pub proof fn lemma_utf8_len_is_encoding_len(s: Seq<char>)
    ensures
        utf8_len(s) == vstd::utf8::encode_utf8(s).len(),
    decreases s.len(),
{
    if s.len() > 0 {
        vstd::utf8::char_is_scalar(s[0]);
        lemma_utf8_len_is_encoding_len(s.drop_first());
    }
}

/// Number of leading characters of `s` whose encoding fits in `b` bytes:
/// the character position of `floor_char_boundary(b)`.
pub open spec fn chars_within(s: Seq<char>, b: nat) -> nat
    decreases s.len(),
{
    if s.len() == 0 || char_width(s[0]) > b {
        0
    } else {
        1 + chars_within(s.drop_first(), (b - char_width(s[0])) as nat)
    }
}

pub proof fn lemma_chars_within(s: Seq<char>, b: nat)
    ensures
        chars_within(s, b) <= s.len(),
        utf8_len(s.take(chars_within(s, b) as int)) <= b,
        chars_within(s, b) < s.len() ==> utf8_len(s.take(chars_within(s, b) + 1int)) > b,
        utf8_len(s) <= b ==> chars_within(s, b) == s.len(),
    decreases s.len(),
{
    let k = chars_within(s, b);
    if s.len() == 0 {
        assert(s.take(0) =~= Seq::<char>::empty());
    } else if char_width(s[0]) > b {
        assert(s.take(0) =~= Seq::<char>::empty());
        assert(s.take(1).drop_first() =~= Seq::<char>::empty());
        lemma_utf8_len_bounds(s.drop_first());
    } else {
        let t = s.drop_first();
        let b2 = (b - char_width(s[0])) as nat;
        lemma_chars_within(t, b2);
        assert(s.take(k as int).drop_first() =~= t.take(k - 1));
        if k < s.len() {
            assert(s.take(k + 1int).drop_first() =~= t.take(k as int));
        }
    }
}

pub fn width_of(c: char) -> (w: usize)
    ensures
        w == char_width(c),
{
    let v = c as u32;
    if v <= 0x7F {
        1
    } else if v <= 0x7FF {
        2
    } else if v <= 0xFFFF {
        3
    } else {
        4
    }
}

/// UTF-8 length of a character sequence.
pub fn byte_len(v: &[char]) -> (n: usize)
    requires
        utf8_len(v@) <= usize::MAX,
    ensures
        n == utf8_len(v@),
{
    let mut n: usize = 0;
    let mut i: usize = 0;
    while i < v.len()
        invariant
            i <= v.len(),
            n == utf8_len(v@.take(i as int)),
            utf8_len(v@) <= usize::MAX,
        decreases v.len() - i,
    {
        proof {
            assert(v@.take(i + 1) =~= v@.take(i as int).push(v@[i as int]));
            lemma_utf8_len_push(v@.take(i as int), v@[i as int]);
            assert(v@ =~= v@.take(i + 1) + v@.skip(i + 1));
            lemma_utf8_len_concat(v@.take(i + 1), v@.skip(i + 1));
        }
        n = n + width_of(v[i]);
        i = i + 1;
    }
    assert(v@.take(i as int) =~= v@);
    n
}

/// Character position of `floor_char_boundary(b)`.
pub fn floor_boundary(v: &[char], b: usize) -> (k: usize)
    ensures
        k == chars_within(v@, b as nat),
{
    let mut k: usize = 0;
    let mut left: usize = b;
    assert(v@.skip(0) =~= v@);
    while k < v.len() && width_of(v[k]) <= left
        invariant
            k <= v.len(),
            left <= b,
            chars_within(v@, b as nat) == k + chars_within(v@.skip(k as int), left as nat),
        decreases v.len() - k,
    {
        proof {
            let t = v@.skip(k as int);
            assert(t.drop_first() =~= v@.skip(k + 1));
        }
        left = left - width_of(v[k]);
        k = k + 1;
    }
    proof {
        let t = v@.skip(k as int);
        if k < v.len() {
            assert(t[0] == v@[k as int]);
        }
    }
    k
}

pub proof fn lemma_utf8_len_split(s: Seq<char>, k: int)
    requires
        0 <= k <= s.len(),
    ensures
        utf8_len(s.take(k)) + utf8_len(s.skip(k)) == utf8_len(s),
{
    assert(s =~= s.take(k) + s.skip(k));
    lemma_utf8_len_concat(s.take(k), s.skip(k));
}

pub proof fn lemma_utf8_len_take_mono(s: Seq<char>, i: int, j: int)
    requires
        0 <= i <= j <= s.len(),
    ensures
        utf8_len(s.take(i)) <= utf8_len(s.take(j)),
{
    assert(s.take(j) =~= s.take(i) + s.subrange(i, j));
    lemma_utf8_len_concat(s.take(i), s.subrange(i, j));
}

/// `chars_within` is the unique position whose prefix fits and whose next
/// character would not.
pub proof fn lemma_chars_within_unique(s: Seq<char>, b: nat, k: int)
    requires
        0 <= k <= s.len(),
        utf8_len(s.take(k)) <= b,
        k == s.len() || utf8_len(s.take(k + 1)) > b,
    ensures
        k == chars_within(s, b),
{
    lemma_chars_within(s, b);
    let c = chars_within(s, b) as int;
    if k < c {
        lemma_utf8_len_take_mono(s, k + 1, c);
    } else if k > c {
        lemma_utf8_len_take_mono(s, c + 1, k);
    }
}

/// Remaining budget after spending the UTF-8 length of `v`, if it fits in `left`.
pub fn spend(v: &[char], left: usize) -> (r: Option<usize>)
    ensures
        match r {
            Some(l) => utf8_len(v@) <= left && l == left - utf8_len(v@),
            None => utf8_len(v@) > left,
        },
{
    let mut i: usize = 0;
    let mut rest: usize = left;
    assert(v@.skip(0) =~= v@);
    while i < v.len()
        invariant
            i <= v.len(),
            rest <= left,
            utf8_len(v@) == (left - rest) + utf8_len(v@.skip(i as int)),
        decreases v.len() - i,
    {
        assert(v@.skip(i as int).drop_first() =~= v@.skip(i + 1));
        let w = width_of(v[i]);
        if w > rest {
            return None;
        }
        rest = rest - w;
        i = i + 1;
    }
    assert(v@.skip(i as int) =~= Seq::<char>::empty());
    Some(rest)
}

/// Whether the UTF-8 length of `v` is at most `max`.
pub fn fits_within(v: &[char], max: usize) -> (b: bool)
    ensures
        b == (utf8_len(v@) <= max),
{
    spend(v, max).is_some()
}

/// Character position of `floor_char_boundary(len - overlap)` for a text
/// longer than `overlap` bytes.
pub fn suffix_start(v: &[char], overlap: usize) -> (k: usize)
    requires
        utf8_len(v@) > overlap,
    ensures
        k == chars_within(v@, (utf8_len(v@) - overlap) as nat),
{
    let ghost s = v@;
    let mut j: usize = v.len();
    let mut r: usize = overlap;
    assert(s.skip(j as int) =~= Seq::<char>::empty());
    while r > 0
        invariant
            j <= v.len(),
            s == v@,
            utf8_len(s) > overlap,
            r > 0 ==> r == overlap - utf8_len(s.skip(j as int)),
            r > 0 ==> utf8_len(s.skip(j as int)) < overlap,
            r == 0 ==> utf8_len(s.skip(j as int)) >= overlap,
            r == 0 && j < v.len() ==> utf8_len(s.skip(j + 1)) < overlap,
        decreases j,
    {
        proof {
            if j == 0 {
                assert(s.skip(0) =~= s);
            }
        }
        assert(j > 0);
        j = j - 1;
        assert(s.skip(j as int).drop_first() =~= s.skip(j + 1));
        let w = width_of(v[j]);
        if w >= r {
            r = 0;
        } else {
            r = r - w;
        }
    }
    proof {
        let b = (utf8_len(s) - overlap) as nat;
        lemma_utf8_len_split(s, j as int);
        if j < v.len() {
            lemma_utf8_len_split(s, j + 1);
        }
        lemma_chars_within_unique(s, b, j as int);
    }
    j
}

/// The view of an optional character vector.
pub open spec fn opt_chars(o: Option<Vec<char>>) -> Option<Seq<char>> {
    match o {
        Some(v) => Some(v@),
        None => None,
    }
}

/// The view of an optional string.
pub open spec fn opt_str(o: Option<String>) -> Option<Seq<char>> {
    match o {
        Some(v) => Some(v@),
        None => None,
    }
}

// ───────────────────────── character classes ─────────────────────────

/// `char::is_whitespace`: the Unicode `White_Space` property.
pub open spec fn is_ws(c: char) -> bool {
    let v = c as u32;
    ||| 0x9 <= v <= 0xD
    ||| v == 0x20
    ||| v == 0x85
    ||| v == 0xA0
    ||| v == 0x1680
    ||| 0x2000 <= v <= 0x200A
    ||| v == 0x2028
    ||| v == 0x2029
    ||| v == 0x202F
    ||| v == 0x205F
    ||| v == 0x3000
}

pub fn is_whitespace(c: char) -> (b: bool)
    ensures
        b == is_ws(c),
{
    let v = c as u32;
    (0x9 <= v && v <= 0xD) || v == 0x20 || v == 0x85 || v == 0xA0 || v == 0x1680 || (0x2000 <= v
        && v <= 0x200A) || v == 0x2028 || v == 0x2029 || v == 0x202F || v == 0x205F || v == 0x3000
}

/// `char::is_ascii_whitespace`: space, tab, line feed, form feed, carriage return.
pub open spec fn is_ascii_ws(c: char) -> bool {
    c == ' ' || c == '\t' || c == '\n' || c == '\x0C' || c == '\r'
}

pub fn is_ascii_whitespace(c: char) -> (b: bool)
    ensures
        b == is_ascii_ws(c),
{
    c == ' ' || c == '\t' || c == '\n' || c == '\x0C' || c == '\r'
}

/// `char::is_ascii_digit`.
pub open spec fn is_digit(c: char) -> bool {
    '0' <= c <= '9'
}

pub fn is_ascii_digit(c: char) -> (b: bool)
    ensures
        b == is_digit(c),
{
    '0' <= c && c <= '9'
}

// ───────────────────────── conversions ─────────────────────────

/// The characters of a string slice, in order.
pub fn chars_of(s: &str) -> (v: Vec<char>)
    ensures
        v@ == s@,
{
    let mut v: Vec<char> = Vec::new();
    for c in it: s.chars()
        invariant
            v@ == it.history(),
            it.seq() == s@,
    {
        v.push(c);
    }
    v
}

/// `String::push`: appends one character.
#[verifier::external_body]
fn push_char(s: &mut String, c: char)
    ensures
        final(s)@ == old(s)@.push(c),
{
    s.push(c);
}

/// A string holding exactly the given characters.
pub fn string_of(v: &[char]) -> (s: String)
    ensures
        s@ == v@,
{
    let mut s = String::new();
    let mut i: usize = 0;
    while i < v.len()
        invariant
            i <= v.len(),
            s@ == v@.take(i as int),
        decreases v.len() - i,
    {
        push_char(&mut s, v[i]);
        assert(v@.take(i + 1) =~= v@.take(i as int).push(v@[i as int]));
        i = i + 1;
    }
    assert(v@.take(i as int) =~= v@);
    s
}

/// Copy of `v[a..b]`.
pub fn slice_of(v: &[char], a: usize, b: usize) -> (r: Vec<char>)
    requires
        a <= b <= v.len(),
    ensures
        r@ == v@.subrange(a as int, b as int),
{
    let mut r: Vec<char> = Vec::new();
    let mut i = a;
    while i < b
        invariant
            a <= i <= b <= v.len(),
            r@ == v@.subrange(a as int, i as int),
        decreases b - i,
    {
        r.push(v[i]);
        assert(v@.subrange(a as int, i + 1) =~= v@.subrange(a as int, i as int).push(v@[i as int]));
        i = i + 1;
    }
    r
}

/// Appends all of `w` to `v`.
pub fn append_all(v: &mut Vec<char>, w: &[char])
    ensures
        final(v)@ == old(v)@ + w@,
{
    let mut i: usize = 0;
    while i < w.len()
        invariant
            i <= w.len(),
            v@ == old(v)@ + w@.take(i as int),
        decreases w.len() - i,
    {
        v.push(w[i]);
        assert(old(v)@ + w@.take(i + 1) =~= (old(v)@ + w@.take(i as int)).push(w@[i as int]));
        i = i + 1;
    }
    assert(w@.take(i as int) =~= w@);
}

// ───────────────────────── trimming ─────────────────────────

/// `str::trim_start`.
pub open spec fn trim_start(s: Seq<char>) -> Seq<char>
    decreases s.len(),
{
    if s.len() > 0 && is_ws(s[0]) {
        trim_start(s.drop_first())
    } else {
        s
    }
}

/// `str::trim_end`.
pub open spec fn trim_end(s: Seq<char>) -> Seq<char>
    decreases s.len(),
{
    if s.len() > 0 && is_ws(s.last()) {
        trim_end(s.drop_last())
    } else {
        s
    }
}

/// `str::trim`.
pub open spec fn trim(s: Seq<char>) -> Seq<char> {
    trim_end(trim_start(s))
}

/// Position of the first non-whitespace character (or the length).
pub fn trim_start_pos(v: &[char]) -> (k: usize)
    ensures
        k <= v.len(),
        v@.skip(k as int) == trim_start(v@),
{
    let mut k: usize = 0;
    assert(v@.skip(0) =~= v@);
    while k < v.len() && is_whitespace(v[k])
        invariant
            k <= v.len(),
            trim_start(v@) == trim_start(v@.skip(k as int)),
        decreases v.len() - k,
    {
        assert(v@.skip(k as int).drop_first() =~= v@.skip(k + 1));
        k = k + 1;
    }
    k
}

/// One past the last non-whitespace character at or after `lo`.
pub fn trim_end_pos(v: &[char], lo: usize) -> (k: usize)
    requires
        lo <= v.len(),
    ensures
        lo <= k <= v.len(),
        v@.subrange(lo as int, k as int) == trim_end(v@.subrange(lo as int, v.len() as int)),
{
    let mut k: usize = v.len();
    while k > lo && is_whitespace(v[k - 1])
        invariant
            lo <= k <= v.len(),
            trim_end(v@.subrange(lo as int, v.len() as int)) == trim_end(
                v@.subrange(lo as int, k as int),
            ),
        decreases k,
    {
        assert(v@.subrange(lo as int, k as int).drop_last() =~= v@.subrange(lo as int, k - 1));
        k = k - 1;
    }
    k
}

pub fn trimmed(v: &[char]) -> (r: Vec<char>)
    ensures
        r@ == trim(v@),
{
    let a = trim_start_pos(v);
    let b = trim_end_pos(v, a);
    assert(v@.subrange(a as int, v.len() as int) =~= v@.skip(a as int));
    slice_of(v, a, b)
}

pub fn trimmed_start(v: &[char]) -> (r: Vec<char>)
    ensures
        r@ == trim_start(v@),
{
    let a = trim_start_pos(v);
    assert(v@.subrange(a as int, v.len() as int) =~= v@.skip(a as int));
    slice_of(v, a, v.len())
}

pub fn trimmed_end(v: &[char]) -> (r: Vec<char>)
    ensures
        r@ == trim_end(v@),
{
    let b = trim_end_pos(v, 0);
    assert(v@.subrange(0, v.len() as int) =~= v@);
    slice_of(v, 0, b)
}

// ───────────────────────── Unicode properties from std ─────────────────────────

/// Whether a character has the Unicode `Uppercase` property.
pub uninterp spec fn upper(c: char) -> bool;

/// Whether a character has the Unicode `Alphabetic` property.
pub uninterp spec fn alpha(c: char) -> bool;

/// The Unicode lowercase mapping of a string (`str::to_lowercase`).
pub uninterp spec fn lowercase(s: Seq<char>) -> Seq<char>;

/// The characters that `String::from_utf8_lossy` decodes from a byte sequence.
pub uninterp spec fn lossy_utf8(b: Seq<u8>) -> Seq<char>;

/// An ASCII capital letter.
pub open spec fn ascii_upper(c: char) -> bool {
    65 <= (c as u32) <= 90
}

/// An ASCII letter.
pub open spec fn ascii_letter(c: char) -> bool {
    ascii_upper(c) || 97 <= (c as u32) <= 122
}

/// A character below 128.
pub open spec fn is_ascii(c: char) -> bool {
    (c as u32) < 128
}

/// The lowercase of an ASCII character: capitals become small letters.
pub open spec fn ascii_lower(c: char) -> char {
    if ascii_upper(c) {
        ((c as u32) + 32) as char
    } else {
        c
    }
}

/// `char::is_uppercase`; its result is named `upper`. Among ASCII
/// characters exactly `A`–`Z` are uppercase, as std's documentation shows.
#[verifier::external_body]
pub(crate) fn is_uppercase(c: char) -> (b: bool)
    ensures
        b == upper(c),
        is_ascii(c) ==> (b <==> ascii_upper(c)),
{
    c.is_uppercase()
}

/// `char::is_alphabetic`; its result is named `alpha`. Among ASCII
/// characters exactly the letters are alphabetic.
#[verifier::external_body]
pub(crate) fn is_alphabetic(c: char) -> (b: bool)
    ensures
        b == alpha(c),
        is_ascii(c) ==> (b <==> ascii_letter(c)),
{
    c.is_alphabetic()
}

/// `str::to_lowercase`; its result is named `lowercase`. On ASCII text it
/// lowers each capital letter and keeps every other character.
#[verifier::external_body]
fn str_to_lowercase(s: &str) -> (r: String)
    ensures
        r@ == lowercase(s@),
        (forall|i: int| 0 <= i < s@.len() ==> is_ascii(#[trigger] s@[i])) ==> r@ == s@.map_values(
            |c: char| ascii_lower(c),
        ),
{
    s.to_lowercase()
}

/// `String::from_utf8_lossy`. Its result is named `lossy_utf8`; as its
/// documentation says, valid UTF-8 is decoded unchanged.
#[verifier::external_body]
fn utf8_lossy(b: &[u8]) -> (r: String)
    ensures
        r@ == lossy_utf8(b@),
        vstd::utf8::valid_utf8(b@) ==> r@ == vstd::utf8::decode_utf8(b@),
{
    String::from_utf8_lossy(b).into_owned()
}

/// Lowercase of a character sequence.
pub fn to_lowercase(v: &[char]) -> (r: Vec<char>)
    ensures
        r@ == lowercase(v@),
        (forall|i: int| 0 <= i < v@.len() ==> is_ascii(#[trigger] v@[i])) ==> r@ == v@.map_values(
            |c: char| ascii_lower(c),
        ),
{
    let s = string_of(v);
    let l = str_to_lowercase(s.as_str());
    chars_of(l.as_str())
}

/// Lossy decoding of a byte slice.
pub fn decode_lossy(b: &[u8]) -> (r: Vec<char>)
    ensures
        r@ == lossy_utf8(b@),
        vstd::utf8::valid_utf8(b@) ==> r@ == vstd::utf8::decode_utf8(b@),
{
    let s = utf8_lossy(b);
    chars_of(s.as_str())
}

} // verus!
