//! Decimal integer parsing as done by `u32::from_str` and `i32::from_str`.
use vstd::prelude::*;
use crate::text::{is_ascii_digit, is_digit};

verus! {

/// Value of an ASCII digit.
pub open spec fn digit_value(c: char) -> nat {
    ((c as u32) - ('0' as u32)) as nat
}

/// Every character is an ASCII digit.
pub open spec fn all_digits(s: Seq<char>) -> bool {
    forall|i: int| 0 <= i < s.len() ==> is_digit(#[trigger] s[i])
}

/// Decimal value of a digit string.
pub open spec fn decimal_value(s: Seq<char>) -> nat
    decreases s.len(),
{
    if s.len() == 0 {
        0
    } else {
        decimal_value(s.drop_last()) * 10 + digit_value(s.last())
    }
}

/// The digits after an optional sign: `'+'` always, `'-'` when `signed`.
pub open spec fn unsigned_part(s: Seq<char>, signed: bool) -> Seq<char> {
    if s.len() > 0 && (s[0] == '+' || (signed && s[0] == '-')) {
        s.drop_first()
    } else {
        s
    }
}

/// `u32::from_str`: an optional `'+'` and one or more digits, within range.
pub open spec fn parse_u32_spec(s: Seq<char>) -> Option<u32> {
    let d = unsigned_part(s, false);
    if d.len() > 0 && all_digits(d) && decimal_value(d) <= u32::MAX {
        Some(decimal_value(d) as u32)
    } else {
        None
    }
}

/// `i32::from_str`: an optional sign and one or more digits, within range.
pub open spec fn parse_i32_spec(s: Seq<char>) -> Option<i32> {
    let d = unsigned_part(s, true);
    let neg = s.len() > 0 && s[0] == '-';
    if d.len() > 0 && all_digits(d) {
        if neg && decimal_value(d) <= 0x8000_0000 {
            Some((0 - decimal_value(d)) as i32)
        } else if !neg && decimal_value(d) <= 0x7fff_ffff {
            Some(decimal_value(d) as i32)
        } else {
            None
        }
    } else {
        None
    }
}

proof fn lemma_decimal_mono(s: Seq<char>, j: int)
    requires
        0 <= j <= s.len(),
    ensures
        decimal_value(s.take(j)) <= decimal_value(s),
    decreases s.len() - j,
{
    if j < s.len() {
        lemma_decimal_mono(s, j + 1);
        assert(s.take(j + 1).drop_last() =~= s.take(j));
    } else {
        assert(s.take(j) =~= s);
    }
}

/// Decimal value of the digits `v[from..]`, or `None` when a character is
/// not a digit, the digits are missing, or the value exceeds `limit`.
fn digits_value(v: &[char], from: usize, limit: u64) -> (r: Option<u64>)
    requires
        from <= v.len(),
        limit <= u32::MAX + 1,
    ensures
        ({
            let d = v@.skip(from as int);
            match r {
                Some(x) => d.len() > 0 && all_digits(d) && decimal_value(d) <= limit && x
                    == decimal_value(d),
                None => !(d.len() > 0 && all_digits(d) && decimal_value(d) <= limit),
            }
        }),
{
    let ghost d = v@.skip(from as int);
    if from == v.len() {
        return None;
    }
    let mut acc: u64 = 0;
    let mut i = from;
    assert(d.take(0) =~= Seq::<char>::empty());
    while i < v.len()
        invariant
            from <= i <= v.len(),
            d == v@.skip(from as int),
            limit <= u32::MAX + 1,
            all_digits(d.take(i - from)),
            acc == decimal_value(d.take(i - from)),
            acc <= limit,
        decreases v.len() - i,
    {
        let c = v[i];
        assert(d[i - from] == c);
        if !is_ascii_digit(c) {
            assert(!all_digits(d));
            return None;
        }
        let dv = (c as u32 - '0' as u32) as u64;
        assert(d.take(i - from + 1).drop_last() =~= d.take(i - from));
        acc = acc * 10 + dv;
        if acc > limit {
            proof {
                lemma_decimal_mono(d, i - from + 1);
            }
            return None;
        }
        assert(all_digits(d.take(i - from + 1)));
        i = i + 1;
    }
    assert(d.take(i - from) =~= d);
    Some(acc)
}

/// `str::parse::<u32>`.
pub fn parse_u32(v: &[char]) -> (r: Option<u32>)
    ensures
        r == parse_u32_spec(v@),
{
    let from: usize = if v.len() > 0 && v[0] == '+' {
        1
    } else {
        0
    };
    assert(unsigned_part(v@, false) =~= v@.skip(from as int));
    match digits_value(v, from, 0xffff_ffff) {
        Some(x) => Some(x as u32),
        None => None,
    }
}

/// `str::parse::<i32>`.
pub fn parse_i32(v: &[char]) -> (r: Option<i32>)
    ensures
        r == parse_i32_spec(v@),
{
    let neg = v.len() > 0 && v[0] == '-';
    let from: usize = if v.len() > 0 && (v[0] == '+' || v[0] == '-') {
        1
    } else {
        0
    };
    assert(unsigned_part(v@, true) =~= v@.skip(from as int));
    if neg {
        match digits_value(v, from, 0x8000_0000) {
            Some(x) => Some((0 - (x as i64)) as i32),
            None => None,
        }
    } else {
        match digits_value(v, from, 0x7fff_ffff) {
            Some(x) => Some(x as i32),
            None => None,
        }
    }
}

} // verus!
