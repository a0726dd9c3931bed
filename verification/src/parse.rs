//! Parsing of the line-range argument: a signed decimal pair written
//! `N:M`, accepted exactly when the text has one colon and each side is an
//! optionally signed decimal integer in range.

use vstd::prelude::*;

use crate::text::str_chars;

verus! {

/// Whether `c` is a decimal digit.
pub open spec fn is_digit(c: char) -> bool {
    '0' <= c && c <= '9'
}

/// The numeric value of a digit character.
pub open spec fn digit_val(c: char) -> int {
    c as int - '0' as int
}

/// Every character of `s` is a decimal digit.
pub open spec fn all_digits(s: Seq<char>) -> bool {
    forall|i: int| 0 <= i < s.len() ==> is_digit(#[trigger] s[i])
}

/// The value of a digit string read in base ten.
pub open spec fn digits_val(s: Seq<char>) -> int
    recommends
        all_digits(s),
    decreases s.len(),
{
    if s.len() == 0 {
        0
    } else {
        digits_val(s.take(s.len() - 1)) * 10 + digit_val(s[s.len() - 1])
    }
}

/// The value of an optionally signed decimal literal: a sign character may
/// lead, at least one digit must follow, and nothing else is accepted.
pub open spec fn int_literal_val(s: Seq<char>) -> Option<int> {
    if s.len() == 0 {
        None
    } else if s[0] == '-' || s[0] == '+' {
        if s.len() > 1 && all_digits(s.skip(1)) {
            if s[0] == '-' {
                Some(-digits_val(s.skip(1)))
            } else {
                Some(digits_val(s.skip(1)))
            }
        } else {
            None
        }
    } else if all_digits(s) {
        Some(digits_val(s))
    } else {
        None
    }
}

/// The literal's value when it exists and fits a 64-bit signed integer.
pub open spec fn int_literal_result(s: Seq<char>) -> Option<i64> {
    match int_literal_val(s) {
        Some(x) => if i64::MIN <= x <= i64::MAX {
            Some(x as i64)
        } else {
            None
        },
        None => None,
    }
}

/// The index of the first colon at or after `i`, or the length when none
/// follows.
pub open spec fn first_colon_from(s: Seq<char>, i: int) -> int
    recommends
        0 <= i <= s.len(),
    decreases s.len() - i when 0 <= i <= s.len()
{
    if i >= s.len() {
        s.len() as int
    } else if s[i] == ':' {
        i
    } else {
        first_colon_from(s, i + 1)
    }
}

/// The parsed range pair: the text must hold exactly one colon, and each
/// side must be a signed decimal literal.
pub open spec fn line_range_val(s: Seq<char>) -> Option<(int, int)> {
    let i = first_colon_from(s, 0);
    if i == s.len() {
        None
    } else if first_colon_from(s, i + 1) != s.len() {
        None
    } else {
        match (int_literal_val(s.take(i)), int_literal_val(s.skip(i + 1))) {
            (Some(a), Some(b)) => Some((a, b)),
            _ => None,
        }
    }
}

/// The parsed range when both sides fit a 64-bit signed integer.
pub open spec fn line_range_result(s: Seq<char>) -> Option<(i64, i64)> {
    match line_range_val(s) {
        Some(p) => if i64::MIN <= p.0 <= i64::MAX && i64::MIN <= p.1 <= i64::MAX {
            Some((p.0 as i64, p.1 as i64))
        } else {
            None
        },
        None => None,
    }
}

proof fn lemma_digits_val_nonneg(s: Seq<char>)
    requires
        all_digits(s),
    ensures
        digits_val(s) >= 0,
    decreases s.len(),
{
    if s.len() > 0 {
        assert(all_digits(s.take(s.len() - 1)));
        lemma_digits_val_nonneg(s.take(s.len() - 1));
    }
}

proof fn lemma_digits_val_prefix_le(s: Seq<char>, k: int)
    requires
        all_digits(s),
        0 <= k <= s.len(),
    ensures
        digits_val(s.take(k)) <= digits_val(s),
    decreases s.len() - k,
{
    if k < s.len() {
        lemma_digits_val_prefix_le(s, k + 1);
        let t = s.take(k + 1);
        assert(all_digits(t));
        assert(t.take(t.len() - 1) =~= s.take(k));
        assert(t[t.len() - 1] == s[k]);
        assert(digits_val(t) == digits_val(s.take(k)) * 10 + digit_val(s[k]));
        assert(is_digit(s[k]));
        assert(digit_val(s[k]) >= 0);
        lemma_digits_val_nonneg(s.take(k));
    } else {
        assert(s.take(k) =~= s);
    }
}

fn digit_of(c: char) -> (r: Option<u32>)
    ensures
        r matches Some(d) ==> is_digit(c) && d == digit_val(c) && d <= 9,
        r is None ==> !is_digit(c),
{
    let cu = c as u32;
    if cu >= 48 && cu <= 57 {
        Some(cu - 48)
    } else {
        None
    }
}

/// Parses the characters `from .. to` of `v` as a signed decimal literal.
fn parse_int(v: &Vec<char>, from: usize, to: usize) -> (r: Option<i64>)
    requires
        from <= to <= v@.len(),
    ensures
        r == int_literal_result(v@.subrange(from as int, to as int)),
{
    let ghost s = v@.subrange(from as int, to as int);
    if from == to {
        return None;
    }
    let c0 = v[from];
    let signed = c0 == '-' || c0 == '+';
    let neg = c0 == '-';
    let start = if signed {
        from + 1
    } else {
        from
    };
    proof {
        if signed {
            assert(v@.subrange(start as int, to as int) =~= s.skip(1));
        } else {
            assert(v@.subrange(start as int, to as int) =~= s);
        }
    }
    if start == to {
        return None;
    }
    let ghost ds = v@.subrange(start as int, to as int);
    let mut mag: u128 = 0;
    let mut j = start;
    while j < to
        invariant
            from <= start <= j <= to <= v@.len(),
            s == v@.subrange(from as int, to as int),
            ds == v@.subrange(start as int, to as int),
            s.len() > 0,
            ds.len() > 0,
            signed ==> s.len() > 1 && (s[0] == '-' || s[0] == '+') && ds == s.skip(1) && start
                == from + 1,
            !signed ==> s[0] != '-' && s[0] != '+' && ds == s && start == from,
            neg == (s[0] == '-'),
            all_digits(v@.subrange(start as int, j as int)),
            mag as int == digits_val(v@.subrange(start as int, j as int)),
            mag <= 0x8000000000000000u128,
        decreases to - j,
    {
        let c = v[j];
        let d = match digit_of(c) {
            Some(d) => d,
            None => {
                proof {
                    assert(ds[j - start] == c);
                    assert(!all_digits(ds));
                }
                return None;
            },
        };
        mag = mag * 10 + (d as u128);
        j += 1;
        proof {
            let p = v@.subrange(start as int, j as int);
            assert(p.take(p.len() - 1) =~= v@.subrange(start as int, j as int - 1));
            assert(p[p.len() - 1] == c);
            assert(all_digits(p));
        }
        if mag > 0x8000000000000000u128 {
            proof {
                if all_digits(ds) {
                    assert(ds.take(j as int - start) =~= v@.subrange(start as int, j as int));
                    lemma_digits_val_prefix_le(ds, j as int - start);
                }
            }
            return None;
        }
    }
    proof {
        assert(v@.subrange(start as int, j as int) =~= ds);
        lemma_digits_val_nonneg(ds);
    }
    if neg {
        if mag == 0x8000000000000000u128 {
            Some(i64::MIN)
        } else {
            Some(-(mag as i64))
        }
    } else {
        if mag > (i64::MAX as u128) {
            None
        } else {
            Some(mag as i64)
        }
    }
}

fn find_colon(v: &Vec<char>, from: usize) -> (r: usize)
    requires
        from <= v@.len(),
    ensures
        r == first_colon_from(v@, from as int),
        from <= r <= v@.len(),
{
    let n = v.len();
    let mut i = from;
    while i < n && v[i] != ':'
        invariant
            from <= i <= n,
            n == v@.len(),
            first_colon_from(v@, from as int) == first_colon_from(v@, i as int),
        decreases n - i,
    {
        i += 1;
    }
    i
}

/// Parses a `N:M` line-range argument: accepted exactly when the text has
/// one colon and each side is a signed decimal integer that fits 64 bits.
pub fn parse_line_range(s: &str) -> (r: Option<(i64, i64)>)
    ensures
        r == line_range_result(s@),
{
    let v = str_chars(s);
    let n = v.len();
    let ci = find_colon(&v, 0);
    if ci == n {
        return None;
    }
    let second = find_colon(&v, ci + 1);
    if second != n {
        return None;
    }
    proof {
        assert(v@.subrange(0, ci as int) =~= v@.take(ci as int));
        assert(v@.subrange(ci as int + 1, n as int) =~= v@.skip(ci as int + 1));
    }
    let a = parse_int(&v, 0, ci);
    let b = parse_int(&v, ci + 1, n);
    match (a, b) {
        (Some(x), Some(y)) => Some((x, y)),
        _ => None,
    }
}

} // verus!
