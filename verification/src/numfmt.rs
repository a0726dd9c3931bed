//! Decimal rendering with thousands separators and human-readable byte
//! sizes with unit prefixes.
//!
//! Sizes are scaled by repeatedly dividing by a magnitude divisor (1024 for
//! binary prefixes, 1000 otherwise) while the exact scaled value strictly
//! exceeds the divisor; the division count selects the prefix letter. A
//! fractional display digit that rounds to ten carries into the integer
//! part (for example a scaled value of 9.97 renders as "10.0").

use vstd::prelude::*;

use crate::text::chars_to_string;

verus! {

/// The character for one decimal digit value.
pub open spec fn digit_char(d: nat) -> char {
    if d == 0 {
        '0'
    } else if d == 1 {
        '1'
    } else if d == 2 {
        '2'
    } else if d == 3 {
        '3'
    } else if d == 4 {
        '4'
    } else if d == 5 {
        '5'
    } else if d == 6 {
        '6'
    } else if d == 7 {
        '7'
    } else if d == 8 {
        '8'
    } else {
        '9'
    }
}

/// The decimal digits of `n`, most significant first, with no separators.
pub open spec fn dec_digits(n: nat) -> Seq<char>
    decreases n,
{
    if n < 10 {
        seq![digit_char(n)]
    } else {
        dec_digits(n / 10) + seq![digit_char(n % 10)]
    }
}

/// Groups a digit sequence with a comma before every three digits counted
/// from the right; the leftmost group may be shorter.
pub open spec fn group_digits(ds: Seq<char>) -> Seq<char>
    decreases ds.len(),
{
    if ds.len() <= 3 {
        ds
    } else {
        group_digits(ds.take(ds.len() - 3)) + seq![','] + ds.skip(ds.len() - 3)
    }
}

/// `n` in decimal with a comma between every three-digit group.
pub open spec fn sep_string(n: nat) -> Seq<char> {
    group_digits(dec_digits(n))
}

pub(crate) fn digit_char_exec(d: u64) -> (c: char)
    requires
        d < 10,
    ensures
        c == digit_char(d as nat),
{
    match d {
        0 => '0',
        1 => '1',
        2 => '2',
        3 => '3',
        4 => '4',
        5 => '5',
        6 => '6',
        7 => '7',
        8 => '8',
        _ => '9',
    }
}

/// The decimal digits of `n` as characters, most significant first.
pub fn dec_digits_exec(n: u64) -> (r: Vec<char>)
    ensures
        r@ == dec_digits(n as nat),
    decreases n,
{
    if n < 10 {
        let mut r: Vec<char> = Vec::new();
        r.push(digit_char_exec(n));
        proof {
            assert(r@ =~= dec_digits(n as nat));
        }
        r
    } else {
        let mut r = dec_digits_exec(n / 10);
        r.push(digit_char_exec(n % 10));
        proof {
            assert(r@ =~= dec_digits(n as nat));
        }
        r
    }
}

/// The first `n` digits of `ds`, grouped with commas.
fn grouped_prefix(ds: &Vec<char>, n: usize) -> (r: Vec<char>)
    requires
        n <= ds@.len(),
    ensures
        r@ == group_digits(ds@.take(n as int)),
    decreases n,
{
    if n <= 3 {
        let mut r: Vec<char> = Vec::new();
        let mut i: usize = 0;
        while i < n
            invariant
                i <= n <= ds@.len(),
                r@ == ds@.take(n as int).take(i as int),
            decreases n - i,
        {
            r.push(ds[i]);
            i += 1;
            proof {
                assert(r@ =~= ds@.take(n as int).take(i as int));
            }
        }
        proof {
            assert(ds@.take(n as int).take(n as int) =~= ds@.take(n as int));
        }
        r
    } else {
        let mut r = grouped_prefix(ds, n - 3);
        r.push(',');
        r.push(ds[n - 3]);
        r.push(ds[n - 2]);
        r.push(ds[n - 1]);
        proof {
            let t = ds@.take(n as int);
            assert(t.take(n - 3) =~= ds@.take(n - 3));
            assert(r@ =~= group_digits(t.take(n - 3)) + seq![','] + t.skip(n - 3));
        }
        r
    }
}

/// The separated decimal rendering of `n` as characters.
pub fn sep_chars(n: u64) -> (r: Vec<char>)
    ensures
        r@ == sep_string(n as nat),
{
    let ds = dec_digits_exec(n);
    let grouped = grouped_prefix(&ds, ds.len());
    proof {
        assert(ds@.take(ds@.len() as int) =~= ds@);
    }
    grouped
}

/// Renders `n` in base ten with a comma inserted before every three-digit
/// group counted from the right.
pub fn format_with_separator(n: u64) -> (r: String)
    ensures
        r@ == sep_string(n as nat),
{
    let cs = sep_chars(n);
    chars_to_string(&cs)
}

/// Counts how many times `n` must be divided by `m` before the exact scaled
/// value no longer strictly exceeds `m`; `t` is the running threshold.
pub open spec fn order_above(n: nat, t: nat, m: nat) -> nat
    decreases (if t < n { n - t } else { 0 }) when 2 <= m && 1 <= t via order_above_decreases
{
    if n <= t {
        0
    } else {
        1 + order_above(n, t * m, m)
    }
}

#[via_fn]
proof fn order_above_decreases(n: nat, t: nat, m: nat) {
    assert(t * m >= 2 * t) by (nonlinear_arith)
        requires
            2 <= m && 1 <= t,
    ;
}

/// The unit-prefix order of a byte count for magnitude divisor `m`: the
/// number of divisions by `m` applied while the scaled value strictly
/// exceeds `m`. A value exactly equal to `m` keeps order zero.
pub open spec fn size_order(n: nat, m: nat) -> nat {
    order_above(n, m, m)
}

/// `m` to the power `k`.
pub open spec fn pow_nat(m: nat, k: nat) -> nat
    decreases k,
{
    if k == 0 {
        1
    } else {
        m * pow_nat(m, (k - 1) as nat)
    }
}

/// Division of `a` by `b`, rounded half away from zero.
pub open spec fn round_div(a: nat, b: nat) -> nat
    recommends
        1 <= b,
{
    (a + b / 2) / b
}

/// The unit-prefix letters for orders one through six, with the extra `i`
/// marker for binary divisors.
pub open spec fn size_prefix(k: nat, binary: bool) -> Seq<char>
    recommends
        1 <= k <= 6,
{
    let p = if k == 1 {
        'k'
    } else if k == 2 {
        'M'
    } else if k == 3 {
        'G'
    } else if k == 4 {
        'T'
    } else if k == 5 {
        'P'
    } else {
        'E'
    };
    if binary {
        seq![p, 'i']
    } else {
        seq![p]
    }
}

/// The magnitude divisor selected by the binary flag.
pub open spec fn size_divisor(binary: bool) -> nat {
    if binary {
        1024
    } else {
        1000
    }
}

/// The human-readable rendering of a byte count: the plain separated
/// integer at order zero; at higher orders the scaled value, rounded to the
/// nearest integer when at least ten and to one fractional digit otherwise,
/// followed by the prefix letters. A fractional digit that rounds to ten
/// carries into the integer part.
pub open spec fn human_size(n: nat, binary: bool) -> Seq<char> {
    let m = size_divisor(binary);
    let k = size_order(n, m);
    let d = pow_nat(m, k);
    if k == 0 {
        sep_string(n)
    } else if n >= 10 * d {
        sep_string(round_div(n, d)) + size_prefix(k, binary)
    } else {
        let digit = round_div((n % d) * 10, d);
        if digit == 10 {
            sep_string(n / d + 1) + seq!['.', '0'] + size_prefix(k, binary)
        } else {
            sep_string(n / d) + seq!['.', digit_char(digit)] + size_prefix(k, binary)
        }
    }
}

/// How many decimal digits `n` has: one for values under ten, three at
/// most under a thousand, at least four from a thousand up.
pub proof fn lemma_dec_digits_len(n: nat)
    ensures
        n < 10 ==> dec_digits(n).len() == 1,
        n < 100 ==> dec_digits(n).len() <= 2,
        n < 1000 ==> dec_digits(n).len() <= 3,
        n >= 10 ==> dec_digits(n).len() >= 2,
        n >= 100 ==> dec_digits(n).len() >= 3,
        n >= 1000 ==> dec_digits(n).len() >= 4,
    decreases n,
{
    if n >= 10 {
        lemma_dec_digits_len(n / 10);
    }
}

/// Decimal digits are never the separator character.
pub proof fn lemma_dec_digits_no_comma(n: nat)
    ensures
        forall|i: int| 0 <= i < dec_digits(n).len() ==> dec_digits(n)[i] != ',',
    decreases n,
{
    if n >= 10 {
        lemma_dec_digits_no_comma(n / 10);
        assert forall|i: int| 0 <= i < dec_digits(n).len() implies dec_digits(n)[i] != ',' by {
            if i < dec_digits(n).len() - 1 {
                assert(dec_digits(n)[i] == dec_digits(n / 10)[i]);
            } else {
                assert(dec_digits(n)[i] == digit_char(n % 10));
            }
        }
    }
}

proof fn lemma_group_digits_structure(ds: Seq<char>)
    requires
        forall|i: int| 0 <= i < ds.len() ==> ds[i] != ',',
    ensures
        group_digits(ds).len() >= ds.len(),
        forall|p: int|
            0 <= p < group_digits(ds).len() ==> ((#[trigger] group_digits(ds)[p] == ',') <==> ((
            group_digits(ds).len() - 1 - p) % 4 == 3)),
    decreases ds.len(),
{
    let g = group_digits(ds);
    if ds.len() <= 3 {
        assert forall|p: int| 0 <= p < g.len() implies ((#[trigger] g[p] == ',') <==> ((g.len() - 1
            - p) % 4 == 3)) by {
            assert(g[p] == ds[p]);
            assert(0 <= g.len() - 1 - p < 3);
        }
    } else {
        let front = ds.take(ds.len() - 3);
        lemma_group_digits_structure(front);
        let gf = group_digits(front);
        assert(g == gf + seq![','] + ds.skip(ds.len() - 3));
        assert forall|p: int| 0 <= p < g.len() implies ((#[trigger] g[p] == ',') <==> ((g.len() - 1
            - p) % 4 == 3)) by {
            let j = g.len() - 1 - p;
            assert(g.len() == gf.len() + 4);
            if p > gf.len() {
                assert(g[p] == ds[ds.len() - 3 + (p - gf.len() - 1)]);
                assert(0 <= j < 3);
            } else if p == gf.len() {
                assert(g[p] == ',');
                assert(j == 3);
            } else {
                assert(g[p] == gf[p]);
                assert((gf[p] == ',') <==> ((gf.len() - 1 - p) % 4 == 3));
                assert(gf.len() - 1 - p == j - 4);
                assert(((j - 4) % 4 == 3) <==> (j % 4 == 3));
            }
        }
    }
}

/// The separated rendering of a value under a thousand has no comma; from a
/// thousand up, reading from the right, a comma stands exactly at every
/// fourth position, so every group right of the leftmost holds exactly
/// three digits.
pub proof fn lemma_separator_structure(n: nat)
    ensures
        n < 1000 ==> forall|i: int| 0 <= i < sep_string(n).len() ==> sep_string(n)[i] != ',',
        forall|p: int|
            0 <= p < sep_string(n).len() ==> ((#[trigger] sep_string(n)[p] == ',') <==> ((
            sep_string(n).len() - 1 - p) % 4 == 3)),
        n >= 1000 ==> sep_string(n)[sep_string(n).len() - 4] == ',',
{
    let ds = dec_digits(n);
    lemma_dec_digits_len(n);
    lemma_dec_digits_no_comma(n);
    lemma_group_digits_structure(ds);
    let g = sep_string(n);
    if n < 1000 {
        assert(g == ds);
    }
    if n >= 1000 {
        assert(g.len() >= 4);
        assert((g[g.len() - 4] == ',') <==> ((g.len() - 1 - (g.len() - 4)) % 4 == 3));
        assert((g.len() - 1 - (g.len() - 4)) % 4 == 3int % 4);
    }
}

fn above_threshold(n: u64, d: u64, m: u64) -> (b: bool)
    ensures
        b == ((n as nat) > (d as nat) * (m as nat)),
{
    proof {
        vstd::arithmetic::mul::lemma_mul_upper_bound(
            d as int,
            u64::MAX as int,
            m as int,
            u64::MAX as int,
        );
    }
    (n as u128) > (d as u128) * (m as u128)
}

proof fn lemma_pow6_bounds(m: nat)
    requires
        m == 1000 || m == 1024,
    ensures
        1000000000000000000 <= pow_nat(m, 6) <= 1152921504606846976,
{
    assert(pow_nat(m, 0) == 1);
    assert(pow_nat(m, 1) == m * pow_nat(m, 0));
    assert(pow_nat(m, 2) == m * pow_nat(m, 1));
    assert(pow_nat(m, 3) == m * pow_nat(m, 2));
    assert(pow_nat(m, 4) == m * pow_nat(m, 3));
    assert(pow_nat(m, 5) == m * pow_nat(m, 4));
    assert(pow_nat(m, 6) == m * pow_nat(m, 5));
}

proof fn lemma_pow_le_pow6(m: nat, k: nat)
    requires
        m == 1000 || m == 1024,
        k <= 6,
    ensures
        pow_nat(m, k) <= pow_nat(m, 6),
        1 <= pow_nat(m, k),
{
    assert(pow_nat(m, 0) == 1);
    assert(pow_nat(m, 1) == m * pow_nat(m, 0));
    assert(pow_nat(m, 2) == m * pow_nat(m, 1));
    assert(pow_nat(m, 3) == m * pow_nat(m, 2));
    assert(pow_nat(m, 4) == m * pow_nat(m, 3));
    assert(pow_nat(m, 5) == m * pow_nat(m, 4));
    assert(pow_nat(m, 6) == m * pow_nat(m, 5));
}

/// The human-readable rendering of a byte count as characters.
pub fn human_chars(n: u64, binary: bool) -> (r: Vec<char>)
    ensures
        r@ == human_size(n as nat, binary),
{
    let m: u64 = if binary {
        1024
    } else {
        1000
    };
    let mut k: u64 = 0;
    let mut d: u64 = 1;
    while above_threshold(n, d, m)
        invariant
            m == size_divisor(binary),
            d as nat == pow_nat(m as nat, k as nat),
            k <= 6,
            k >= 1 ==> (n as nat) > (d as nat),
            size_order(n as nat, m as nat) == k as nat + order_above(
                n as nat,
                (d as nat) * (m as nat),
                m as nat,
            ),
        decreases (if d < n { n - d } else { 0 }),
    {
        proof {
            lemma_pow6_bounds(m as nat);
            lemma_pow_le_pow6(m as nat, k as nat);
            if k == 6 {
                assert((d as nat) * (m as nat) >= 1000000000000000000 * 1000nat);
                assert(false);
            }
        }
        let d_new = ((d as u128) * (m as u128)) as u64;
        proof {
            assert((d as nat) * (m as nat) < n as nat);
            assert(order_above(n as nat, (d as nat) * (m as nat), m as nat) == 1 + order_above(
                n as nat,
                ((d as nat) * (m as nat)) * (m as nat),
                m as nat,
            ));
        }
        d = d_new;
        k = k + 1;
    }
    proof {
        assert(order_above(n as nat, (d as nat) * (m as nat), m as nat) == 0);
        assert(size_order(n as nat, m as nat) == k as nat);
        lemma_pow_le_pow6(m as nat, k as nat);
        lemma_pow6_bounds(m as nat);
    }
    if k == 0 {
        sep_chars(n)
    } else {
        let prefix = size_prefix_exec(k, binary);
        let ten_d = 10u128 * (d as u128);
        if (n as u128) >= ten_d {
            let q128 = ((n as u128) + (d as u128) / 2) / (d as u128);
            proof {
                vstd::arithmetic::div_mod::lemma_div_is_ordered(
                    (n as nat + (d as nat) / 2) as int,
                    ((d as nat) * (m as nat) + (d as nat) / 2) as int,
                    d as int,
                );
                vstd::arithmetic::div_mod::lemma_fundamental_div_mod(
                    ((d as nat) * (m as nat) + (d as nat) / 2) as int,
                    d as int,
                );
                assert(((d as nat) * (m as nat) + (d as nat) / 2) / (d as nat) == m as nat) by (nonlinear_arith)
                    requires
                        1 <= d as nat,
                        2 <= m as nat,
                ;
                assert(round_div(n as nat, d as nat) <= m as nat);
            }
            let q = q128 as u64;
            let mut body = dec_digits_exec(q);
            let grouped = grouped_prefix(&body, body.len());
            proof {
                assert(body@.take(body@.len() as int) =~= body@);
            }
            let mut out = grouped;
            crate::text::push_chars(&mut out, &prefix);
            proof {
                assert(out@ =~= human_size(n as nat, binary));
            }
            out
        } else {
            let i = n / d;
            let f = n % d;
            let digit128 = (10u128 * (f as u128) + (d as u128) / 2) / (d as u128);
            proof {
                let dn = d as nat;
                let fn_ = f as nat;
                assert(fn_ < dn);
                assert((10 * fn_ + dn / 2) / dn <= 10) by (nonlinear_arith)
                    requires
                        1 <= dn,
                        fn_ < dn,
                ;
                assert((n as nat) / (d as nat) < 10) by (nonlinear_arith)
                    requires
                        1 <= d as nat,
                        (n as nat) < 10 * (d as nat),
                ;
            }
            let digit = digit128 as u64;
            let mut out: Vec<char>;
            if digit == 10 {
                out = dec_digits_exec(i + 1);
                let grouped = grouped_prefix(&out, out.len());
                proof {
                    assert(out@.take(out@.len() as int) =~= out@);
                }
                out = grouped;
                out.push('.');
                out.push('0');
            } else {
                out = dec_digits_exec(i);
                let grouped = grouped_prefix(&out, out.len());
                proof {
                    assert(out@.take(out@.len() as int) =~= out@);
                }
                out = grouped;
                out.push('.');
                out.push(digit_char_exec(digit));
            }
            crate::text::push_chars(&mut out, &prefix);
            proof {
                assert(out@ =~= human_size(n as nat, binary));
            }
            out
        }
    }
}

/// Renders a byte count in human-readable form: binary divisor 1024 with an
/// `i` marker, or decimal divisor 1000, per `human_size`.
pub fn format_human_size(n: u64, binary: bool) -> (r: String)
    ensures
        r@ == human_size(n as nat, binary),
{
    let cs = human_chars(n, binary);
    chars_to_string(&cs)
}

fn size_prefix_exec(k: u64, binary: bool) -> (r: Vec<char>)
    requires
        1 <= k <= 6,
    ensures
        r@ == size_prefix(k as nat, binary),
{
    let p = match k {
        1 => 'k',
        2 => 'M',
        3 => 'G',
        4 => 'T',
        5 => 'P',
        _ => 'E',
    };
    let mut r: Vec<char> = Vec::new();
    r.push(p);
    if binary {
        r.push('i');
        proof {
            assert(r@ =~= size_prefix(k as nat, binary));
        }
    } else {
        proof {
            assert(r@ =~= size_prefix(k as nat, binary));
        }
    }
    r
}

} // verus!
