//! Character-vector helpers shared by the formatters: conversion to
//! `String`, concatenation, padding, and name handling.

use vstd::prelude::*;

verus! {

/// A run of `n` spaces.
pub open spec fn spaces(n: nat) -> Seq<char> {
    Seq::new(n, |i| ' ')
}

/// Relies on `String: FromIterator<char>`: collecting characters yields the
/// string holding exactly those characters in order.
#[verifier::external_body]
pub fn chars_to_string(v: &Vec<char>) -> (r: String)
    ensures
        r@ == v@,
{
    v.iter().collect()
}

/// Appends every character of `src` to `dst`.
pub fn push_chars(dst: &mut Vec<char>, src: &Vec<char>)
    ensures
        final(dst)@ == old(dst)@ + src@,
{
    let n = src.len();
    let mut i: usize = 0;
    while i < n
        invariant
            i <= n,
            n == src@.len(),
            dst@ == old(dst)@ + src@.subrange(0, i as int),
        decreases n - i,
    {
        dst.push(src[i]);
        i += 1;
        proof {
            assert(dst@ =~= old(dst)@ + src@.subrange(0, i as int));
        }
    }
    proof {
        assert(dst@ =~= old(dst)@ + src@);
    }
}

/// Appends every character of the string slice `s` to `dst`.
pub fn push_str_chars(dst: &mut Vec<char>, s: &str)
    ensures
        final(dst)@ == old(dst)@ + s@,
{
    let n = s.unicode_len();
    let mut i: usize = 0;
    while i < n
        invariant
            i <= n,
            n == s@.len(),
            dst@ == old(dst)@ + s@.subrange(0, i as int),
        decreases n - i,
    {
        dst.push(s.get_char(i));
        i += 1;
        proof {
            assert(dst@ =~= old(dst)@ + s@.subrange(0, i as int));
        }
    }
    proof {
        assert(dst@ =~= old(dst)@ + s@);
    }
}

/// The index of the last `/` in `s`, or minus one when there is none.
pub open spec fn last_slash(s: Seq<char>) -> int
    decreases s.len(),
{
    if s.len() == 0 {
        -1
    } else if s[s.len() - 1] == '/' {
        s.len() - 1
    } else {
        last_slash(s.take(s.len() - 1))
    }
}

/// What follows the last `/` of a path, or the whole path when it has
/// none; empty for a path that ends in `/`.
pub open spec fn base_name_of(s: Seq<char>) -> Seq<char> {
    s.skip(last_slash(s) + 1)
}

/// The final path component: what follows the last slash.
pub fn base_name(path: &str) -> (r: String)
    ensures
        r@ == base_name_of(path@),
{
    let n = path.unicode_len();
    let mut pos: usize = 0;
    let mut j: usize = 0;
    while j < n
        invariant
            j <= n,
            pos <= j,
            n == path@.len(),
            pos as int == last_slash(path@.take(j as int)) + 1,
        decreases n - j,
    {
        if path.get_char(j) == '/' {
            pos = j + 1;
        }
        j += 1;
        proof {
            assert(path@.take(j as int).take(j as int - 1) =~= path@.take(j as int - 1));
        }
    }
    proof {
        assert(path@.take(n as int) =~= path@);
    }
    let tail = path.substring_char(pos, n);
    let r = String::from_str(tail);
    proof {
        assert(r@ =~= base_name_of(path@));
    }
    r
}

/// A line split into chunks of at most `m` characters: full chunks of
/// exactly `m` until the remainder, which is at most `m` long and may be
/// empty only when the whole line is.
pub open spec fn wrapped(s: Seq<char>, m: nat) -> Seq<Seq<char>>
    decreases s.len() when 1 <= m
{
    if s.len() <= m {
        seq![s]
    } else {
        seq![s.take(m as int)] + wrapped(s.skip(m as int), m)
    }
}

fn sub_chars(v: &Vec<char>, from: usize, to: usize) -> (r: Vec<char>)
    requires
        from <= to <= v@.len(),
    ensures
        r@ == v@.subrange(from as int, to as int),
{
    let mut r: Vec<char> = Vec::new();
    let mut i: usize = from;
    while i < to
        invariant
            from <= i <= to <= v@.len(),
            r@ == v@.subrange(from as int, i as int),
        decreases to - i,
    {
        r.push(v[i]);
        i += 1;
        proof {
            assert(r@ =~= v@.subrange(from as int, i as int));
        }
    }
    r
}

/// Splits a line into display rows of at most `maxw` characters, in order,
/// cutting after every `maxw` characters.
pub fn wrap_line(v: &Vec<char>, maxw: usize) -> (r: Vec<Vec<char>>)
    requires
        1 <= maxw,
    ensures
        r.deep_view() == wrapped(v@, maxw as nat),
{
    let n = v.len();
    let mut out: Vec<Vec<char>> = Vec::new();
    let mut start: usize = 0;
    proof {
        assert(v@.skip(0) =~= v@);
        assert(out.deep_view() + wrapped(v@, maxw as nat) =~~= wrapped(v@, maxw as nat));
    }
    while n - start > maxw
        invariant
            start <= n,
            n == v@.len(),
            1 <= maxw,
            wrapped(v@, maxw as nat) == out.deep_view() + wrapped(
                v@.skip(start as int),
                maxw as nat,
            ),
        decreases n - start,
    {
        let chunk = sub_chars(v, start, start + maxw);
        let ghost prev = out.deep_view();
        out.push(chunk);
        start += maxw;
        proof {
            let rest = v@.skip(start as int - maxw);
            assert(rest.take(maxw as int) =~= v@.subrange(
                start as int - maxw,
                start as int,
            ));
            assert(rest.skip(maxw as int) =~= v@.skip(start as int));
            assert(out.deep_view() =~~= prev + seq![rest.take(maxw as int)]);
            assert(out.deep_view() + wrapped(v@.skip(start as int), maxw as nat) =~~= wrapped(
                v@,
                maxw as nat,
            ));
        }
    }
    let chunk = sub_chars(v, start, n);
    let ghost prev = out.deep_view();
    out.push(chunk);
    proof {
        assert(v@.subrange(start as int, n as int) =~= v@.skip(start as int));
        assert(out.deep_view() =~~= prev + seq![v@.skip(start as int)]);
        assert(out.deep_view() =~~= wrapped(v@, maxw as nat));
    }
    out
}

/// The characters of a string slice.
pub fn str_chars(s: &str) -> (r: Vec<char>)
    ensures
        r@ == s@,
{
    let mut r: Vec<char> = Vec::new();
    push_str_chars(&mut r, s);
    r
}

/// Wraps a text line to the display width as strings, per `wrapped`.
pub fn wrap_text(s: &str, maxw: usize) -> (r: Vec<String>)
    requires
        1 <= maxw,
    ensures
        r.deep_view() == wrapped(s@, maxw as nat),
{
    let cs = str_chars(s);
    let chunks = wrap_line(&cs, maxw);
    let m = chunks.len();
    let mut out: Vec<String> = Vec::new();
    let mut i: usize = 0;
    while i < m
        invariant
            i <= m,
            m == chunks@.len(),
            out.deep_view() == chunks.deep_view().take(i as int),
        decreases m - i,
    {
        let ghost prev = out.deep_view();
        let ghost oldv = out@;
        let line = chars_to_string(&chunks[i]);
        let ghost lv = line@;
        out.push(line);
        i += 1;
        proof {
            assert(prev.len() == oldv.len());
            assert(prev.len() == i as int - 1);
            assert(out@.len() == oldv.len() + 1);
            assert(out.deep_view().len() == i as int);
            assert(out@[i as int - 1]@ == lv);
            assert(lv == chunks.deep_view()[i as int - 1]);
            assert forall|j: int| 0 <= j < i as int implies out.deep_view()[j]
                == chunks.deep_view().take(i as int)[j] by {
                assert(out.deep_view()[j] == out@[j].deep_view());
                if j < i as int - 1 {
                    assert(out@[j] == oldv[j]);
                    assert(prev[j] == oldv[j].deep_view());
                    assert(prev[j] == chunks.deep_view().take(i as int - 1)[j]);
                }
            }
            assert(out.deep_view() =~= chunks.deep_view().take(i as int));
        }
    }
    proof {
        assert(chunks.deep_view().take(m as int) =~~= chunks.deep_view());
        assert(out.deep_view() == wrapped(cs@, maxw as nat));
    }
    out
}

/// Appends `n` spaces to `dst`.
pub fn push_spaces(dst: &mut Vec<char>, n: usize)
    ensures
        final(dst)@ == old(dst)@ + spaces(n as nat),
{
    let mut i: usize = 0;
    while i < n
        invariant
            i <= n,
            dst@ == old(dst)@ + spaces(i as nat),
        decreases n - i,
    {
        dst.push(' ');
        i += 1;
        proof {
            assert(dst@ =~= old(dst)@ + spaces(i as nat));
        }
    }
}

} // verus!
