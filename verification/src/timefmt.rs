//! Rendering of timestamps as local civil time in the fixed pattern
//! `day month(abbrev) hour:minute`, for example `05 Mar 14:22`.

use vstd::prelude::*;

use chrono::Datelike;
use chrono::TimeZone;
use chrono::Timelike;

use crate::numfmt::digit_char;
use crate::numfmt::digit_char_exec;

verus! {

/// A civil (wall-clock) time in the machine's local time zone, reduced to
/// the components the display pattern uses.
#[derive(Clone, Copy)]
pub struct CivilTime {
    pub day: u32,
    pub month: u32,
    pub hour: u32,
    pub minute: u32,
}

impl CivilTime {
    /// The calendar ranges of the components.
    pub open spec fn valid(self) -> bool {
        &&& 1 <= self.day <= 31
        &&& 1 <= self.month <= 12
        &&& self.hour < 24
        &&& self.minute < 60
    }
}

/// A number under one hundred as two decimal digits, zero-padded.
pub open spec fn two_digits(n: nat) -> Seq<char>
    recommends
        n < 100,
{
    seq![digit_char(n / 10), digit_char(n % 10)]
}

/// The English three-letter month abbreviation, months numbered from one.
pub open spec fn month_abbrev(m: nat) -> Seq<char>
    recommends
        1 <= m <= 12,
{
    if m == 1 {
        seq!['J', 'a', 'n']
    } else if m == 2 {
        seq!['F', 'e', 'b']
    } else if m == 3 {
        seq!['M', 'a', 'r']
    } else if m == 4 {
        seq!['A', 'p', 'r']
    } else if m == 5 {
        seq!['M', 'a', 'y']
    } else if m == 6 {
        seq!['J', 'u', 'n']
    } else if m == 7 {
        seq!['J', 'u', 'l']
    } else if m == 8 {
        seq!['A', 'u', 'g']
    } else if m == 9 {
        seq!['S', 'e', 'p']
    } else if m == 10 {
        seq!['O', 'c', 't']
    } else if m == 11 {
        seq!['N', 'o', 'v']
    } else {
        seq!['D', 'e', 'c']
    }
}

/// The twelve-character display pattern: zero-padded day, month
/// abbreviation, and a 24-hour clock time.
pub open spec fn time_string(t: CivilTime) -> Seq<char>
    recommends
        t.valid(),
{
    two_digits(t.day as nat) + seq![' '] + month_abbrev(t.month as nat) + seq![' '] + two_digits(
        t.hour as nat,
    ) + seq![':'] + two_digits(t.minute as nat)
}

/// Whether chrono can represent an instant `s` seconds from the Unix
/// epoch: the seconds that `DateTime::from_timestamp` accepts.
pub uninterp spec fn epoch_in_range(s: i64) -> bool;

/// The local civil time of an instant given as seconds since the Unix
/// epoch, or `None` when the instant is outside the representable range.
///
/// Relies on chrono's `TimeZone::timestamp_opt` on `Local` and the
/// `Datelike`/`Timelike` accessors, whose documented ranges are day 1-31,
/// month 1-12, hour 0-23 and minute 0-59. `timestamp_opt` maps a second
/// count to a single local instant exactly when `DateTime::from_timestamp`
/// accepts it, and that acceptance is a pure function of the seconds, so
/// the presence of a result equals `epoch_in_range` of the argument.
#[verifier::external_body]
pub fn civil_from_epoch(secs: i64) -> (r: Option<CivilTime>)
    ensures
        r is Some <==> epoch_in_range(secs),
        r matches Some(t) ==> t.valid(),
{
    match chrono::Local.timestamp_opt(secs, 0).single() {
        Some(dt) => Some(
            CivilTime { day: dt.day(), month: dt.month(), hour: dt.hour(), minute: dt.minute() },
        ),
        None => None,
    }
}

fn push_two_digits(out: &mut Vec<char>, n: u32)
    requires
        n < 100,
    ensures
        final(out)@ == old(out)@ + two_digits(n as nat),
{
    out.push(digit_char_exec((n / 10) as u64));
    out.push(digit_char_exec((n % 10) as u64));
    proof {
        assert(out@ =~= old(out)@ + two_digits(n as nat));
    }
}

fn month_chars(m: u32) -> (r: (char, char, char))
    requires
        1 <= m <= 12,
    ensures
        seq![r.0, r.1, r.2] == month_abbrev(m as nat),
{
    let r = match m {
        1 => ('J', 'a', 'n'),
        2 => ('F', 'e', 'b'),
        3 => ('M', 'a', 'r'),
        4 => ('A', 'p', 'r'),
        5 => ('M', 'a', 'y'),
        6 => ('J', 'u', 'n'),
        7 => ('J', 'u', 'l'),
        8 => ('A', 'u', 'g'),
        9 => ('S', 'e', 'p'),
        10 => ('O', 'c', 't'),
        11 => ('N', 'o', 'v'),
        _ => ('D', 'e', 'c'),
    };
    proof {
        assert(seq![r.0, r.1, r.2] =~= month_abbrev(m as nat));
    }
    r
}

/// The display pattern of a civil time as characters, per `time_string`.
pub fn time_chars(t: &CivilTime) -> (r: Vec<char>)
    requires
        t.valid(),
    ensures
        r@ == time_string(*t),
{
    let mut out: Vec<char> = Vec::new();
    push_two_digits(&mut out, t.day);
    out.push(' ');
    let (m0, m1, m2) = month_chars(t.month);
    out.push(m0);
    out.push(m1);
    out.push(m2);
    out.push(' ');
    push_two_digits(&mut out, t.hour);
    out.push(':');
    push_two_digits(&mut out, t.minute);
    proof {
        assert(out@ =~= time_string(*t));
    }
    out
}

/// Renders a civil time in the fixed display pattern.
pub fn format_timestamp(t: &CivilTime) -> (r: String)
    requires
        t.valid(),
    ensures
        r@ == time_string(*t),
{
    let cs = time_chars(t);
    crate::text::chars_to_string(&cs)
}

/// The display pattern always spans exactly twelve characters.
pub proof fn lemma_time_string_len(t: CivilTime)
    ensures
        time_string(t).len() == 12,
{
}

} // verus!
