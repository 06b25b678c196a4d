//! Duration strings such as `"5s"`, `"200ms"`, `"2m"`.
use std::time::Duration;

use vstd::prelude::*;

use crate::text::{
    all_digits, chars_of, decimal, digit_value, digits_value, ends_with, ends_with_seq,
    is_ascii_digit, parse_u64_spec, parse_uint, parse_uint_spec, slice_of,
};

verus! {

/// `Duration::from_nanos(n)`.
pub uninterp spec fn nanos_duration(n: u64) -> Duration;

/// `Duration::from_micros(n)`.
pub uninterp spec fn micros_duration(n: u64) -> Duration;

/// `Duration::from_millis(n)`.
pub uninterp spec fn millis_duration(n: u64) -> Duration;

/// `Duration::from_secs(n)`.
pub uninterp spec fn secs_duration(n: u64) -> Duration;

/// `Duration::from_nanos`: the duration of `n` nanoseconds.
#[verifier::external_body]
fn from_nanos(n: u64) -> (d: Duration)
    ensures
        d == nanos_duration(n),
{
    Duration::from_nanos(n)
}

/// `Duration::from_micros`: the duration of `n` microseconds.
#[verifier::external_body]
fn from_micros(n: u64) -> (d: Duration)
    ensures
        d == micros_duration(n),
{
    Duration::from_micros(n)
}

/// `Duration::from_millis`: the duration of `n` milliseconds.
#[verifier::external_body]
fn from_millis(n: u64) -> (d: Duration)
    ensures
        d == millis_duration(n),
{
    Duration::from_millis(n)
}

/// `Duration::from_secs`: the duration of `n` whole seconds.
#[verifier::external_body]
pub(crate) fn from_secs(n: u64) -> (d: Duration)
    ensures
        d == secs_duration(n),
{
    Duration::from_secs(n)
}

#[derive(Debug, Clone, Copy, PartialEq, Eq, Structural)]
pub enum DurationUnit {
    Nanos,
    Micros,
    Millis,
    Secs,
    Minutes,
    Hours,
    Days,
}

/// The unit suffixes, tried in this order.
pub open spec fn unit_suffix(u: DurationUnit) -> Seq<char> {
    match u {
        DurationUnit::Nanos => seq!['n', 's'],
        DurationUnit::Micros => seq!['u', 's'],
        DurationUnit::Millis => seq!['m', 's'],
        DurationUnit::Secs => seq!['s'],
        DurationUnit::Minutes => seq!['m'],
        DurationUnit::Hours => seq!['h'],
        DurationUnit::Days => seq!['d'],
    }
}

/// The unit of a duration string and the text before its suffix.
pub open spec fn split_unit(s: Seq<char>) -> Option<(DurationUnit, Seq<char>)> {
    if ends_with_seq(s, unit_suffix(DurationUnit::Nanos)) {
        Some((DurationUnit::Nanos, s.take(s.len() - 2)))
    } else if ends_with_seq(s, unit_suffix(DurationUnit::Micros)) {
        Some((DurationUnit::Micros, s.take(s.len() - 2)))
    } else if ends_with_seq(s, unit_suffix(DurationUnit::Millis)) {
        Some((DurationUnit::Millis, s.take(s.len() - 2)))
    } else if ends_with_seq(s, unit_suffix(DurationUnit::Secs)) {
        Some((DurationUnit::Secs, s.take(s.len() - 1)))
    } else if ends_with_seq(s, unit_suffix(DurationUnit::Minutes)) {
        Some((DurationUnit::Minutes, s.take(s.len() - 1)))
    } else if ends_with_seq(s, unit_suffix(DurationUnit::Hours)) {
        Some((DurationUnit::Hours, s.take(s.len() - 1)))
    } else if ends_with_seq(s, unit_suffix(DurationUnit::Days)) {
        Some((DurationUnit::Days, s.take(s.len() - 1)))
    } else {
        None
    }
}

/// Seconds per unit for the units counted in whole seconds.
pub open spec fn seconds_per(u: DurationUnit) -> nat {
    match u {
        DurationUnit::Minutes => 60,
        DurationUnit::Hours => 3600,
        DurationUnit::Days => 86400,
        _ => 1,
    }
}

/// The duration of `v` units.
pub open spec fn make_duration(u: DurationUnit, v: nat) -> Duration {
    match u {
        DurationUnit::Nanos => nanos_duration(v as u64),
        DurationUnit::Micros => micros_duration(v as u64),
        DurationUnit::Millis => millis_duration(v as u64),
        _ => secs_duration((v * seconds_per(u)) as u64),
    }
}

/// The strings on which `from_str` would multiply past `u64::MAX` (minutes,
/// hours or days too large to count in seconds).
pub open spec fn duration_overflows(s: Seq<char>) -> bool {
    match split_unit(s) {
        Some((u, num)) => match parse_u64_spec(num) {
            Some(v) => v * seconds_per(u) > u64::MAX,
            None => false,
        },
        None => false,
    }
}

pub open spec fn spec_duration_from_str(s: Seq<char>) -> Result<Duration, Seq<char>> {
    match split_unit(s) {
        None => Err("Wrong duration suffix: try `ms`, `s`, `m`, `h`, `d`"@),
        Some((u, num)) => match parse_u64_spec(num) {
            None => Err("Failed to parse duration"@),
            Some(v) => Ok(make_duration(u, v)),
        },
    }
}

fn suffix_of(u: DurationUnit) -> (r: Vec<char>)
    ensures
        r@ == unit_suffix(u),
{
    let r: Vec<char> = match u {
        DurationUnit::Nanos => vec!['n', 's'],
        DurationUnit::Micros => vec!['u', 's'],
        DurationUnit::Millis => vec!['m', 's'],
        DurationUnit::Secs => vec!['s'],
        DurationUnit::Minutes => vec!['m'],
        DurationUnit::Hours => vec!['h'],
        DurationUnit::Days => vec!['d'],
    };
    assert(r@ =~= unit_suffix(u));
    r
}

fn split_unit_exec(s: &Vec<char>) -> (r: Option<(DurationUnit, Vec<char>)>)
    ensures
        match (r, split_unit(s@)) {
            (Some((u, n)), Some((u2, n2))) => u == u2 && n@ == n2,
            (None, None) => true,
            _ => false,
        },
{
    if ends_with(s, &suffix_of(DurationUnit::Nanos)) {
        Some((DurationUnit::Nanos, slice_of(s, 0, s.len() - 2)))
    } else if ends_with(s, &suffix_of(DurationUnit::Micros)) {
        Some((DurationUnit::Micros, slice_of(s, 0, s.len() - 2)))
    } else if ends_with(s, &suffix_of(DurationUnit::Millis)) {
        Some((DurationUnit::Millis, slice_of(s, 0, s.len() - 2)))
    } else if ends_with(s, &suffix_of(DurationUnit::Secs)) {
        Some((DurationUnit::Secs, slice_of(s, 0, s.len() - 1)))
    } else if ends_with(s, &suffix_of(DurationUnit::Minutes)) {
        Some((DurationUnit::Minutes, slice_of(s, 0, s.len() - 1)))
    } else if ends_with(s, &suffix_of(DurationUnit::Hours)) {
        Some((DurationUnit::Hours, slice_of(s, 0, s.len() - 1)))
    } else if ends_with(s, &suffix_of(DurationUnit::Days)) {
        Some((DurationUnit::Days, slice_of(s, 0, s.len() - 1)))
    } else {
        None
    }
}

/// Whether `from_str` would overflow on `s` (see `duration_overflows`).
pub fn overflows(s: &str) -> (r: bool)
    ensures
        r == duration_overflows(s@),
{
    let chars = chars_of(s);
    match split_unit_exec(&chars) {
        None => false,
        Some((u, num)) => match parse_uint(&num, u64::MAX) {
            None => false,
            Some(v) => {
                let per: u64 = match u {
                    DurationUnit::Minutes => 60,
                    DurationUnit::Hours => 3600,
                    DurationUnit::Days => 86400,
                    _ => 1,
                };
                v > u64::MAX / per
            },
        },
    }
}

/// Parses `"<digits><unit>"` with unit `ns`, `us`, `ms`, `s`, `m`, `h` or `d`.
pub fn from_str(s: &str) -> (r: Result<Duration, &'static str>)
    requires
        !duration_overflows(s@),
    ensures
        match (r, spec_duration_from_str(s@)) {
            (Ok(d), Ok(d2)) => d == d2,
            (Err(m), Err(m2)) => m@ == m2,
            _ => false,
        },
{
    let chars = chars_of(s);
    let (u, num) = match split_unit_exec(&chars) {
        None => {
            return Err("Wrong duration suffix: try `ms`, `s`, `m`, `h`, `d`");
        },
        Some(x) => x,
    };
    let v = match parse_uint(&num, u64::MAX) {
        None => {
            return Err("Failed to parse duration");
        },
        Some(v) => v,
    };
    match u {
        DurationUnit::Nanos => Ok(from_nanos(v)),
        DurationUnit::Micros => Ok(from_micros(v)),
        DurationUnit::Millis => Ok(from_millis(v)),
        DurationUnit::Secs => Ok(from_secs(v)),
        DurationUnit::Minutes => Ok(from_secs(v * 60)),
        DurationUnit::Hours => Ok(from_secs(v * 3600)),
        DurationUnit::Days => Ok(from_secs(v * 3600 * 24)),
    }
}

// ── The written form of a millisecond count reads back ───────────────────────

proof fn lemma_decimal_digits(n: nat)
    ensures
        all_digits(decimal(n)),
        digits_value(decimal(n)) == n,
        decimal(n).len() > 0,
    decreases n,
{
    if n < 10 {
        let d = decimal(n);
        assert(d.drop_last() =~= Seq::<char>::empty());
        assert(digits_value(d.drop_last()) == 0);
    } else {
        lemma_decimal_digits(n / 10);
        let d = decimal(n);
        assert(d.drop_last() =~= decimal(n / 10));
        assert forall|i: int| 0 <= i < d.len() implies is_ascii_digit(#[trigger] d[i]) by {
            if i < d.len() - 1 {
                assert(d[i] == decimal(n / 10)[i]);
            }
        }
    }
}

/// Reading back what the writer of durations produces: the decimal count of
/// milliseconds followed by `ms` parses to that many milliseconds.
pub proof fn law_millis_text_roundtrip(n: u64)
    ensures
        spec_duration_from_str(decimal(n as nat) + seq!['m', 's']) == Ok::<Duration, Seq<char>>(
            millis_duration(n),
        ),
{
    let d = decimal(n as nat);
    let s = d + seq!['m', 's'];
    lemma_decimal_digits(n as nat);
    assert(s.skip(s.len() - 2) =~= seq!['m', 's']);
    assert(s.take(s.len() - 2) =~= d);
    assert(!ends_with_seq(s, seq!['n', 's'])) by {
        assert(s.skip(s.len() - 2)[0] == 'm');
    }
    assert(!ends_with_seq(s, seq!['u', 's'])) by {
        assert(s.skip(s.len() - 2)[0] == 'm');
    }
    assert(is_ascii_digit(d[0]));
    assert(d[0] != '+');
    assert(parse_uint_spec(d, u64::MAX as int) == Some(n as nat));
}

} // verus!
