//! UTC offsets written as `+HH:MM[:SS]`, `UTC` or `Z`.

use vstd::prelude::*;

use crate::text::{
    chars_eq, chars_of, lower_chars, lower_seq, parse_int, parse_int_spec, slice_chars,
    split_chars, split_on, trim, trim_chars, views,
};

verus! {

/// An offset from UTC, as the three signed parts `time::UtcOffset` keeps.
#[derive(Clone, Copy, Debug, PartialEq, Eq, Structural)]
pub struct TimeOffset {
    pub hours: i8,
    pub minutes: i8,
    pub seconds: i8,
}

impl TimeOffset {
    /// The whole hours of the offset (negative west of UTC).
    pub fn whole_hours(&self) -> (r: i8)
        ensures
            r == self.hours,
    {
        self.hours
    }
}

/// The parts `time::UtcOffset::from_hms` keeps: the hours as given, the
/// minutes with their sign flipped where it disagrees with the hours, and
/// the seconds with their sign flipped where it disagrees with the hours or
/// the (already corrected) minutes.
pub open spec fn normalized_hms(h: int, m: int, s: int) -> (int, int, int) {
    let m1 = if (h > 0 && m < 0) || (h < 0 && m > 0) { -m } else { m };
    let s1 = if (h > 0 && s < 0) || (h < 0 && s > 0) || (m1 > 0 && s < 0) || (m1 < 0 && s > 0) {
        -s
    } else {
        s
    };
    (h, m1, s1)
}

/// The ranges `time::UtcOffset::from_hms` accepts.
pub open spec fn hms_in_range(h: int, m: int, s: int) -> bool {
    -25 <= h <= 25 && -59 <= m <= 59 && -59 <= s <= 59
}

/// Calls `time::UtcOffset::from_hms` and reads the offset back with
/// `UtcOffset::as_hms`. Per the crate's source, the call fails exactly when a
/// part is out of its range (hours within ±25, minutes and seconds within
/// ±59), and otherwise keeps the hours and flips the sign of a smaller part
/// that disagrees with a larger one.
#[verifier::external_body]
fn utc_offset_from_hms(hours: i8, minutes: i8, seconds: i8) -> (r: Option<(i8, i8, i8)>)
    ensures
        r is Some <==> hms_in_range(hours as int, minutes as int, seconds as int),
        r matches Some(t) ==> (t.0 as int, t.1 as int, t.2 as int) == normalized_hms(
            hours as int,
            minutes as int,
            seconds as int,
        ),
{
    match time::UtcOffset::from_hms(hours, minutes, seconds) {
        Ok(offset) => Some(offset.as_hms()),
        Err(_) => None,
    }
}

/// Why a timezone string was rejected.
#[derive(Clone, Copy, Debug, PartialEq, Eq, Structural)]
pub enum TimezoneIssue {
    Empty,
    BadSign,
    TooManyComponents,
    InvalidHour,
    InvalidMinute,
    InvalidSecond,
    OutOfRange,
}

/// One `:`-separated part read as an `i8`; a missing part reads as zero.
pub open spec fn offset_part(parts: Seq<Seq<char>>, k: int) -> Option<int> {
    if k < parts.len() {
        parse_int_spec(parts[k], -128, 127)
    } else {
        Some(0)
    }
}

/// What `parse_timezone` gives for `v`: `UTC` and `Z` (in any case) are the
/// zero offset; otherwise, after trimming, a `+` or `-` and up to three
/// `:`-separated integer parts (hours, then minutes and seconds, which
/// default to zero), each negated for `-`, and in range.
pub open spec fn timezone_spec(v: Seq<char>) -> Result<(int, int, int), TimezoneIssue> {
    if lower_seq(v) == "utc"@ || lower_seq(v) == "z"@ {
        Ok((0, 0, 0))
    } else {
        let t = trim(v);
        if t.len() == 0 {
            Err(TimezoneIssue::Empty)
        } else if t[0] != '+' && t[0] != '-' {
            Err(TimezoneIssue::BadSign)
        } else {
            let sign: int = if t[0] == '+' { 1 } else { -1 };
            let parts = split_on(t.drop_first(), ':');
            if parts.len() > 3 {
                Err(TimezoneIssue::TooManyComponents)
            } else if offset_part(parts, 0) is None {
                Err(TimezoneIssue::InvalidHour)
            } else if offset_part(parts, 1) is None {
                Err(TimezoneIssue::InvalidMinute)
            } else if offset_part(parts, 2) is None {
                Err(TimezoneIssue::InvalidSecond)
            } else {
                let h = sign * offset_part(parts, 0)->0;
                let m = sign * offset_part(parts, 1)->0;
                let s = sign * offset_part(parts, 2)->0;
                if hms_in_range(h, m, s) {
                    Ok(normalized_hms(h, m, s))
                } else {
                    Err(TimezoneIssue::OutOfRange)
                }
            }
        }
    }
}

fn part_value(parts: &Vec<Vec<char>>, k: usize) -> (r: Option<i64>)
    ensures
        match r {
            Some(x) => offset_part(views(parts@), k as int) == Some(x as int),
            None => offset_part(views(parts@), k as int) is None,
        },
{
    if k < parts.len() {
        assert(views(parts@)[k as int] == parts@[k as int]@);
        parse_int(&parts[k], -128, 127)
    } else {
        Some(0)
    }
}

/// Reads a UTC offset such as `+05:30`, `-08:00`, `UTC` or `Z`.
pub fn parse_timezone(value: &str) -> (r: Result<TimeOffset, TimezoneIssue>)
    ensures
        match r {
            Ok(o) => timezone_spec(value@) == Ok::<(int, int, int), TimezoneIssue>(
                (o.hours as int, o.minutes as int, o.seconds as int),
            ),
            Err(e) => timezone_spec(value@) == Err::<(int, int, int), TimezoneIssue>(e),
        },
{
    let v = chars_of(value);
    let lowered = lower_chars(&v);
    if chars_eq(&lowered, &chars_of("utc")) || chars_eq(&lowered, &chars_of("z")) {
        return Ok(TimeOffset { hours: 0, minutes: 0, seconds: 0 });
    }
    let t = trim_chars(&v);
    if t.len() == 0 {
        return Err(TimezoneIssue::Empty);
    }
    let first = t[0];
    if first != '+' && first != '-' {
        return Err(TimezoneIssue::BadSign);
    }
    let sign: i64 = if first == '+' { 1 } else { -1 };
    let rest = slice_chars(&t, 1, t.len());
    assert(rest@ =~= t@.drop_first());
    let parts = split_chars(&rest, ':');
    if parts.len() > 3 {
        return Err(TimezoneIssue::TooManyComponents);
    }
    let h = match part_value(&parts, 0) {
        Some(x) => x,
        None => return Err(TimezoneIssue::InvalidHour),
    };
    let m = match part_value(&parts, 1) {
        Some(x) => x,
        None => return Err(TimezoneIssue::InvalidMinute),
    };
    let s = match part_value(&parts, 2) {
        Some(x) => x,
        None => return Err(TimezoneIssue::InvalidSecond),
    };
    let sh = sign * h;
    let sm = sign * m;
    let ss = sign * s;
    if sh < -128 || sh > 127 || sm < -128 || sm > 127 || ss < -128 || ss > 127 {
        return Err(TimezoneIssue::OutOfRange);
    }
    match utc_offset_from_hms(sh as i8, sm as i8, ss as i8) {
        Some((oh, om, os)) => Ok(TimeOffset { hours: oh, minutes: om, seconds: os }),
        None => Err(TimezoneIssue::OutOfRange),
    }
}

} // verus!
