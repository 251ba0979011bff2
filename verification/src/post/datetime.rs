//! Post dates: the forms a front matter date may take, UTC offsets, and the
//! text forms a date is written in.

use vstd::prelude::*;

use crate::config::timezone::{parse_timezone, timezone_spec, TimeOffset, TimezoneIssue};
use crate::search::{utf8_len, utf8_len_capped};
use crate::text::{
    chars_eq, chars_of, extend_chars, lower_chars, lower_seq, slice_chars, string_of, trim,
    trim_chars,
};

verus! {

/// A calendar date and wall-clock time at an offset from UTC, as
/// `time::OffsetDateTime` holds it.
#[derive(Clone, Copy, Debug, PartialEq, Eq, Structural)]
pub struct DateTime {
    pub year: i32,
    pub month: u8,
    pub day: u8,
    pub hour: u8,
    pub minute: u8,
    pub second: u8,
    pub nanosecond: u32,
    pub offset: TimeOffset,
}

/// A calendar date and wall-clock time without an offset, as
/// `time::PrimitiveDateTime` holds it.
#[derive(Clone, Copy, Debug, PartialEq, Eq, Structural)]
pub struct NaiveDateTime {
    pub year: i32,
    pub month: u8,
    pub day: u8,
    pub hour: u8,
    pub minute: u8,
    pub second: u8,
    pub nanosecond: u32,
}

/// A naive date and time taken to be at `offset`
/// (`PrimitiveDateTime::assume_offset`).
pub open spec fn at_offset(n: NaiveDateTime, offset: TimeOffset) -> DateTime {
    DateTime {
        year: n.year,
        month: n.month,
        day: n.day,
        hour: n.hour,
        minute: n.minute,
        second: n.second,
        nanosecond: n.nanosecond,
        offset,
    }
}

fn assume_offset(n: NaiveDateTime, offset: TimeOffset) -> (r: DateTime)
    ensures
        r == at_offset(n, offset),
{
    DateTime {
        year: n.year,
        month: n.month,
        day: n.day,
        hour: n.hour,
        minute: n.minute,
        second: n.second,
        nanosecond: n.nanosecond,
        offset,
    }
}

/// What `time::OffsetDateTime::parse` reads from `value` with the RFC 3339
/// format.
pub uninterp spec fn rfc3339_datetime(value: Seq<char>) -> Option<DateTime>;

/// What `time::PrimitiveDateTime::parse` reads from `value` with a format
/// description (first version of `time`'s language); `None` when either
/// does not parse.
pub uninterp spec fn described_naive(value: Seq<char>, description: Seq<char>) -> Option<NaiveDateTime>;

/// What `time::UtcOffset::parse` reads from `value` with a format
/// description, as hours, minutes and seconds; `None` when either does not
/// parse.
pub uninterp spec fn described_offset(value: Seq<char>, description: Seq<char>) -> Option<TimeOffset>;

/// A date and time as `YYYY-MM-DD HH:MM:SS`, read by `time`.
pub open spec fn naive_datetime(value: Seq<char>) -> Option<NaiveDateTime> {
    described_naive(value, "[year]-[month]-[day] [hour]:[minute]:[second]"@)
}

/// An offset as `±HH:MM`, read by `time`.
pub open spec fn offset_hm_text(value: Seq<char>) -> Option<TimeOffset> {
    described_offset(value, "[offset_hour sign:mandatory]:[offset_minute]"@)
}

/// An offset as `±HH:MM:SS`, read by `time`.
pub open spec fn offset_hms_text(value: Seq<char>) -> Option<TimeOffset> {
    described_offset(value, "[offset_hour sign:mandatory]:[offset_minute]:[offset_second]"@)
}

/// Calls `time::OffsetDateTime::parse` with the RFC 3339 format and reads
/// the result back field by field. Claims only that the answer is a
/// function of the text.
#[verifier::external_body]
pub(crate) fn parse_rfc3339(value: &str) -> (r: Option<DateTime>)
    ensures
        r == rfc3339_datetime(value@),
{
    let dt = time::OffsetDateTime::parse(value, &time::format_description::well_known::Rfc3339).ok()?;
    let (hours, minutes, seconds) = dt.offset().as_hms();
    Some(DateTime {
        year: dt.year(), month: dt.month() as u8, day: dt.day(),
        hour: dt.hour(), minute: dt.minute(), second: dt.second(),
        nanosecond: dt.nanosecond(), offset: TimeOffset { hours, minutes, seconds },
    })
}

/// Calls `time::format_description::parse` on the description and
/// `time::PrimitiveDateTime::parse` with it, and reads the result back field
/// by field. Claims only that the answer is a function of the text and the
/// description.
#[verifier::external_body]
fn parse_naive(value: &str, description: &str) -> (r: Option<NaiveDateTime>)
    ensures
        r == described_naive(value@, description@),
{
    let format = time::format_description::parse(description).ok()?;
    let dt = time::PrimitiveDateTime::parse(value, &format).ok()?;
    Some(NaiveDateTime {
        year: dt.year(), month: dt.month() as u8, day: dt.day(),
        hour: dt.hour(), minute: dt.minute(), second: dt.second(), nanosecond: dt.nanosecond(),
    })
}

/// Calls `time::format_description::parse` on the description and
/// `time::UtcOffset::parse` with it, and reads the offset back with
/// `as_hms`. Claims only that the answer is a function of the text and the
/// description.
#[verifier::external_body]
fn parse_offset_described(value: &str, description: &str) -> (r: Option<TimeOffset>)
    ensures
        r == described_offset(value@, description@),
{
    let format = time::format_description::parse(description).ok()?;
    let (hours, minutes, seconds) = time::UtcOffset::parse(value, &format).ok()?.as_hms();
    Some(TimeOffset { hours, minutes, seconds })
}

/// Why an offset was refused.
#[derive(Clone, Copy, Debug, PartialEq, Eq, Structural)]
pub enum OffsetIssue {
    /// Fewer than three bytes once trimmed.
    TooShort,
    /// Neither `±HH:MM` nor `±HH:MM:SS`.
    Invalid,
}

/// Whether every character is ASCII.
pub open spec fn all_ascii(s: Seq<char>) -> bool {
    forall|k: int| 0 <= k < s.len() ==> (#[trigger] s[k] as u32) < 128
}

/// The offset text that is handed to the parser: a five-byte ASCII
/// `±HHMM` gets its colon (`±HH:MM`); anything else is used as it is.
pub open spec fn normalized_offset(t: Seq<char>) -> Seq<char> {
    if utf8_len(t) == 5 && all_ascii(t) && (t[0] == '+' || t[0] == '-') {
        t.take(3) + seq![':'] + t.skip(3)
    } else {
        t
    }
}

/// A UTC offset in `+HH:MM`, `+HHMM`, `+HH:MM:SS`, `UTC` or `Z` form.
pub open spec fn offset_spec(value: Seq<char>) -> Result<TimeOffset, OffsetIssue> {
    if lower_seq(value) == "utc"@ || lower_seq(value) == "z"@ {
        Ok(TimeOffset { hours: 0, minutes: 0, seconds: 0 })
    } else if utf8_len(trim(value)) < 3 {
        Err(OffsetIssue::TooShort)
    } else {
        let n = normalized_offset(trim(value));
        match offset_hm_text(n) {
            Some(o) => Ok(o),
            None => match offset_hms_text(n) {
                Some(o) => Ok(o),
                None => Err(OffsetIssue::Invalid),
            },
        }
    }
}

fn ascii_only(v: &Vec<char>) -> (r: bool)
    ensures
        r == all_ascii(v@),
{
    let n = v.len();
    for i in 0..n
        invariant
            n == v@.len(),
            forall|k: int| 0 <= k < i ==> (#[trigger] v@[k] as u32) < 128,
    {
        if (v[i] as u32) >= 128 {
            return false;
        }
    }
    true
}

proof fn lemma_ascii_len(s: Seq<char>)
    requires
        all_ascii(s),
    ensures
        utf8_len(s) == s.len(),
    decreases s.len(),
{
    if s.len() > 0 {
        assert(all_ascii(s.drop_last())) by {
            assert forall|k: int| 0 <= k < s.drop_last().len() implies (#[trigger] s.drop_last()[k] as u32) < 128 by {
                assert(s.drop_last()[k] == s[k]);
            }
        }
        lemma_ascii_len(s.drop_last());
        assert((s.last() as u32) < 128) by {
            assert(s[s.len() - 1] == s.last());
        }
    }
}

/// Reads a UTC offset written after a date.
pub fn parse_offset(value: &str) -> (r: Result<TimeOffset, OffsetIssue>)
    ensures
        r == offset_spec(value@),
{
    let v = chars_of(value);
    let lowered = lower_chars(&v);
    if chars_eq(&lowered, &chars_of("utc")) || chars_eq(&lowered, &chars_of("z")) {
        return Ok(TimeOffset { hours: 0, minutes: 0, seconds: 0 });
    }
    let t = trim_chars(&v);
    if utf8_len_capped(&t) < 3 {
        return Err(OffsetIssue::TooShort);
    }
    let shape = t.len() == 5 && ascii_only(&t) && (t[0] == '+' || t[0] == '-');
    proof {
        if all_ascii(t@) {
            lemma_ascii_len(t@);
        }
    }
    let normalized = if shape {
        let mut n = slice_chars(&t, 0, 3);
        n.push(':');
        extend_chars(&mut n, &slice_chars(&t, 3, 5));
        assert(t@.skip(3) =~= t@.subrange(3, 5));
        n
    } else {
        t
    };
    assert(normalized@ == normalized_offset(trim(value@)));
    let text = string_of(&normalized);
    match parse_offset_described(text.as_str(), "[offset_hour sign:mandatory]:[offset_minute]") {
        Some(o) => Ok(o),
        None => match parse_offset_described(text.as_str(), "[offset_hour sign:mandatory]:[offset_minute]:[offset_second]") {
            Some(o) => Ok(o),
            None => Err(OffsetIssue::Invalid),
        },
    }
}

/// The position of the last space in `s`, or -1.
pub open spec fn last_space(s: Seq<char>) -> int {
    crate::content::last_index_of(s, ' ')
}

/// A front matter date: RFC 3339; or `YYYY-MM-DD HH:MM:SS`, taken to be at
/// `default_offset`; or that followed by a space and a UTC offset.
pub open spec fn datetime_spec(value: Seq<char>, default_offset: TimeOffset) -> Option<DateTime> {
    match rfc3339_datetime(value) {
        Some(dt) => Some(dt),
        None => match naive_datetime(value) {
            Some(n) => Some(at_offset(n, default_offset)),
            None => {
                let k = last_space(value);
                if k < 0 {
                    None
                } else {
                    match naive_datetime(value.take(k)) {
                        None => None,
                        Some(n) => match offset_spec(value.skip(k + 1)) {
                            Ok(o) => Some(at_offset(n, o)),
                            Err(_) => None,
                        },
                    }
                }
            },
        },
    }
}

fn parse_datetime_at(value: &str, default_offset: TimeOffset) -> (r: Option<DateTime>)
    ensures
        r == datetime_spec(value@, default_offset),
{
    if let Some(dt) = parse_rfc3339(value) {
        return Some(dt);
    }
    if let Some(n) = parse_naive(value, "[year]-[month]-[day] [hour]:[minute]:[second]") {
        return Some(assume_offset(n, default_offset));
    }
    let v = chars_of(value);
    let k = match crate::content::last_index_of_chars(&v, ' ') {
        Some(k) => k,
        None => return None,
    };
    let main = string_of(&slice_chars(&v, 0, k));
    let len = v.len();
    let rest = string_of(&slice_chars(&v, k + 1, len));
    assert(v@.subrange(0, k as int) =~= value@.take(k as int));
    assert(v@.subrange(k + 1, len as int) =~= value@.skip(k + 1));
    match parse_naive(main.as_str(), "[year]-[month]-[day] [hour]:[minute]:[second]") {
        None => None,
        Some(n) => match parse_offset(rest.as_str()) {
            Ok(o) => Some(assume_offset(n, o)),
            Err(_) => None,
        },
    }
}

/// Reads a front matter date: RFC 3339, `YYYY-MM-DD HH:MM:SS` (taken as
/// UTC), or that followed by a UTC offset.
pub fn parse_datetime(value: &str) -> (r: Option<DateTime>)
    ensures
        r == datetime_spec(value@, TimeOffset { hours: 0, minutes: 0, seconds: 0 }),
{
    parse_datetime_at(value, TimeOffset { hours: 0, minutes: 0, seconds: 0 })
}

/// Why a post's date was refused.
#[derive(Clone, Copy, Debug, PartialEq, Eq, Structural)]
pub enum PostDateIssue {
    /// The date is naive and the configured timezone does not read.
    BadTimezone,
    /// The date is in none of the accepted forms.
    Unrecognized,
}

/// A post's date: as `datetime_spec`, with naive dates taken to be at the
/// configured default timezone (which must then read).
pub open spec fn post_date_spec(value: Seq<char>, default_timezone: Seq<char>) -> Result<DateTime, PostDateIssue> {
    match rfc3339_datetime(value) {
        Some(dt) => Ok(dt),
        None => match naive_datetime(value) {
            Some(n) => match timezone_spec(default_timezone) {
                Ok((h, m, s)) => Ok(at_offset(n, TimeOffset { hours: h as i8, minutes: m as i8, seconds: s as i8 })),
                Err(_) => Err(PostDateIssue::BadTimezone),
            },
            None => match datetime_spec(value, TimeOffset { hours: 0, minutes: 0, seconds: 0 }) {
                Some(dt) => Ok(dt),
                None => Err(PostDateIssue::Unrecognized),
            },
        },
    }
}

proof fn lemma_last_index_of(s: Seq<char>, c: char, k: int)
    requires
        -1 <= k < s.len(),
        k >= 0 ==> s[k] == c,
        forall|j: int| k < j < s.len() ==> s[j] != c,
    ensures
        crate::content::last_index_of(s, c) == k,
    decreases s.len(),
{
    if s.len() > 0 {
        if s.last() != c {
            assert forall|j: int| k < j < s.drop_last().len() implies s.drop_last()[j] != c by {
                assert(s.drop_last()[j] == s[j]);
            }
            if k >= 0 {
                assert(s.drop_last()[k] == s[k]);
            }
            lemma_last_index_of(s.drop_last(), c, k);
        }
    }
}

/// The forms a post's date is read in. An RFC 3339 date is taken as it is.
/// Otherwise `YYYY-MM-DD HH:MM:SS` is taken at the configured timezone, and
/// refused when that does not read. Otherwise, split at the last space, such
/// a date followed by a UTC offset is taken at that offset. A date in none of
/// these forms is refused as unrecognized.
pub proof fn post_dates_read_in_each_form(
    value: Seq<char>,
    default_timezone: Seq<char>,
    k: int,
    n: NaiveDateTime,
    o: TimeOffset,
)
    ensures
        rfc3339_datetime(value) matches Some(dt) ==> post_date_spec(value, default_timezone) == Ok::<
            DateTime,
            PostDateIssue,
        >(dt),
        rfc3339_datetime(value) is None && naive_datetime(value) == Some(n) ==> (match timezone_spec(
            default_timezone,
        ) {
            Ok((h, m, s)) => post_date_spec(value, default_timezone) == Ok::<DateTime, PostDateIssue>(
                at_offset(n, TimeOffset { hours: h as i8, minutes: m as i8, seconds: s as i8 }),
            ),
            Err(_) => post_date_spec(value, default_timezone) == Err::<DateTime, PostDateIssue>(
                PostDateIssue::BadTimezone,
            ),
        }),
        ({
            &&& rfc3339_datetime(value) is None
            &&& naive_datetime(value) is None
            &&& 0 <= k < value.len()
            &&& value[k] == ' '
            &&& forall|j: int| k < j < value.len() ==> value[j] != ' '
            &&& naive_datetime(value.take(k)) == Some(n)
            &&& offset_spec(value.skip(k + 1)) == Ok::<TimeOffset, OffsetIssue>(o)
        }) ==> post_date_spec(value, default_timezone) == Ok::<DateTime, PostDateIssue>(at_offset(n, o)),
        ({
            &&& 0 <= k < value.len()
            &&& value[k] == ' '
            &&& forall|j: int| k < j < value.len() ==> value[j] != ' '
            &&& post_date_spec(value, default_timezone) == Err::<DateTime, PostDateIssue>(PostDateIssue::Unrecognized)
        }) ==> !(naive_datetime(value.take(k)) is Some && offset_spec(value.skip(k + 1)) is Ok),
        ({
            &&& rfc3339_datetime(value) is None
            &&& naive_datetime(value) is None
            &&& forall|j: int| 0 <= j < value.len() ==> value[j] != ' '
        }) ==> post_date_spec(value, default_timezone) == Err::<DateTime, PostDateIssue>(PostDateIssue::Unrecognized),
{
    if 0 <= k < value.len() && value[k] == ' ' && (forall|j: int| k < j < value.len() ==> value[j] != ' ') {
        lemma_last_index_of(value, ' ', k);
    }
    if forall|j: int| 0 <= j < value.len() ==> value[j] != ' ' {
        lemma_last_index_of(value, ' ', -1);
    }
}

/// Reads the date of a post, with naive dates at the configured timezone.
pub fn parse_post_date(value: &str, default_timezone: &str) -> (r: Result<DateTime, PostDateIssue>)
    ensures
        r == post_date_spec(value@, default_timezone@),
{
    if let Some(dt) = parse_rfc3339(value) {
        return Ok(dt);
    }
    if let Some(n) = parse_naive(value, "[year]-[month]-[day] [hour]:[minute]:[second]") {
        return match parse_timezone(default_timezone) {
            Ok(o) => Ok(assume_offset(n, o)),
            Err(_) => Err(PostDateIssue::BadTimezone),
        };
    }
    match parse_datetime_at(value, TimeOffset { hours: 0, minutes: 0, seconds: 0 }) {
        Some(dt) => Ok(dt),
        None => Err(PostDateIssue::Unrecognized),
    }
}

/// The RFC 3339 text `time` writes for a date, or `None` where the parts
/// do not make a date `time` accepts.
pub uninterp spec fn rfc3339_text(dt: DateTime) -> Option<Seq<char>>;

/// The `[year repr:last_two][month][day]` text `time` writes for a date
/// (six digits such as `240506`), or `None` where it cannot write it.
pub open spec fn date_prefix_text(dt: DateTime) -> Option<Seq<char>> {
    match described_date_v1(dt, "[year repr:last_two][month][day]"@) {
        Ok(t) => Some(t),
        Err(_) => None,
    }
}

/// Calls `time::OffsetDateTime::format` with the RFC 3339 format, on the
/// date built from `dt`'s parts (`Date::from_calendar_date`,
/// `Time::from_hms_nano`, `UtcOffset::from_hms`). Claims only that the
/// answer is a function of the parts.
#[verifier::external_body]
pub fn format_rfc3339(dt: &DateTime) -> (r: Option<String>)
    ensures
        crate::text::opt_view(r) == rfc3339_text(*dt),
{
    let month = time::Month::try_from(dt.month).ok()?;
    let date = time::Date::from_calendar_date(dt.year, month, dt.day).ok()?;
    let clock = time::Time::from_hms_nano(dt.hour, dt.minute, dt.second, dt.nanosecond).ok()?;
    let offset = time::UtcOffset::from_hms(dt.offset.hours, dt.offset.minutes, dt.offset.seconds).ok()?;
    let built = time::PrimitiveDateTime::new(date, clock).assume_offset(offset);
    built.format(&time::format_description::well_known::Rfc3339).ok()
}

/// The RFC 2822 text `time` writes for a date, or `None` where the parts
/// do not make a date `time` accepts or `time` cannot write it in that form.
pub uninterp spec fn rfc2822_text(dt: DateTime) -> Option<Seq<char>>;

/// Calls `time::OffsetDateTime::format` with the RFC 2822 format, on the
/// date built from `dt`'s parts as `format_rfc3339` builds it. Claims only
/// that the answer is a function of the parts.
#[verifier::external_body]
pub(crate) fn format_rfc2822(dt: &DateTime) -> (r: Option<String>)
    ensures
        crate::text::opt_view(r) == rfc2822_text(*dt),
{
    let month = time::Month::try_from(dt.month).ok()?;
    let date = time::Date::from_calendar_date(dt.year, month, dt.day).ok()?;
    let clock = time::Time::from_hms_nano(dt.hour, dt.minute, dt.second, dt.nanosecond).ok()?;
    let offset = time::UtcOffset::from_hms(dt.offset.hours, dt.offset.minutes, dt.offset.seconds).ok()?;
    let built = time::PrimitiveDateTime::new(date, clock).assume_offset(offset);
    built.format(&time::format_description::well_known::Rfc2822).ok()
}

/// The date prefix of a post directory: the date written as
/// `[year repr:last_two][month][day]`.
pub fn date_prefix(dt: &DateTime) -> (r: Option<String>)
    ensures
        crate::text::opt_view(r) == date_prefix_text(*dt),
{
    match format_described_v1(dt, "[year repr:last_two][month][day]") {
        Ok(t) => Some(t),
        Err(_) => None,
    }
}

/// What `time` writes for a date with a format description in the
/// description language's second version: `Err(true)` when the description
/// does not parse, `Err(false)` when the date cannot be written with it (or
/// its parts make no date `time` accepts).
pub uninterp spec fn described_date(dt: DateTime, description: Seq<char>) -> Result<Seq<char>, bool>;

/// Calls `time::format_description::parse_owned::<2>` on the description
/// and `OffsetDateTime::format` with the items on the date built from `dt`'s
/// parts. Claims only that the answer is a function of the parts and the
/// description, and that `Err(true)` stands for a refused description.
#[verifier::external_body]
pub(crate) fn format_described(dt: &DateTime, description: &str) -> (r: Result<String, bool>)
    ensures
        match r {
            Ok(t) => described_date(*dt, description@) == Ok::<Seq<char>, bool>(t@),
            Err(refused) => described_date(*dt, description@) == Err::<Seq<char>, bool>(refused),
        },
{
    let items = time::format_description::parse_owned::<2>(description).or(Err(true))?;
    let month = time::Month::try_from(dt.month).or(Err(false))?;
    let date = time::Date::from_calendar_date(dt.year, month, dt.day).or(Err(false))?;
    let clock = time::Time::from_hms_nano(dt.hour, dt.minute, dt.second, dt.nanosecond).or(Err(false))?;
    let offset = time::UtcOffset::from_hms(dt.offset.hours, dt.offset.minutes, dt.offset.seconds).or(Err(false))?;
    time::PrimitiveDateTime::new(date, clock).assume_offset(offset).format(&items).or(Err(false))
}

/// What `time` writes for a date with a format description in the first
/// version of its language: `Err(true)` when the description does not parse,
/// `Err(false)` when the date cannot be written with it (or its parts make
/// no date `time` accepts).
pub uninterp spec fn described_date_v1(dt: DateTime, description: Seq<char>) -> Result<Seq<char>, bool>;

/// Calls `time::format_description::parse` on the description and
/// `OffsetDateTime::format` with the items on the date built from `dt`'s
/// parts. Claims only that the answer is a function of the parts and the
/// description, and that `Err(true)` stands for a refused description.
#[verifier::external_body]
pub(crate) fn format_described_v1(dt: &DateTime, description: &str) -> (r: Result<String, bool>)
    ensures
        match r {
            Ok(t) => described_date_v1(*dt, description@) == Ok::<Seq<char>, bool>(t@),
            Err(refused) => described_date_v1(*dt, description@) == Err::<Seq<char>, bool>(refused),
        },
{
    let items = time::format_description::parse(description).or(Err(true))?;
    let month = time::Month::try_from(dt.month).or(Err(false))?;
    let date = time::Date::from_calendar_date(dt.year, month, dt.day).or(Err(false))?;
    let clock = time::Time::from_hms_nano(dt.hour, dt.minute, dt.second, dt.nanosecond).or(Err(false))?;
    let offset = time::UtcOffset::from_hms(dt.offset.hours, dt.offset.minutes, dt.offset.seconds).or(Err(false))?;
    time::PrimitiveDateTime::new(date, clock).assume_offset(offset).format(&items).or(Err(false))
}

/// Why a post's display date could not be written.
#[derive(Clone, Copy, Debug, PartialEq, Eq, Structural)]
pub enum DisplayDateIssue {
    /// The configured format is not a valid format description.
    InvalidFormat,
    /// The date cannot be written with the configured format.
    Unformattable,
    /// The date cannot be written in RFC 3339.
    Rfc3339Failed,
}

/// A post's display date: RFC 3339 when the configured format is `RFC3339`
/// in any ASCII case, else the date written with the configured format
/// description.
pub open spec fn display_date_spec(date_format: Seq<char>, dt: DateTime) -> Result<Seq<char>, DisplayDateIssue> {
    if lower_seq(date_format) == "rfc3339"@ {
        match rfc3339_text(dt) {
            Some(t) => Ok(t),
            None => Err(DisplayDateIssue::Rfc3339Failed),
        }
    } else {
        match described_date(dt, date_format) {
            Ok(t) => Ok(t),
            Err(refused) => Err(if refused { DisplayDateIssue::InvalidFormat } else { DisplayDateIssue::Unformattable }),
        }
    }
}

/// Writes a post's date in the configured display format.
pub fn format_display_date(date_format: &str, dt: &DateTime) -> (r: Result<String, DisplayDateIssue>)
    ensures
        match r {
            Ok(t) => display_date_spec(date_format@, *dt) == Ok::<Seq<char>, DisplayDateIssue>(t@),
            Err(e) => display_date_spec(date_format@, *dt) == Err::<Seq<char>, DisplayDateIssue>(e),
        },
{
    let lowered = lower_chars(&chars_of(date_format));
    proof {
        reveal_strlit("rfc3339");
    }
    if chars_eq(&lowered, &chars_of("rfc3339")) {
        return match format_rfc3339(dt) {
            Some(t) => Ok(t),
            None => Err(DisplayDateIssue::Rfc3339Failed),
        };
    }
    match format_described(dt, date_format) {
        Ok(t) => Ok(t),
        Err(refused) => Err(if refused { DisplayDateIssue::InvalidFormat } else { DisplayDateIssue::Unformattable }),
    }
}

/// The message for a display date that could not be written.
pub open spec fn date_format_message(issue: DisplayDateIssue, date_format: Seq<char>) -> Seq<char> {
    match issue {
        DisplayDateIssue::InvalidFormat => "invalid date_format '"@ + date_format + "'"@,
        DisplayDateIssue::Unformattable => "failed to format date with pattern '"@ + date_format + "'"@,
        DisplayDateIssue::Rfc3339Failed => "failed to format RFC3339 date"@,
    }
}

impl DisplayDateIssue {
    /// The message shown when a display date could not be written with
    /// `date_format`.
    pub fn message(&self, date_format: &str) -> (r: String)
        ensures
            r@ == date_format_message(*self, date_format@),
    {
        let mut out: Vec<char> = Vec::new();
        match self {
            DisplayDateIssue::InvalidFormat => {
                crate::text::extend_str(&mut out, "invalid date_format '");
                crate::text::extend_str(&mut out, date_format);
                crate::text::extend_str(&mut out, "'");
            },
            DisplayDateIssue::Unformattable => {
                crate::text::extend_str(&mut out, "failed to format date with pattern '");
                crate::text::extend_str(&mut out, date_format);
                crate::text::extend_str(&mut out, "'");
            },
            DisplayDateIssue::Rfc3339Failed => {
                crate::text::extend_str(&mut out, "failed to format RFC3339 date");
            },
        }
        string_of(&out)
    }
}

} // verus!
