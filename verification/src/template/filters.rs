//! The `format_date` template filter: an RFC 3339 date written with a
//! strftime-style pattern.

use vstd::prelude::*;

use crate::post::datetime::{described_date, format_described, parse_rfc3339, rfc3339_datetime};
use crate::template::strftime::{item_views, translate_strftime, translate_strftime_spec, FormatItem, Item, PatternError};
use crate::text::{chars_of, extend_str, string_of, trim, trim_chars};

verus! {

/// A literal character as a format description writes it: `\`, `[` and `]`
/// escaped with a backslash.
pub open spec fn escaped_char(c: char) -> Seq<char> {
    if c == '\\' || c == '[' || c == ']' {
        seq!['\\', c]
    } else {
        seq![c]
    }
}

/// Literal text as a format description writes it.
pub open spec fn escaped(s: Seq<char>) -> Seq<char>
    decreases s.len(),
{
    if s.len() == 0 {
        Seq::<char>::empty()
    } else {
        escaped(s.drop_last()) + escaped_char(s.last())
    }
}

/// The format description (second version of `time`'s language) of one
/// item.
pub open spec fn item_description(item: Item) -> Seq<char> {
    match item {
        Item::Literal(s) => escaped(s),
        Item::Year => "[year]"@,
        Item::YearLastTwo => "[year repr:last_two]"@,
        Item::Month => "[month]"@,
        Item::MonthShort => "[month repr:short]"@,
        Item::MonthLong => "[month repr:long]"@,
        Item::Day => "[day]"@,
        Item::Hour => "[hour]"@,
        Item::Hour12 => "[hour repr:12]"@,
        Item::Minute => "[minute]"@,
        Item::Second => "[second]"@,
        Item::WeekdayShort => "[weekday repr:short]"@,
        Item::WeekdayLong => "[weekday repr:long]"@,
        Item::PeriodUpper => "[period case:upper]"@,
        Item::PeriodLower => "[period case:lower]"@,
        Item::OffsetHourSigned => "[offset_hour sign:mandatory]"@,
        Item::OffsetMinute => "[offset_minute]"@,
    }
}

/// The format description of a list of items, in order.
pub open spec fn items_description(items: Seq<Item>) -> Seq<char>
    decreases items.len(),
{
    if items.len() == 0 {
        Seq::<char>::empty()
    } else {
        items_description(items.drop_last()) + item_description(items.last())
    }
}

fn push_escaped(out: &mut Vec<char>, s: &Vec<char>)
    ensures
        final(out)@ == old(out)@ + escaped(s@),
{
    let n = s.len();
    for i in 0..n
        invariant
            n == s@.len(),
            out@ == old(out)@ + escaped(s@.take(i as int)),
    {
        let c = s[i];
        if c == '\\' || c == '[' || c == ']' {
            out.push('\\');
        }
        out.push(c);
        assert(s@.take(i + 1).drop_last() =~= s@.take(i as int));
        assert(out@ =~= old(out)@ + escaped(s@.take(i + 1)));
    }
    assert(s@.take(n as int) =~= s@);
}

fn push_description(out: &mut Vec<char>, item: &FormatItem)
    ensures
        final(out)@ == old(out)@ + item_description(item@),
{
    match item {
        FormatItem::Literal(s) => push_escaped(out, s),
        FormatItem::Year => extend_str(out, "[year]"),
        FormatItem::YearLastTwo => extend_str(out, "[year repr:last_two]"),
        FormatItem::Month => extend_str(out, "[month]"),
        FormatItem::MonthShort => extend_str(out, "[month repr:short]"),
        FormatItem::MonthLong => extend_str(out, "[month repr:long]"),
        FormatItem::Day => extend_str(out, "[day]"),
        FormatItem::Hour => extend_str(out, "[hour]"),
        FormatItem::Hour12 => extend_str(out, "[hour repr:12]"),
        FormatItem::Minute => extend_str(out, "[minute]"),
        FormatItem::Second => extend_str(out, "[second]"),
        FormatItem::WeekdayShort => extend_str(out, "[weekday repr:short]"),
        FormatItem::WeekdayLong => extend_str(out, "[weekday repr:long]"),
        FormatItem::PeriodUpper => extend_str(out, "[period case:upper]"),
        FormatItem::PeriodLower => extend_str(out, "[period case:lower]"),
        FormatItem::OffsetHourSigned => extend_str(out, "[offset_hour sign:mandatory]"),
        FormatItem::OffsetMinute => extend_str(out, "[offset_minute]"),
    }
}

/// The format description of translated pattern items.
pub fn describe_items(items: &Vec<FormatItem>) -> (r: String)
    ensures
        r@ == items_description(item_views(items@)),
{
    let mut out: Vec<char> = Vec::new();
    let n = items.len();
    for i in 0..n
        invariant
            n == items@.len(),
            out@ == items_description(item_views(items@).take(i as int)),
    {
        push_description(&mut out, &items[i]);
        assert(item_views(items@).take(i + 1).drop_last() =~= item_views(items@).take(i as int));
    }
    assert(item_views(items@).take(n as int) =~= item_views(items@));
    string_of(&out)
}

/// Why the `format_date` filter refused its input.
#[derive(Clone, Copy, Debug, PartialEq, Eq, Structural)]
pub enum DateFilterIssue {
    /// The value is not an RFC 3339 date.
    NotRfc3339,
    /// The pattern does not translate.
    Pattern(PatternError),
    /// The date cannot be written with the pattern.
    Unformattable,
}

/// What the filter makes of a value and a pattern: nothing for a blank
/// value; else the value read as an RFC 3339 date and written with the
/// pattern's items.
pub open spec fn format_date_spec(raw: Seq<char>, pattern: Seq<char>) -> Result<Seq<char>, DateFilterIssue> {
    if trim(raw).len() == 0 {
        Ok(Seq::<char>::empty())
    } else {
        match rfc3339_datetime(raw) {
            None => Err(DateFilterIssue::NotRfc3339),
            Some(dt) => match translate_strftime_spec(pattern) {
                Err(e) => Err(DateFilterIssue::Pattern(e)),
                Ok(items) => match described_date(dt, items_description(items)) {
                    Ok(t) => Ok(t),
                    Err(_) => Err(DateFilterIssue::Unformattable),
                },
            },
        }
    }
}

/// Writes an RFC 3339 date with a strftime-style pattern.
pub fn format_date_text(raw: &str, pattern: &str) -> (r: Result<String, DateFilterIssue>)
    ensures
        match r {
            Ok(t) => format_date_spec(raw@, pattern@) == Ok::<Seq<char>, DateFilterIssue>(t@),
            Err(e) => format_date_spec(raw@, pattern@) == Err::<Seq<char>, DateFilterIssue>(e),
        },
{
    if trim_chars(&chars_of(raw)).len() == 0 {
        return Ok(String::new());
    }
    let dt = match parse_rfc3339(raw) {
        Some(dt) => dt,
        None => return Err(DateFilterIssue::NotRfc3339),
    };
    let items = match translate_strftime(pattern) {
        Ok(items) => items,
        Err(e) => return Err(DateFilterIssue::Pattern(e)),
    };
    let description = describe_items(&items);
    match format_described(&dt, description.as_str()) {
        Ok(t) => Ok(t),
        Err(_) => Err(DateFilterIssue::Unformattable),
    }
}

/// For every value, the filter writes `%F`, `%T` and `%R` exactly as it
/// writes `%Y-%m-%d`, `%H:%M:%S` and `%H:%M`; `%%` writes a `%`, and text
/// without `%` is written as it is.
pub proof fn format_date_composites(raw: Seq<char>, plain: Seq<char>)
    requires
        !plain.contains('%'),
    ensures
        format_date_spec(raw, "%F"@) == format_date_spec(raw, "%Y-%m-%d"@),
        format_date_spec(raw, "%T"@) == format_date_spec(raw, "%H:%M:%S"@),
        format_date_spec(raw, "%R"@) == format_date_spec(raw, "%H:%M"@),
        translate_strftime_spec("%%"@) == Ok::<Seq<Item>, PatternError>(seq![Item::Literal(seq!['%'])]),
        translate_strftime_spec(plain) == Ok::<Seq<Item>, PatternError>(crate::template::strftime::flush(plain)),
{
    crate::template::strftime::strftime_composites_expand();
    crate::template::strftime::strftime_copies_plain_text(plain);
}

} // verus!
