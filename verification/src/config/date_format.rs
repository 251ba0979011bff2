//! Date format descriptions (`[year]-[month]-[day]`) and the `RFC3339` keyword.

use vstd::prelude::*;

use crate::text::{chars_eq, chars_of};

verus! {

/// For a format description that `time::format_description::parse` accepts,
/// whether each of its items is a component (as opposed to a literal or a
/// group); `None` where the description is refused.
pub uninterp spec fn format_description_items(value: Seq<char>) -> Option<Seq<bool>>;

/// Calls `time::format_description::parse` and tells, for each item it
/// returns, whether it is `BorrowedFormatItem::Component`. Claims only that
/// the answer is a function of the description.
#[verifier::external_body]
pub(crate) fn parse_format_description(value: &str) -> (r: Option<Vec<bool>>)
    ensures
        match r {
            Some(v) => format_description_items(value@) == Some(v@),
            None => format_description_items(value@) is None,
        },
{
    match time::format_description::parse(value) {
        Ok(items) => Some(
            items.iter().map(
                |item| matches!(item, time::format_description::BorrowedFormatItem::Component(_)),
            ).collect(),
        ),
        Err(_) => None,
    }
}

/// Why a date format was rejected.
#[derive(Clone, Copy, Debug, PartialEq, Eq, Structural)]
pub enum DateFormatIssue {
    /// The description does not parse.
    Invalid,
    /// It parses but holds no date or time component.
    NoComponent,
}

/// Whether some entry is `true`.
pub open spec fn has_true(v: Seq<bool>) -> bool {
    exists|k: int| 0 <= k < v.len() && #[trigger] v[k]
}

/// The verdict on a date format, given what the description parser made of
/// it: `RFC3339` is always accepted; otherwise the description must parse
/// and hold at least one component.
pub open spec fn format_verdict(value: Seq<char>, items: Option<Seq<bool>>) -> Result<(), DateFormatIssue> {
    if value == "RFC3339"@ {
        Ok(())
    } else {
        match items {
            None => Err(DateFormatIssue::Invalid),
            Some(v) => if has_true(v) {
                Ok(())
            } else {
                Err(DateFormatIssue::NoComponent)
            },
        }
    }
}

/// Judges a date format that is not `RFC3339` from the parser's answer.
pub fn judge_format_items(items: &Option<Vec<bool>>) -> (r: Result<(), DateFormatIssue>)
    ensures
        r == (match items {
            None => Err(DateFormatIssue::Invalid),
            Some(v) => if has_true(v@) {
                Ok(())
            } else {
                Err(DateFormatIssue::NoComponent)
            },
        }),
{
    match items {
        None => Err(DateFormatIssue::Invalid),
        Some(v) => if any_true(v) {
            Ok(())
        } else {
            Err(DateFormatIssue::NoComponent)
        },
    }
}

fn any_true(v: &Vec<bool>) -> (r: bool)
    ensures
        r == has_true(v@),
{
    let n = v.len();
    for i in 0..n
        invariant
            n == v@.len(),
            forall|k: int| 0 <= k < i ==> !#[trigger] v@[k],
    {
        if v[i] {
            assert(v@[i as int]);
            return true;
        }
    }
    false
}

/// Checks a `date_format` setting: the keyword `RFC3339`, or a `time` format
/// description with at least one date or time component.
pub fn parse_format(value: &str) -> (r: Result<(), DateFormatIssue>)
    ensures
        r == format_verdict(value@, format_description_items(value@)),
{
    if chars_eq(&chars_of(value), &chars_of("RFC3339")) {
        return Ok(());
    }
    let items = parse_format_description(value);
    let r = judge_format_items(&items);
    proof {
        if let Some(v) = items {
            assert(format_description_items(value@) == Some(v@));
        }
    }
    r
}

} // verus!
