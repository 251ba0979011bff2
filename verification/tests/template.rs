use bckt::template::strftime::{translate_strftime, FormatItem, PatternError};
use bckt::template::tid::atproto_tid;
use bckt::template::filters::{format_date_text, DateFilterIssue};

#[test]
fn tid_is_thirteen_sortable_base32_chars() {
    let out = atproto_tid("2026-07-20T09:30:00Z", "some-post").unwrap();
    assert_eq!(out.len(), 13);
    assert!(out
        .bytes()
        .all(|b| b"234567abcdefghijklmnopqrstuvwxyz".contains(&b)));
    assert!(b"234567abcdefghijklmno".contains(&out.as_bytes()[0]));
}

#[test]
fn tid_is_frozen() {
    assert_eq!(
        atproto_tid("2026-07-20T09:30:00Z", "some-post").unwrap(),
        "3mr2yahvpk2ih"
    );
}

#[test]
fn tid_is_stable_across_calls() {
    let a = atproto_tid("2026-07-20T09:30:00Z", "hello-world").unwrap();
    let b = atproto_tid("2026-07-20T09:30:00Z", "hello-world").unwrap();
    assert_eq!(a, b);
}

#[test]
fn tid_varies_with_slug_and_date() {
    let base = atproto_tid("2026-07-20T09:30:00Z", "a").unwrap();
    assert_ne!(base, atproto_tid("2026-07-20T09:30:00Z", "b").unwrap());
    assert_ne!(base, atproto_tid("2026-07-20T09:30:01Z", "a").unwrap());
}

#[test]
fn tid_rejects_non_rfc3339_date() {
    assert!(atproto_tid("20 July 2026", "x").is_err());
}

#[test]
fn tid_error_names_the_date() {
    let error = atproto_tid("soon", "x").unwrap_err();
    let reason = time::OffsetDateTime::parse("soon", &time::format_description::well_known::Rfc3339)
        .unwrap_err()
        .to_string();
    assert!(!reason.is_empty());
    assert_eq!(error.reason, reason);
    assert_eq!(
        error.message(),
        format!("atproto_tid(): first argument must be an RFC3339 date (e.g. post.date_iso); got 'soon': {reason}")
    );
}

#[test]
fn tid_keeps_date_order() {
    let earlier = atproto_tid("2026-07-20T09:30:00Z", "zzz").unwrap();
    let later = atproto_tid("2026-07-20T09:30:01Z", "aaa").unwrap();
    assert!(earlier < later);
    let before_epoch = atproto_tid("1960-01-01T00:00:00Z", "x").unwrap();
    assert_eq!(before_epoch.len(), 13);
}

fn lit(s: &str) -> FormatItem {
    FormatItem::Literal(s.chars().collect())
}

#[test]
fn strftime_translates_common_tokens() {
    assert_eq!(
        translate_strftime("%Y-%m-%d").unwrap(),
        vec![FormatItem::Year, lit("-"), FormatItem::Month, lit("-"), FormatItem::Day]
    );
    assert_eq!(
        translate_strftime("on %b %d, %y at %I:%M %p").unwrap(),
        vec![
            lit("on "),
            FormatItem::MonthShort,
            lit(" "),
            FormatItem::Day,
            lit(", "),
            FormatItem::YearLastTwo,
            lit(" at "),
            FormatItem::Hour12,
            lit(":"),
            FormatItem::Minute,
            lit(" "),
            FormatItem::PeriodUpper,
        ]
    );
}

#[test]
fn strftime_expands_composite_directives() {
    assert_eq!(
        translate_strftime("%F").unwrap(),
        vec![FormatItem::Year, lit("-"), FormatItem::Month, lit("-"), FormatItem::Day]
    );
    assert_eq!(
        translate_strftime("%T").unwrap(),
        vec![FormatItem::Hour, lit(":"), FormatItem::Minute, lit(":"), FormatItem::Second]
    );
    assert_eq!(
        translate_strftime("%z").unwrap(),
        vec![FormatItem::OffsetHourSigned, FormatItem::OffsetMinute]
    );
}

#[test]
fn strftime_percent_escape_starts_a_literal() {
    assert_eq!(translate_strftime("100%%!").unwrap(), vec![lit("100"), lit("%!")]);
    assert_eq!(translate_strftime("").unwrap(), Vec::<FormatItem>::new());
}

#[test]
fn strftime_rejects_bad_patterns() {
    assert_eq!(translate_strftime("50%"), Err(PatternError::DanglingPercent));
    assert_eq!(translate_strftime("%H %Z"), Err(PatternError::TimeZoneName));
    assert_eq!(translate_strftime("%q"), Err(PatternError::Unsupported('q')));
}

#[test]
fn formats_rfc3339_datetime() {
    let rendered = format_date_text("2025-10-01T12:08:00+02:00", "%Y-%m-%d").unwrap();
    assert_eq!(rendered, "2025-10-01");
}

#[test]
fn formats_using_common_strftime_tokens() {
    let rendered = format_date_text("2025-10-01T12:08:00+02:00", "%a, %d %B %Y %H:%M").unwrap();
    assert_eq!(rendered, "Wed, 01 October 2025 12:08");
}

#[test]
fn rejects_non_rfc3339_input() {
    assert_eq!(format_date_text("not-a-date", "%Y"), Err(DateFilterIssue::NotRfc3339));
}

#[test]
fn format_date_covers_every_directive() {
    let raw = "2025-03-04T15:06:07-05:30";
    assert_eq!(format_date_text(raw, "%y|%b|%B|%a|%A|%F|%R|%T").unwrap(),
        "25|Mar|March|Tue|Tuesday|2025-03-04|15:06|15:06:07");
    assert_eq!(format_date_text(raw, "%I:%M %p %P").unwrap(), "03:06 PM pm");
    assert_eq!(format_date_text(raw, "%Y-%m-%d %H:%M:%S %z").unwrap(), "2025-03-04 15:06:07 -0530");
    assert_eq!(format_date_text(raw, "[%Y] \\ %%").unwrap(), "[2025] \\ %");
    assert_eq!(format_date_text("   ", "%Y").unwrap(), "");
    assert_eq!(format_date_text(raw, "%Z"), Err(DateFilterIssue::Pattern(PatternError::TimeZoneName)));
    assert_eq!(format_date_text(raw, "%Y%"), Err(DateFilterIssue::Pattern(PatternError::DanglingPercent)));
}

#[test]
fn composite_directives_format_like_their_parts() {
    let raw = "2025-10-01T12:08:09+02:00";
    assert_eq!(format_date_text(raw, "%F"), format_date_text(raw, "%Y-%m-%d"));
    assert_eq!(format_date_text(raw, "%T"), format_date_text(raw, "%H:%M:%S"));
    assert_eq!(format_date_text(raw, "%R").unwrap(), "12:08");
    assert_eq!(format_date_text(raw, "100%% sure").unwrap(), "100% sure");
    assert_eq!(format_date_text(raw, "plain [text]").unwrap(), "plain [text]");
}
