use bckt::config::timezone::TimeOffset;
use bckt::post::datetime::{
    date_prefix, format_display_date, format_rfc3339, parse_datetime, parse_offset, parse_post_date, DisplayDateIssue, DateTime,
    OffsetIssue, PostDateIssue,
};
use bckt::post::project::{generate_fallback_slug, post_dir, post_file};
use bckt::utils::expand_tilde;

fn at(year: i32, month: u8, day: u8, hour: u8, minute: u8, second: u8, offset_hours: i8) -> DateTime {
    DateTime {
        year,
        month,
        day,
        hour,
        minute,
        second,
        nanosecond: 0,
        offset: TimeOffset { hours: offset_hours, minutes: 0, seconds: 0 },
    }
}

#[test]
fn parse_datetime_accepts_rfc3339() {
    let parsed = parse_datetime("2024-01-15T12:00:00Z").expect("parses");
    assert_eq!(parsed, at(2024, 1, 15, 12, 0, 0, 0));
}

#[test]
fn parse_datetime_accepts_naive_as_utc() {
    let parsed = parse_datetime("2024-01-15 12:00:00").expect("parses");
    assert_eq!(parsed, at(2024, 1, 15, 12, 0, 0, 0));
}

#[test]
fn parse_datetime_accepts_trailing_offset() {
    let parsed = parse_datetime("2024-01-15 12:00:00 +03:00").expect("parses");
    assert_eq!(parsed, at(2024, 1, 15, 12, 0, 0, 3));
    let compact = parse_datetime("2024-01-15 12:00:00 +0300").expect("parses");
    assert_eq!(compact, at(2024, 1, 15, 12, 0, 0, 3));
}

#[test]
fn parse_datetime_rejects_garbage() {
    assert!(parse_datetime("not a date").is_none());
}

#[test]
fn parse_offset_rejects_short_values() {
    assert!(parse_offset("+3").is_err());
}

#[test]
fn date_prefix_uses_two_digit_year() {
    assert_eq!(date_prefix(&at(2024, 1, 5, 0, 0, 0, 0)).unwrap(), "240105");
}

#[test]
fn format_rfc3339_round_trips() {
    let dt = at(2024, 1, 15, 12, 0, 0, 0);
    assert_eq!(parse_datetime(&format_rfc3339(&dt).unwrap()), Some(dt));
}

#[test]
fn post_dir_uses_year_and_date_prefix() {
    let dir = post_dir("/site/posts", &at(2024, 1, 5, 0, 0, 0, 0), "hello");
    assert_eq!(dir.unwrap(), "/site/posts/2024/240105-hello");
}

#[test]
fn post_file_appends_markdown_extension() {
    assert_eq!(
        post_file("/site/posts/2024/240105-hello", "hello"),
        "/site/posts/2024/240105-hello/hello.md"
    );
}

#[test]
fn expand_tilde_leaves_non_tilde_unchanged() {
    let expanded = expand_tilde("/absolute/path", &Some("/home/me".to_string()));
    assert_eq!(expanded, "/absolute/path");
}

#[test]
fn expand_tilde_uses_home_when_known() {
    assert_eq!(expand_tilde("~/sites", &Some("/home/me".to_string())), "/home/me/sites");
    assert_eq!(expand_tilde("~", &Some("/home/me".to_string())), "~");
    assert_eq!(expand_tilde("~/sites", &None), "~/sites");
}

#[test]
fn offsets_in_every_accepted_form() {
    assert_eq!(parse_offset("utc").unwrap(), TimeOffset { hours: 0, minutes: 0, seconds: 0 });
    assert_eq!(parse_offset(" -0530 ").unwrap(), TimeOffset { hours: -5, minutes: -30, seconds: 0 });
    assert_eq!(parse_offset("+01:02:03").unwrap(), TimeOffset { hours: 1, minutes: 2, seconds: 3 });
    assert_eq!(parse_offset("  "), Err(OffsetIssue::TooShort));
    assert_eq!(parse_offset("+ab:cd"), Err(OffsetIssue::Invalid));
}

#[test]
fn post_dates_use_the_default_timezone_for_naive_values() {
    assert_eq!(
        parse_post_date("2024-01-15 12:00:00", "+02:00").unwrap(),
        at(2024, 1, 15, 12, 0, 0, 2)
    );
    assert_eq!(
        parse_post_date("2024-01-15T12:00:00+01:00", "nowhere").unwrap(),
        at(2024, 1, 15, 12, 0, 0, 1)
    );
    assert_eq!(parse_post_date("2024-01-15 12:00:00", "nowhere"), Err(PostDateIssue::BadTimezone));
    assert_eq!(parse_post_date("yesterday", "UTC"), Err(PostDateIssue::Unrecognized));
}

#[test]
fn fallback_slug_is_the_formatted_time() {
    let slug = generate_fallback_slug(&at(2024, 3, 9, 7, 5, 1, 0)).unwrap();
    assert_eq!(slug, "240309-post");
}

fn utc(year: i32, month: u8, day: u8, hour: u8, minute: u8, second: u8) -> DateTime {
    DateTime {
        year,
        month,
        day,
        hour,
        minute,
        second,
        nanosecond: 0,
        offset: TimeOffset { hours: 0, minutes: 0, seconds: 0 },
    }
}

#[test]
fn format_date_custom_pattern_caches_and_reuses() {
    let date = utc(2024, 5, 6, 8, 9, 10);
    assert_eq!(format_display_date("[year]-[month]", &date).unwrap(), "2024-05");
    assert_eq!(format_display_date("[year]-[month]", &date).unwrap(), "2024-05");
}

#[test]
fn format_date_invalid_pattern_reports_error() {
    let date = utc(1970, 1, 1, 0, 0, 0);
    let err = format_display_date("[bogus]", &date).unwrap_err();
    assert_eq!(err, DisplayDateIssue::InvalidFormat);
    assert!(err.message("[bogus]").contains("invalid date_format"));
}

#[test]
fn display_dates_honour_the_rfc3339_keyword() {
    let date = utc(2024, 5, 6, 8, 9, 10);
    assert_eq!(format_display_date("rfc3339", &date).unwrap(), "2024-05-06T08:09:10Z");
    assert_eq!(format_display_date("[day] [month repr:short] [year]", &date).unwrap(), "06 May 2024");
    let impossible = utc(2024, 13, 6, 8, 9, 10);
    assert_eq!(format_display_date("[year]", &impossible), Err(DisplayDateIssue::Unformattable));
    assert_eq!(format_display_date("RFC3339", &impossible), Err(DisplayDateIssue::Rfc3339Failed));
}
