use bckt::config::date_format::{parse_format, DateFormatIssue};
use bckt::config::model::ConfigIssue;
use bckt::config::search::{validate_search_config, SearchConfigIssue};
use bckt::config::timezone::{parse_timezone, TimezoneIssue};
use bckt::config::{Config, SearchConfig, SearchLanguageConfig};

#[test]
fn config_default_search_configuration_has_expected_languages() {
    let config = Config::default();
    assert_eq!(config.search.asset_path, "assets/search/search-index.json");
    assert_eq!(config.search.default_language, "en");
    let ids: Vec<_> = config
        .search
        .languages
        .iter()
        .map(|lang| lang.id.as_str())
        .collect();
    assert!(ids.contains(&"en"));
    assert!(ids.contains(&"el"));
}

#[test]
fn config_duplicate_search_languages_are_rejected() {
    let mut config = Config::default();
    config.search.languages.push(SearchLanguageConfig {
        id: "en".to_string(),
        name: None,
        stopwords: Vec::new(),
    });

    let error = config.validate("config.yml").unwrap_err();
    assert!(error.message().contains("duplicate language id"));
}

#[test]
fn search_default_search_configuration_has_expected_languages() {
    let config = SearchConfig::default();
    assert_eq!(config.asset_path, "assets/search/search-index.json");
    assert_eq!(config.default_language, "en");
    let ids: Vec<_> = config
        .languages
        .iter()
        .map(|lang| lang.id.as_str())
        .collect();
    assert!(ids.contains(&"en"));
    assert!(ids.contains(&"el"));
    assert!(config.payload_fields.is_empty());
}

#[test]
fn search_duplicate_search_languages_are_rejected() {
    let mut config = SearchConfig::default();
    config.languages.push(SearchLanguageConfig {
        id: "en".to_string(),
        name: None,
        stopwords: Vec::new(),
    });

    let error = validate_search_config(&config, "config.yml").unwrap_err();
    assert!(error.message().contains("duplicate language id"));
}

#[test]
fn payload_fields_reject_whitespace_and_duplicates() {
    let config = SearchConfig {
        payload_fields: vec!["image".into(), "image ".into()],
        ..SearchConfig::default()
    };
    let error = validate_search_config(&config, "config.yml").unwrap_err();
    assert!(error.message().contains("whitespace"));

    let config = SearchConfig {
        payload_fields: vec!["cover".into(), "cover".into()],
        ..SearchConfig::default()
    };
    let error = validate_search_config(&config, "config.yml").unwrap_err();
    assert!(error.message().contains("duplicate entry"));
}

#[test]
fn parse_utc_variants() {
    assert!(parse_timezone("UTC").is_ok());
    assert!(parse_timezone("Z").is_ok());
    assert!(parse_timezone("utc").is_ok());
}

#[test]
fn parse_positive_offset() {
    let offset = parse_timezone("+05:30").unwrap();
    assert_eq!(offset.whole_hours(), 5);
}

#[test]
fn parse_negative_offset() {
    let offset = parse_timezone("-08:00").unwrap();
    assert_eq!(offset.whole_hours(), -8);
}

#[test]
fn reject_invalid_format() {
    assert!(parse_timezone("Mars/Station").is_err());
    assert!(parse_timezone("invalid").is_err());
}

#[test]
fn accept_rfc3339() {
    assert!(parse_format("RFC3339").is_ok());
}

#[test]
fn accept_valid_format() {
    assert!(parse_format("[year]-[month]-[day]").is_ok());
}

#[test]
fn reject_empty_format() {
    assert!(parse_format("???").is_err());
}

#[test]
fn format_without_components_is_refused() {
    assert_eq!(parse_format("just text"), Err(DateFormatIssue::NoComponent));
    assert_eq!(parse_format("[nonsense"), Err(DateFormatIssue::Invalid));
}

#[test]
fn timezone_parts_and_errors() {
    let offset = parse_timezone(" -03:30:15 ").unwrap();
    assert_eq!((offset.hours, offset.minutes, offset.seconds), (-3, -30, -15));
    assert_eq!(parse_timezone("   ").unwrap_err(), TimezoneIssue::Empty);
    assert_eq!(parse_timezone("05:00").unwrap_err(), TimezoneIssue::BadSign);
    assert_eq!(parse_timezone("+1:2:3:4").unwrap_err(), TimezoneIssue::TooManyComponents);
    assert_eq!(parse_timezone("+x").unwrap_err(), TimezoneIssue::InvalidHour);
    assert_eq!(parse_timezone("+01:y").unwrap_err(), TimezoneIssue::InvalidMinute);
    assert_eq!(parse_timezone("+01:00:z").unwrap_err(), TimezoneIssue::InvalidSecond);
    assert_eq!(parse_timezone("+30:00").unwrap_err(), TimezoneIssue::OutOfRange);
}

#[test]
fn validate_rejects_non_http_base_url() {
    let config = Config {
        title: Some("Bucket".to_string()),
        base_url: "ftp://example.com".to_string(),
        homepage_posts: 3,
        ..Config::default()
    };
    let error = config.validate("bckt.yaml").unwrap_err();
    assert_eq!(error.issue, ConfigIssue::BaseUrlScheme);
    assert!(error.message().contains("base_url must use http or https"));
}

#[test]
fn validate_rejects_relative_and_empty_base_url() {
    let config = Config { base_url: "example.com/blog".to_string(), ..Config::default() };
    assert_eq!(config.validate("c").unwrap_err().issue, ConfigIssue::BaseUrlNotAbsolute);
    let config = Config { base_url: "  ".to_string(), ..Config::default() };
    assert_eq!(config.validate("c").unwrap_err().message(), "c: base_url must not be empty");
}

#[test]
fn validate_rejects_zero_homepage_posts() {
    let config = Config {
        base_url: "https://example.com".to_string(),
        homepage_posts: 0,
        ..Config::default()
    };
    let error = config.validate("bckt.yaml").unwrap_err();
    assert!(error.message().contains("homepage_posts must be greater than zero"));
}

#[test]
fn validate_rejects_bad_date_format_and_timezone() {
    let config = Config {
        base_url: "https://example.com".to_string(),
        date_format: "???".to_string(),
        ..Config::default()
    };
    let error = config.validate("bckt.yaml").unwrap_err();
    assert_eq!(error.issue, ConfigIssue::DateFormat);
    assert!(error.message().contains("date_format"));

    let config = Config {
        base_url: "https://example.com".to_string(),
        default_timezone: "Mars/Station".to_string(),
        ..Config::default()
    };
    let error = config.validate("bckt.yaml").unwrap_err();
    assert_eq!(
        error.message(),
        "bckt.yaml: default_timezone 'Mars/Station' is invalid (expected offset like +00:00)"
    );
}

#[test]
fn validate_accepts_defaults_and_rfc3339_keyword() {
    assert!(Config::default().validate("bckt.yaml").is_ok());
    let config = Config {
        base_url: "https://example.com".to_string(),
        date_format: "RFC3339".to_string(),
        ..Config::default()
    };
    assert!(config.validate("bckt.yaml").is_ok());
}

#[test]
fn search_config_issues_in_order() {
    let config = SearchConfig { asset_path: " ".to_string(), ..SearchConfig::default() };
    let error = validate_search_config(&config, "c").unwrap_err();
    assert_eq!(error.issue, SearchConfigIssue::EmptyAssetPath);
    assert_eq!(error.message(), "c: search.asset_path must not be empty");

    let config = SearchConfig { languages: Vec::new(), ..SearchConfig::default() };
    assert_eq!(
        validate_search_config(&config, "c").unwrap_err().issue,
        SearchConfigIssue::NoLanguages
    );

    let config = SearchConfig { default_language: "fr".to_string(), ..SearchConfig::default() };
    let error = validate_search_config(&config, "c").unwrap_err();
    assert_eq!(error.issue, SearchConfigIssue::UnknownDefaultLanguage);

    let config = SearchConfig {
        payload_fields: vec!["a b".to_string()],
        ..SearchConfig::default()
    };
    assert_eq!(
        validate_search_config(&config, "c").unwrap_err().issue,
        SearchConfigIssue::InnerWhitespacePayloadField
    );
}

#[test]
fn find_project_root_errors_when_missing() {
    let start = "/nonexistent-bckt-root/posts/example";
    let error = bckt::config::find_project_root(start).unwrap_err();
    assert!(error.message(start).contains("could not locate bckt.yaml"));
}

#[test]
fn project_root_is_the_nearest_candidate_found() {
    let probes = bckt::post::project::root_probes("/site/posts/example");
    let asked: Vec<String> = probes.iter().map(|p| p.path.clone()).collect();
    assert_eq!(
        asked,
        vec![
            "/site/posts/example/bckt.yaml".to_string(),
            "/site/posts/bckt.yaml".to_string(),
            "/site/bckt.yaml".to_string(),
            "/bckt.yaml".to_string(),
        ]
    );
    let start = "/site/posts/example";
    assert_eq!(bckt::post::project::pick_root(start, &vec![false, false, true, true]), Ok("/site".to_string()));
    assert_eq!(bckt::post::project::pick_root(start, &vec![true, false, true, false]), Ok(start.to_string()));
    assert!(bckt::post::project::pick_root(start, &vec![false, false, false, false]).is_err());
}
