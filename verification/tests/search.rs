use bckt::config::{SearchConfig, SearchLanguageConfig};
use bckt::search::{
    canonical_language, language_lookup, normalize_stopwords, payload_selection, plan_search_index,
    resolve_asset_path, sanitize_language, SearchPost,
};

fn build_post(slug: &str, language: &str, tags: &[&str]) -> SearchPost {
    SearchPost {
        permalink: format!("/2024/01/01/{slug}/"),
        title: Some("Example".to_string()),
        slug: slug.to_string(),
        language: language.to_string(),
        tags: tags.iter().map(|tag| tag.to_string()).collect(),
        post_type: Some("note".to_string()),
        abstract_text: Some("Summary".to_string()),
        excerpt: "Example body".to_string(),
        search_text: "Example body for search indexing".to_string(),
        year: 2024,
    }
}

#[test]
fn build_index_serializes_documents() {
    let config = SearchConfig::default();
    let posts = vec![build_post("alpha", "en", &["rust", "notes"])];
    let plan = plan_search_index(&config, &posts);
    assert_eq!(plan.documents.len(), 1);
    let document = &plan.documents[0];
    assert_eq!(document.language, "en");
    assert_eq!(document.tags.len(), 2);
    assert!(plan.tags.iter().any(|value| value == "rust"));
}

#[test]
fn language_aliases_map_to_configured_ids() {
    let config = SearchConfig::default();
    let posts = vec![build_post("beta", "eng", &[])];
    let plan = plan_search_index(&config, &posts);
    assert_eq!(plan.documents[0].language, "en");
}

#[test]
fn search_documents_take_their_fields_from_posts() {
    let config = SearchConfig::default();
    let mut untitled = build_post("gamma", "ell", &["b", "", "a", "b"]);
    untitled.title = None;
    untitled.abstract_text = None;
    untitled.excerpt = "   ".to_string();
    untitled.post_type = Some("  ".to_string());
    untitled.year = 2023;
    let posts = vec![build_post("alpha", "fr", &["rust"]), untitled];
    let plan = plan_search_index(&config, &posts);
    assert_eq!(plan.default_language, "en");
    let first = &plan.documents[0];
    assert_eq!(first.id, "/2024/01/01/alpha/");
    assert_eq!(first.url, "/2024/01/01/alpha/");
    assert_eq!(first.title, "Example");
    assert_eq!(first.excerpt, "Summary");
    assert_eq!(first.language, "fr");
    assert_eq!(first.kind, Some("note".to_string()));
    assert_eq!(first.content, "Example body for search indexing");
    let second = &plan.documents[1];
    assert_eq!(second.title, "gamma");
    assert_eq!(second.excerpt, "gamma");
    assert_eq!(second.language, "el");
    assert_eq!(second.tags, vec!["a".to_string(), "b".to_string()]);
    assert_eq!(plan.tags, vec!["a".to_string(), "b".to_string(), "rust".to_string()]);
    assert_eq!(plan.types, vec!["note".to_string()]);
    assert_eq!(plan.years, vec![2023, 2024]);
    assert_eq!(plan.languages.len(), 2);
    assert_eq!(plan.languages[0].id, "en");
}

#[test]
fn languages_resolve_through_aliases_and_subtags() {
    let languages = vec![
        SearchLanguageConfig { id: "en".to_string(), name: None, stopwords: Vec::new() },
        SearchLanguageConfig { id: "pt_BR".to_string(), name: None, stopwords: Vec::new() },
    ];
    let lookup = language_lookup(&languages);
    assert_eq!(canonical_language(" EN-us ", &lookup), Some("en".to_string()));
    assert_eq!(canonical_language("eng", &lookup), Some("en".to_string()));
    assert_eq!(canonical_language("pt-br", &lookup), Some("pt_BR".to_string()));
    assert_eq!(canonical_language("por", &lookup), Some("pt_BR".to_string()));
    assert_eq!(canonical_language("de_AT", &lookup), Some("de-at".to_string()));
    assert_eq!(canonical_language("   ", &lookup), None);
}

#[test]
fn stopwords_and_asset_paths() {
    let words = vec![" The ".to_string(), "a".to_string(), "the".to_string(), "".to_string()];
    assert_eq!(normalize_stopwords(&words), vec!["a".to_string(), "the".to_string()]);
    assert_eq!(sanitize_language(" PT_br "), "pt-br");
    assert_eq!(resolve_asset_path("/out", "/assets/search/index.json"), "/out/assets/search/index.json");
}

fn stamp(year: i32, month: u8, day: u8) -> bckt::post::datetime::DateTime {
    bckt::post::datetime::DateTime {
        year,
        month,
        day,
        hour: 8,
        minute: 9,
        second: 10,
        nanosecond: 0,
        offset: bckt::config::timezone::TimeOffset { hours: 2, minutes: 0, seconds: 0 },
    }
}

#[test]
fn index_dates_are_iso_and_displayed() {
    let dates = vec![stamp(2024, 5, 6), stamp(2023, 12, 31)];
    let written = bckt::search::index_dates("[day].[month].[year]", &dates).unwrap();
    assert_eq!(
        written,
        vec![
            ("2024-05-06T08:09:10+02:00".to_string(), "06.05.2024".to_string()),
            ("2023-12-31T08:09:10+02:00".to_string(), "31.12.2023".to_string()),
        ]
    );
    let same = bckt::search::index_dates("rfc3339", &dates).unwrap();
    assert_eq!(same[0].0, same[0].1);
    assert_eq!(
        bckt::search::index_dates("[bogus", &Vec::new()),
        Err(bckt::search::IndexDateIssue::InvalidFormat)
    );
    assert_eq!(
        bckt::search::index_dates("[year]", &vec![stamp(2024, 2, 30)]),
        Err(bckt::search::IndexDateIssue::Rfc3339Failed)
    );
}

#[test]
fn payload_keeps_present_fields_once() {
    let fields: Vec<String> = ["cover", "mood", "cover", "rating"].iter().map(|f| f.to_string()).collect();
    assert_eq!(payload_selection(&fields, &vec![true, false, true, true]), Some(vec![0, 3]));
    assert_eq!(payload_selection(&fields, &vec![false, false, false, false]), None);
    assert_eq!(payload_selection(&Vec::new(), &Vec::new()), None);
}
