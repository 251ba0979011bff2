use bckt::post::frontmatter::{yaml_quote, FrontMatter};
use bckt::post::slug::{non_empty, normalize_tags, slugify};

#[test]
fn slugify_lowercases_and_joins_words() {
    assert_eq!(slugify("Hello World"), "hello-world");
    assert_eq!(slugify("  Multi   Spaces  "), "multi-spaces");
}

#[test]
fn slugify_drops_leading_and_trailing_separators() {
    assert_eq!(slugify("--Hello--"), "hello");
    assert_eq!(slugify("!!!"), "");
}

#[test]
fn slugify_collapses_runs_of_punctuation() {
    assert_eq!(slugify("a -- b"), "a-b");
    assert_eq!(slugify("Ünïcodé is dropped"), "n-cod-is-dropped");
}

#[test]
fn slugify_directory_name() {
    assert_eq!(slugify("Hello World"), "hello-world");
    assert_eq!(slugify("  Multi   Spaces  "), "multi-spaces");
}

#[test]
fn slugify_is_idempotent_on_examples() {
    for input in ["Hello World", "--a--b--", "Ünïcodé is dropped", "2024: a year"] {
        let once = slugify(input);
        assert_eq!(slugify(&once), once);
    }
}

#[test]
fn normalize_tags_empty_input_yields_no_tags() {
    assert!(normalize_tags("").is_empty());
}

#[test]
fn normalize_tags_parses_csv() {
    assert_eq!(normalize_tags("rust, notes"), vec!["rust", "notes"]);
}

#[test]
fn normalize_tags_skips_blank_entries() {
    assert_eq!(normalize_tags(",, rust ,,"), vec!["rust"]);
}

#[test]
fn non_empty_trims_and_rejects_blanks() {
    assert_eq!(non_empty("  note  "), Some("note".to_string()));
    assert_eq!(non_empty("   "), None);
}

fn sample() -> FrontMatter {
    FrontMatter::new("title", "2024-01-01T00:00:00Z")
}

#[test]
fn front_matter_omits_tags_line_when_empty() {
    let fm = sample().render();
    assert!(
        !fm.contains("tags:"),
        "front matter must not emit a tags line when there are no tags:\n{fm}"
    );
}

#[test]
fn front_matter_includes_supplied_tags() {
    let mut post = sample();
    post.tags = vec!["rust".to_string(), "notes".to_string()];
    assert!(post.render().contains("tags: rust, notes"), "{post:?}");
}

#[test]
fn front_matter_omits_title_when_absent() {
    let fm = sample().render();
    assert!(!fm.contains("title:"), "{fm}");
}

#[test]
fn front_matter_emits_empty_title_when_set_to_blank() {
    let mut post = sample();
    post.title = Some(String::new());
    assert!(post.render().contains("title: \"\""));
}

#[test]
fn front_matter_emits_bare_attached_key_when_empty() {
    let fm = sample().render();
    assert!(fm.contains("attached:\n---\n"), "{fm}");
}

#[test]
fn front_matter_lists_attachments() {
    let mut post = sample();
    post.attached = vec!["img-1.jpg".to_string(), "img-2.jpg".to_string()];
    let fm = post.render();
    assert!(
        fm.contains("attached:\n  - \"img-1.jpg\"\n  - \"img-2.jpg\"\n"),
        "{fm}"
    );
}

#[test]
fn front_matter_skips_blank_optional_fields() {
    let mut post = sample();
    post.post_type = Some("  ".to_string());
    post.abstract_text = Some(String::new());
    post.language = Some("   ".to_string());
    let fm = post.render();
    assert!(!fm.contains("type:"), "{fm}");
    assert!(!fm.contains("abstract:"), "{fm}");
    assert!(!fm.contains("language:"), "{fm}");
}

#[test]
fn into_document_separates_body_with_one_blank_line() {
    let doc = sample().into_document("Hello.\n");
    assert!(doc.ends_with("---\n\nHello.\n"), "{doc}");
}

#[test]
fn yaml_quote_escapes_quotes_and_backslashes() {
    assert_eq!(yaml_quote(r#"a "b" \c"#), r#""a \"b\" \\c""#);
    assert_eq!(yaml_quote(""), "\"\"");
}

#[test]
fn front_matter_renders_every_field_in_order() {
    let mut post = FrontMatter::new("hello", "2024-01-01 10:00:00");
    post.title = Some("Hi \"there\"".to_string());
    post.tags = vec!["a".to_string()];
    post.post_type = Some(" note ".to_string());
    post.abstract_text = Some(" short ".to_string());
    post.language = Some(" en ".to_string());
    assert_eq!(
        post.render(),
        "---\ntitle: \"Hi \\\"there\\\"\"\nslug: hello\ndate: \"2024-01-01 10:00:00\"\ntags: a\ntype: note\nabstract: \"short\"\nlanguage: en\nattached:\n---\n"
    );
}

#[test]
fn written_post_reads_back_example() {
    let mut fm = FrontMatter::new("hello", "2024-01-05T10:00:00Z");
    fm.title = Some("Hi \"there\"".to_string());
    fm.tags = vec!["a".to_string(), "b c".to_string()];
    fm.abstract_text = Some("  short  ".to_string());
    fm.attached = vec!["x.png".to_string()];
    let doc = fm.into_document("Body\nline");
    let (yaml, body) = bckt::content::parse_front_matter(&doc).unwrap();
    assert_eq!(body, "Body\nline");
    assert_eq!(format!("---\n{yaml}\n---\n"), fm.render());
}
