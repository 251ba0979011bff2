use bckt::content::{
    build_permalink, choose_main_file, MainFile, determine_language, determine_slug, excerpt_from_html, extension_of_str,
    file_name_of_str, ignore_probes, is_main_file, post_dirs, searched_dirs, normalize_post_type, parse_front_matter, parsed_body_key,
    to_plain_text, truncate, FrontMatterIssue, SlugIssue, EXCERPT_LIMIT,
};
use bckt::markdown::{collect_text, extract_excerpt, render_markdown, MdEvent};

#[test]
fn excerpt_prefers_first_paragraph() {
    let markdown = "First paragraph.\n\nSecond paragraph";
    let rendered = render_markdown(markdown);
    assert_eq!(rendered.excerpt, "First paragraph.");
}

#[test]
fn excerpt_truncates_long_text() {
    let text = "a".repeat(500);
    let rendered = render_markdown(&text);
    assert_eq!(rendered.excerpt.len(), EXCERPT_LIMIT + 3);
    assert!(rendered.excerpt.ends_with("..."));
}

#[test]
fn renders_tables_and_tasks() {
    let markdown = "| h1 | h2 |\n| -- | -- |\n| a | b |\n\n- [x] done\n- [ ] todo";
    let rendered = render_markdown(markdown);
    assert!(rendered.html.contains("<table"), "{}", rendered.html);
    assert!(rendered.html.contains("<input type=\"checkbox\""), "{}", rendered.html);
}

#[test]
fn renders_footnotes_and_code() {
    let markdown = "Paragraph with footnote.[^1]\n\n[^1]: Footnote text\n\n```rust\nfn main() {}\n```";
    let rendered = render_markdown(markdown);
    assert!(rendered.html.contains("data-footnotes"), "{}", rendered.html);
    assert!(rendered.html.contains("lang=\"rust\""), "{}", rendered.html);
}

#[test]
fn excerpt_without_paragraph_uses_whole_document() {
    let rendered = render_markdown("# Title\n\n```\nlet x = 1;\n```\n\n- item");
    assert_eq!(rendered.excerpt, "Titlelet x = 1;\n item");
}

#[test]
fn excerpt_collects_inline_text() {
    let rendered = render_markdown("Use `cargo`\n*today*\n\nlater");
    assert_eq!(rendered.excerpt, "Use cargo today");
    let events = vec![
        MdEvent::Container,
        MdEvent::Paragraph,
        MdEvent::Text("a".to_string()),
        MdEvent::Close,
        MdEvent::Break,
        MdEvent::Close,
        MdEvent::Close,
    ];
    assert_eq!(collect_text(&events), "a");
    assert_eq!(extract_excerpt(&events, 10), "a");
}

#[test]
fn truncate_counts_characters_and_marks_cuts() {
    assert_eq!(truncate("", 3), "");
    assert_eq!(truncate("abc", 3), "abc");
    assert_eq!(truncate("abcd", 3), "abc...");
    assert_eq!(truncate("αβγδ", 2), "αβ...");
    assert_eq!(truncate("ab  cd", 3), "ab ...");
    assert_eq!(truncate("  padded  ", 20), "padded");
}

#[test]
fn html_excerpt_and_plain_text() {
    assert_eq!(excerpt_from_html("<p>Hello <b>world</b></p>\n<p>again</p>"), "Hello world again");
    assert_eq!(to_plain_text("<h1>Title</h1><p>Body   text</p>"), "TitleBody text");
}

#[test]
fn front_matter_is_split_from_body() {
    let (front, body) = parse_front_matter("---\ntitle: Hi\ntags: a\n---\n\nHello\nthere\n").unwrap();
    assert_eq!(front, "title: Hi\ntags: a");
    assert_eq!(body, "Hello\nthere");
    let (front, body) = parse_front_matter("  ---  \r\nx: 1\r\n---").unwrap();
    assert_eq!(front, "x: 1");
    assert_eq!(body, "");
}

#[test]
fn front_matter_must_open_and_close() {
    assert_eq!(parse_front_matter("title: Hi\n---\n"), Err(FrontMatterIssue::MissingStart));
    assert_eq!(parse_front_matter(""), Err(FrontMatterIssue::MissingStart));
    assert_eq!(parse_front_matter("---\ntitle: Hi\n"), Err(FrontMatterIssue::NotTerminated));
}

#[test]
fn slug_from_front_matter_or_directory() {
    assert_eq!(determine_slug("/posts/2024/240105-My Post", &None), Ok("240105-my-post".to_string()));
    assert_eq!(
        determine_slug("/posts/x", &Some("Custom Slug!".to_string())),
        Ok("custom-slug".to_string())
    );
    assert_eq!(determine_slug("/posts/x", &Some("!!!".to_string())), Err(SlugIssue::Empty));
    assert_eq!(determine_slug("/", &None), Err(SlugIssue::NoDirectoryName));
}

#[test]
fn permalinks_are_dated() {
    assert_eq!(build_permalink(2024, 1, 5, "hello"), "/2024/01/05/hello/");
    assert_eq!(build_permalink(987, 12, 31, "old"), "/0987/12/31/old/");
}

#[test]
fn post_types_are_normalized_or_refused() {
    assert_eq!(normalize_post_type(&None, "p.md").unwrap(), None);
    assert_eq!(normalize_post_type(&Some("  ".to_string()), "p.md").unwrap(), None);
    assert_eq!(
        normalize_post_type(&Some(" Photo_Set-2 ".to_string()), "p.md").unwrap(),
        Some("photo_set-2".to_string())
    );
    let error = normalize_post_type(&Some("a b".to_string()), "p.md").unwrap_err();
    assert_eq!(
        error.message(),
        "p.md: type may only contain lowercase letters, digits, '-' or '_'"
    );
}

#[test]
fn language_falls_back_to_default() {
    assert_eq!(determine_language(&Some(" EL ".to_string()), "en", ""), "el");
    assert_eq!(determine_language(&Some("  ".to_string()), "EN", ""), "en");
    assert_eq!(determine_language(&None, "en", ""), "en");
}

#[test]
fn file_names_and_extensions() {
    assert_eq!(file_name_of_str("/a/b/post.md"), Some("post.md".to_string()));
    assert_eq!(file_name_of_str("/a/b/.."), None);
    assert_eq!(extension_of_str("post.MD"), Some("MD".to_string()));
    assert_eq!(extension_of_str(".hidden"), None);
    assert_eq!(extension_of_str("archive.tar.gz"), Some("gz".to_string()));
    assert!(is_main_file("dir/index.HTML"));
    assert!(is_main_file("note.md"));
    assert!(!is_main_file("photo.jpg"));
}

#[test]
fn parsed_body_keys_are_relative_to_the_posts_root() {
    assert_eq!(parsed_body_key("/site/posts", "/site/posts/2024/hello"), "parsed:2024/hello");
    assert_eq!(parsed_body_key("/elsewhere", "rel/dir"), "parsed:rel/dir");
}


#[test]
fn language_is_detected_when_missing() {
    let text = "Αυτό είναι ένα παράδειγμα ελληνικού κειμένου για την ανίχνευση γλώσσας.";
    assert_eq!(determine_language(&None, "en", text), "el");
}

#[test]
fn short_content_falls_back_to_default_language() {
    assert_eq!(determine_language(&None, "en", "Hi!"), "en");
}

#[test]
fn detection_needs_enough_letters_and_follows_the_script() {
    assert_eq!(bckt::content::detect_language("This is plainly an English sentence."), None);
    assert_eq!(bckt::content::detect_language("Καλημέρα"), None);
    assert_eq!(determine_language(&None, "fr", "Ceci est une phrase tout à fait française."), "fr");
    assert_eq!(determine_language(&Some("fr".to_string()), "en", "Αυτό είναι ένα παράδειγμα ελληνικού κειμένου"), "fr");
}

#[test]
fn marked_directories_and_their_subdirectories_are_skipped() {
    let dirs: Vec<String> = ["posts/published", "posts/drafts", "posts/archive", "posts/archive/old"]
        .iter()
        .map(|d| d.to_string())
        .collect();
    assert_eq!(searched_dirs(&dirs, &vec![false, true, true, false]), vec![0]);
    assert_eq!(searched_dirs(&dirs, &vec![false, false, false, false]), vec![0, 1, 2, 3]);
    assert_eq!(searched_dirs(&dirs, &vec![false, false, false, true]), vec![0, 1, 2]);
}

#[test]
fn a_marker_covers_whole_components_only() {
    let dirs = vec!["posts/drafts".to_string(), "posts/drafts2".to_string(), "posts/drafts/x".to_string()];
    assert_eq!(searched_dirs(&dirs, &vec![true, false, false]), vec![1]);
}

#[test]
fn ignore_probes_ask_for_the_marker_file() {
    let probes = ignore_probes(&vec!["posts/a".to_string(), "posts/b/".to_string()]);
    assert_eq!(probes.len(), 2);
    assert_eq!(probes[0].path, "posts/a/.bcktignore");
    assert_eq!(probes[0].result, "posts/a");
    assert_eq!(probes[1].path, "posts/b/.bcktignore");
}

#[test]
fn directories_without_markers_are_all_searched() {
    let dirs = vec!["/nonexistent-bckt-root/a".to_string(), "/nonexistent-bckt-root/a/b".to_string()];
    assert_eq!(post_dirs(&dirs), vec![0, 1]);
}

#[test]
fn a_post_directory_has_one_main_file() {
    let files = vec!["post/pic.png".to_string(), "post/post.MD".to_string()];
    assert_eq!(choose_main_file(&files), MainFile::Found(1));
    assert_eq!(choose_main_file(&vec!["post/notes.txt".to_string()]), MainFile::NoPost);
    assert_eq!(choose_main_file(&Vec::new()), MainFile::NoPost);
    let several = vec!["a.md".to_string(), "b.txt".to_string(), "c.html".to_string()];
    assert_eq!(choose_main_file(&several), MainFile::Several(2));
}
