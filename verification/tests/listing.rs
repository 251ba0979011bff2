use bckt::config::timezone::TimeOffset;
use bckt::post::datetime::DateTime;
use bckt::render::feeds::{
    build_feed_item, config_tag_feeds, sanitize_cdata, sitemap_entries, sitemap_xml, tag_feed_title, xml_escape,
    RssTags, SitemapEntry,
};
use bckt::render::listing::{
    archive_month_path, archive_year_path, build_archive_years, month_archive_key, month_from_key,
    month_groups, page_output_path, post_cache_key, tag_buckets, tag_cache_key, tag_index_path, tag_index_url,
    tag_slug, year_archive_key, year_from_key, year_groups, ArchiveYear,
};
use bckt::render::pagination::{homepage_pages, page_needs_render, page_url, StoredPage};
use bckt::render::plan::{effective_mode, needs_render, BuildMode};
use bckt::render::posts::{
    att_to_absolute, find_duplicate_permalink, post_needs_render, post_output_path,
    post_template_name,
};

fn strings(items: &[&str]) -> Vec<String> {
    items.iter().map(|s| s.to_string()).collect()
}

#[test]
fn tag_slugs_fall_back_to_a_digest() {
    assert_eq!(tag_slug("Rust Lang"), "rust-lang");
    let slug = tag_slug("日本");
    assert!(slug.starts_with("tag-"));
    assert_eq!(slug.len(), 12);
    let hex = blake3::hash("日本".as_bytes()).to_hex().to_string();
    assert_eq!(&slug[4..], &hex[..8]);
    assert_ne!(tag_slug("日本"), tag_slug("中国"));
}

#[test]
fn listing_paths_and_urls() {
    assert_eq!(tag_index_url("rust"), "/tags/rust/");
    assert_eq!(tag_index_path("/out", "rust"), "/out/tags/rust/index.html");
    assert_eq!(page_output_path("/out", 3), "/out/page/3/index.html");
    assert_eq!(page_url(2), "/page/2/");
    assert_eq!(archive_year_path("/out", 2024), "/out/2024/index.html");
    assert_eq!(archive_month_path("/out/", 2024, 3), "/out/2024/03/index.html");
    assert_eq!(post_output_path("/out", "/2024/01/05/hello/"), "/out/2024/01/05/hello/index.html");
}

#[test]
fn cache_keys_round_trip() {
    assert_eq!(year_archive_key(2024), "archive_year:2024");
    assert_eq!(month_archive_key(2024, 7), "archive_month:2024-07");
    assert_eq!(year_from_key("archive_year:2024"), Some(2024));
    assert_eq!(month_from_key("archive_month:2024-07"), Some((2024, 7)));
    assert_eq!(year_from_key("archive_month:2024-07"), None);
    assert_eq!(tag_cache_key("rust"), "tag_index:rust");
    assert_eq!(post_cache_key("/2024/01/05/a/"), "post:/2024/01/05/a/");
    for year in [0, 7, 999, 2024, 10000] {
        assert_eq!(year_from_key(&year_archive_key(year)), Some(year));
        assert_eq!(month_from_key(&month_archive_key(year, 12)), Some((year, 12)));
    }
}

#[test]
fn tag_buckets_group_posts_by_slug() {
    let tags = vec![
        strings(&["Rust", "web"]),
        strings(&[" rust ", "  "]),
        strings(&["Web"]),
        strings(&[]),
    ];
    let buckets = tag_buckets(&tags);
    let mut seen: Vec<(String, String, Vec<usize>)> = buckets
        .iter()
        .map(|b| (b.slug.clone(), b.name.clone(), b.indices.clone()))
        .collect();
    seen.sort();
    assert_eq!(
        seen,
        vec![
            ("rust".to_string(), "Rust".to_string(), vec![0, 1]),
            ("web".to_string(), "web".to_string(), vec![0, 2]),
        ]
    );
}

#[test]
fn archives_group_by_year_and_month() {
    let years = vec![2023, 2024, 2024, 2022];
    let groups = year_groups(&years);
    let shape: Vec<(i32, Vec<usize>)> = groups.iter().map(|g| (g.year, g.indices.clone())).collect();
    assert_eq!(shape, vec![(2024, vec![2, 1]), (2023, vec![0]), (2022, vec![3])]);

    let dates = vec![(2024, 1), (2024, 2), (2023, 12), (2024, 1)];
    let months = month_groups(&dates);
    let shape: Vec<(i32, u8, Vec<usize>)> =
        months.iter().map(|g| (g.year, g.month, g.indices.clone())).collect();
    assert_eq!(shape, vec![(2024, 2, vec![1]), (2024, 1, vec![3, 0]), (2023, 12, vec![2])]);

    assert_eq!(
        build_archive_years(&years),
        vec![
            ArchiveYear { year: 2024, count: 2 },
            ArchiveYear { year: 2023, count: 1 },
            ArchiveYear { year: 2022, count: 1 },
        ]
    );
}

#[test]
fn homepage_pages_show_newest_first() {
    let keys = strings(&["a", "b", "c", "d", "e"]);
    let pages = homepage_pages(&keys, 2);
    assert_eq!(
        pages,
        vec![
            (1, strings(&["b", "a"])),
            (0, strings(&["e", "d", "c"])),
        ]
    );
}

#[test]
fn homepage_page_render_decisions() {
    let stored = vec![
        StoredPage { page_number: 0, posts: strings(&["e"]), content_digest: "d0".to_string() },
        StoredPage { page_number: 1, posts: strings(&["b", "a"]), content_digest: "d1".to_string() },
    ];
    let same = StoredPage { page_number: 1, posts: strings(&["b", "a"]), content_digest: "d1".to_string() };
    assert!(!page_needs_render(false, &stored, &same));
    assert!(page_needs_render(true, &stored, &same));
    let changed = StoredPage { page_number: 1, posts: strings(&["b", "a"]), content_digest: "x".to_string() };
    assert!(page_needs_render(false, &stored, &changed));
    let moved = StoredPage { page_number: 0, posts: strings(&["f"]), content_digest: "d0".to_string() };
    assert!(page_needs_render(false, &stored, &moved));
    let fresh = StoredPage { page_number: 2, posts: strings(&[]), content_digest: "d2".to_string() };
    assert!(page_needs_render(false, &stored, &fresh));
}

#[test]
fn render_modes_and_cache_decisions() {
    assert_eq!(effective_mode(BuildMode::Changed, true), BuildMode::Full);
    assert_eq!(effective_mode(BuildMode::Changed, false), BuildMode::Changed);
    assert_eq!(effective_mode(BuildMode::Full, false), BuildMode::Full);
    let digest = "abc".to_string();
    assert!(!needs_render(BuildMode::Changed, &Some("abc".to_string()), &digest, true));
    assert!(needs_render(BuildMode::Changed, &Some("abc".to_string()), &digest, false));
    assert!(needs_render(BuildMode::Changed, &None, &digest, true));
    assert!(needs_render(BuildMode::Full, &Some("abc".to_string()), &digest, true));
    assert!(!post_needs_render(false, &Some("abc".to_string()), "abc"));
    assert!(post_needs_render(false, &Some("abd".to_string()), "abc"));
    assert!(post_needs_render(true, &Some("abc".to_string()), "abc"));
}

#[test]
fn post_templates_follow_type() {
    assert_eq!(post_template_name(&None), "post.html");
    assert_eq!(post_template_name(&Some("photo".to_string())), "post-photo.html");
}

#[test]
fn duplicate_permalinks_are_found_in_order() {
    assert_eq!(find_duplicate_permalink(&strings(&["/a/", "/b/", "/c/"])), None);
    assert_eq!(find_duplicate_permalink(&strings(&["/a/", "/b/", "/b/", "/a/"])), Some((1, 2)));
    assert_eq!(find_duplicate_permalink(&strings(&["/a/", "/b/", "/a/", "/b/"])), Some((0, 2)));
}

#[test]
fn attachment_links_are_rewritten() {
    let attached = strings(&["photo.jpg", "docs/guide.pdf", "/abs.png"]);
    let body = r#"<img src="./photo.jpg"><a href='docs/guide.pdf#p2'>g</a><img src="other.jpg"><a href="https://x.y/photo.jpg">x</a>"#;
    let relative = att_to_absolute(body, "/2024/01/05/post/", "https://example.com/blog", &attached, false);
    assert_eq!(
        relative,
        r#"<img src="photo.jpg"><a href='docs/guide.pdf#p2'>g</a><img src="other.jpg"><a href="https://x.y/photo.jpg">x</a>"#
    );
    let absolute = att_to_absolute(body, "/2024/01/05/post/", "https://example.com/blog", &attached, true);
    assert_eq!(
        absolute,
        r#"<img src="https://example.com/blog/2024/01/05/post/photo.jpg"><a href='https://example.com/blog/2024/01/05/post/docs/guide.pdf#p2'>g</a><img src="other.jpg"><a href="https://x.y/photo.jpg">x</a>"#
    );
    assert_eq!(att_to_absolute(body, "/p/", "https://e.com", &Vec::new(), true), body);
}

#[test]
fn xml_text_is_escaped() {
    assert_eq!(xml_escape(r#"a<b>&"c'"#), "a&lt;b&gt;&amp;&quot;c&apos;");
    assert_eq!(sanitize_cdata("x]]>y"), "x]]]><![CDATA[>y");
    assert_eq!(tag_feed_title("rust", &Some("Blog".to_string())), "rust · Blog");
    assert_eq!(tag_feed_title("rust", &None), "rust · bckt");
}

#[test]
fn rss_tag_settings_become_sorted_sets() {
    assert_eq!(config_tag_feeds(&RssTags::Text(" web, rust ,web,, ".to_string())), strings(&["rust", "web"]));
    assert_eq!(
        config_tag_feeds(&RssTags::List(vec![Some("b".to_string()), None, Some(" a ".to_string()), Some("".to_string())])),
        strings(&["a", "b"])
    );
    assert!(config_tag_feeds(&RssTags::Other).is_empty());
}

#[test]
fn sitemap_lists_pages_posts_and_tags() {
    let permalinks = strings(&["/2024/01/01/a/", "/2024/01/02/b/", "/2024/01/03/c/"]);
    let dates = strings(&["2024-01-01T00:00:00Z", "2024-01-02T00:00:00Z", "2024-01-03T00:00:00Z"]);
    let tags = vec![strings(&["Rust"]), strings(&[]), strings(&["rust", "Go"])];
    let entries = sitemap_entries("https://e.com", 1, &permalinks, &dates, &tags);
    let view: Vec<(String, Option<String>)> = entries.iter().map(|e| (e.loc.clone(), e.lastmod.clone())).collect();
    assert_eq!(
        view,
        vec![
            ("https://e.com/".to_string(), Some("2024-01-03T00:00:00Z".to_string())),
            ("https://e.com/page/1/".to_string(), Some("2024-01-01T00:00:00Z".to_string())),
            ("https://e.com/page/2/".to_string(), Some("2024-01-02T00:00:00Z".to_string())),
            ("https://e.com/2024/01/01/a/".to_string(), Some("2024-01-01T00:00:00Z".to_string())),
            ("https://e.com/2024/01/02/b/".to_string(), Some("2024-01-02T00:00:00Z".to_string())),
            ("https://e.com/2024/01/03/c/".to_string(), Some("2024-01-03T00:00:00Z".to_string())),
            ("https://e.com/tags/go/".to_string(), Some("2024-01-03T00:00:00Z".to_string())),
            ("https://e.com/tags/rust/".to_string(), Some("2024-01-03T00:00:00Z".to_string())),
        ]
    );
    let xml = sitemap_xml(&vec![
        SitemapEntry { loc: "https://e.com/?a&b".to_string(), lastmod: None },
        SitemapEntry { loc: "https://e.com/x/".to_string(), lastmod: Some("2024".to_string()) },
    ]);
    assert_eq!(
        xml,
        "<?xml version=\"1.0\" encoding=\"utf-8\"?>\n<urlset xmlns=\"http://www.sitemaps.org/schemas/sitemap/0.9\">\n  <url>\n    <loc>https://e.com/?a&amp;b</loc>\n  </url>\n  <url>\n    <loc>https://e.com/x/</loc>\n    <lastmod>2024</lastmod>\n  </url>\n</urlset>\n"
    );
}

fn feed_date(year: i32, month: u8, day: u8, offset_seconds: i8) -> DateTime {
    DateTime {
        year,
        month,
        day,
        hour: 0,
        minute: 0,
        second: 0,
        nanosecond: 0,
        offset: TimeOffset { hours: 0, minutes: 0, seconds: offset_seconds },
    }
}

#[test]
fn feed_item_links_absolutely_and_escapes_its_parts() {
    let item = build_feed_item(
        "https://example.com/blog",
        &Some("Fish & Chips".to_string()),
        "beta",
        "/2024/02/01/beta/",
        "Beta body",
        "<p>Beta ]]> body</p>",
        &Vec::new(),
        &feed_date(2024, 2, 1, 0),
    )
    .expect("the date is written");
    assert_eq!(item.title, "Fish &amp; Chips");
    assert_eq!(item.link, "https://example.com/blog/2024/02/01/beta/");
    assert_eq!(item.guid, item.link);
    assert_eq!(item.pub_date, "Thu, 01 Feb 2024 00:00:00 +0000");
    assert_eq!(item.description, "Beta body");
    assert_eq!(item.content, "<p>Beta ]]]><![CDATA[> body</p>");
}

#[test]
fn feed_item_falls_back_to_the_slug() {
    let item = build_feed_item(
        "https://example.com",
        &Some("   ".to_string()),
        "untitled",
        "/2024/01/01/untitled/",
        "  ",
        "",
        &Vec::new(),
        &feed_date(2024, 1, 1, 0),
    )
    .expect("the date is written");
    assert_eq!(item.title, "untitled");
    assert_eq!(item.description, "untitled");
}

#[test]
fn feed_item_makes_attachment_links_absolute() {
    let item = build_feed_item(
        "https://example.com/blog",
        &None,
        "media",
        "/2024/01/01/media/",
        "",
        "<img src=\"images/pic.png\"> <a href=\"notes.txt\">x</a>",
        &vec!["images/pic.png".to_string(), "notes.txt".to_string()],
        &feed_date(2024, 1, 1, 0),
    )
    .expect("the date is written");
    assert_eq!(
        item.content,
        "<img src=\"https://example.com/blog/2024/01/01/media/images/pic.png\"> \
         <a href=\"https://example.com/blog/2024/01/01/media/notes.txt\">x</a>"
    );
}

#[test]
fn feed_item_needs_a_date_rfc_2822_can_write() {
    let early = build_feed_item("https://example.com", &None, "old", "/old/", "", "", &Vec::new(), &feed_date(1850, 1, 1, 0));
    assert!(early.is_none());
    let odd_offset = build_feed_item("https://example.com", &None, "odd", "/odd/", "", "", &Vec::new(), &feed_date(2024, 1, 1, 30));
    assert!(odd_offset.is_none());
}
