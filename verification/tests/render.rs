use bckt::cli::RenderArgs;
use bckt::commands::render::determine_plan;
use bckt::render::pagination::{compute_pagination_layout, page_ranges, pagination_context};
use bckt::render::plan::{effective_mode, needs_render, BuildMode};

#[test]
fn plan_defaults_to_both_when_flags_missing() {
    let plan = determine_plan(RenderArgs {
        posts: false,
        static_assets: false,
        changed: false,
        force: false,
        verbose: false,
    });
    assert!(plan.posts);
    assert!(plan.static_assets);
    assert!(matches!(plan.mode, BuildMode::Full));
    assert!(!plan.verbose);
}

#[test]
fn plan_respects_individual_flags() {
    let plan = determine_plan(RenderArgs {
        posts: true,
        static_assets: false,
        changed: false,
        force: false,
        verbose: false,
    });
    assert!(plan.posts);
    assert!(!plan.static_assets);
    assert!(matches!(plan.mode, BuildMode::Full));
    assert!(!plan.verbose);

    let plan = determine_plan(RenderArgs {
        posts: false,
        static_assets: true,
        changed: false,
        force: false,
        verbose: true,
    });
    assert!(!plan.posts);
    assert!(plan.static_assets);
    assert!(matches!(plan.mode, BuildMode::Full));
    assert!(plan.verbose);
}

#[test]
fn plan_enters_changed_mode_when_requested() {
    let plan = determine_plan(RenderArgs {
        posts: false,
        static_assets: false,
        changed: true,
        force: false,
        verbose: false,
    });
    assert!(plan.posts);
    assert!(plan.static_assets);
    assert!(matches!(plan.mode, BuildMode::Changed));
    assert!(!plan.verbose);
}

#[test]
fn force_overrides_changed_mode() {
    let plan = determine_plan(RenderArgs {
        posts: false,
        static_assets: false,
        changed: true,
        force: true,
        verbose: false,
    });
    assert!(matches!(plan.mode, BuildMode::Full));
}

#[test]
fn pagination_with_one_post_per_page() {
    let layout = compute_pagination_layout(3, 1);
    assert_eq!(layout.per_page, 1);
    assert_eq!(layout.regular_page_count, 2);
    let ranges = page_ranges(3, 1);
    assert_eq!(ranges.len(), 3);
    assert_eq!((ranges[0].page_number, ranges[0].start, ranges[0].end), (1, 0, 1));
    assert_eq!((ranges[1].page_number, ranges[1].start, ranges[1].end), (2, 1, 2));
    assert_eq!((ranges[2].page_number, ranges[2].start, ranges[2].end), (0, 2, 3));
}

#[test]
fn pagination_homepage_absorbs_remainder() {
    let layout = compute_pagination_layout(7, 3);
    assert_eq!(layout.regular_page_count, 1);
    let ranges = page_ranges(7, 3);
    assert_eq!((ranges[1].page_number, ranges[1].start, ranges[1].end), (0, 3, 7));
    let layout = compute_pagination_layout(2, 5);
    assert_eq!(layout.regular_page_count, 0);
    let layout = compute_pagination_layout(4, 0);
    assert_eq!(layout.per_page, 1);
    assert_eq!(layout.regular_page_count, 3);
}

#[test]
fn pagination_links_follow_page_order() {
    let home = pagination_context(0, 2);
    assert_eq!((home.current, home.total), (3, 3));
    assert_eq!(home.prev, "/page/2/");
    assert_eq!(home.next, "");
    let second = pagination_context(2, 2);
    assert_eq!(second.prev, "/page/1/");
    assert_eq!(second.next, "/");
    let first = pagination_context(1, 2);
    assert_eq!(first.prev, "");
    assert_eq!(first.next, "/page/2/");
    let only = pagination_context(0, 0);
    assert_eq!(only.prev, "");
    assert_eq!((only.current, only.total), (1, 1));
}

#[test]
fn attachments_are_keyed_and_typed() {
    let (key, mime) = bckt::render::posts::attachment_entry("img//a.png", "/posts/p/img/a.png");
    assert_eq!(key, "img/a.png");
    assert_eq!(mime, "image/png");
    let (_, other) = bckt::render::posts::attachment_entry("data.bin", "/posts/p/data.unknownext");
    assert_eq!(other, "application/octet-stream");
}

#[test]
fn unchanged_outputs_are_skipped_only_on_incremental_runs() {
    let digest = "abc".to_string();
    let stored = Some(digest.clone());
    let quiet = effective_mode(BuildMode::Changed, false);
    assert!(!needs_render(quiet, &stored, &digest, true));
    assert!(needs_render(quiet, &stored, &digest, false));
    assert!(needs_render(quiet, &Some("old".to_string()), &digest, true));
    assert!(needs_render(quiet, &None, &digest, true));
    assert!(needs_render(effective_mode(BuildMode::Changed, true), &stored, &digest, true));
    assert!(needs_render(effective_mode(BuildMode::Full, false), &stored, &digest, true));
}

#[test]
fn attachment_paths_are_normalized_sorted_and_relative() {
    let paths = vec!["img//b.png".to_string(), "./a.txt".to_string(), "img/b.png".to_string()];
    assert_eq!(
        bckt::render::posts::convert_paths(&paths),
        Ok(vec!["./a.txt".to_string(), "img/b.png".to_string()])
    );
    let bad = vec!["ok.txt".to_string(), "/etc/passwd".to_string(), "/x".to_string()];
    assert_eq!(bckt::render::posts::convert_paths(&bad), Err("/etc/passwd".to_string()));
}

#[test]
fn stale_cache_keys_are_those_not_kept() {
    let stored = vec!["feed:/a.xml".to_string(), "feed:/b.xml".to_string(), "feed:/c.xml".to_string()];
    let keep = vec!["feed:/b.xml".to_string()];
    assert_eq!(
        bckt::render::plan::stale_keys(&stored, &keep),
        vec!["feed:/a.xml".to_string(), "feed:/c.xml".to_string()]
    );
    assert!(bckt::render::plan::stale_keys(&stored, &stored).is_empty());
}

#[test]
fn feeds_list_newest_first_and_filter_by_tag() {
    let tags = vec![
        vec!["rust".to_string()],
        vec![],
        vec!["rust".to_string(), "web".to_string()],
    ];
    assert_eq!(bckt::render::feeds::feed_items(&tags, &None), vec![2, 1, 0]);
    assert_eq!(bckt::render::feeds::feed_items(&tags, &Some("rust".to_string())), vec![2, 0]);
    assert!(bckt::render::feeds::feed_items(&tags, &Some("go".to_string())).is_empty());
    let many: Vec<Vec<String>> = (0..60).map(|_| vec![]).collect();
    let items = bckt::render::feeds::feed_items(&many, &None);
    assert_eq!(items.len(), 50);
    assert_eq!(items[0], 59);
    assert_eq!(items[49], 10);
}

#[test]
fn posts_are_published_by_date_then_slug() {
    let keys = vec![
        (20i128, "b".to_string()),
        (10, "z".to_string()),
        (20, "a".to_string()),
        (10, "z".to_string()),
    ];
    assert_eq!(bckt::render::posts::publication_order(&keys), vec![1, 3, 2, 0]);
    assert!(bckt::render::posts::publication_order(&Vec::new()).is_empty());
}
