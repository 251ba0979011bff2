use bckt::embeds::{cast_key, quote_embedded_cast, EmbedState, MediaAction, UrlStep};
use bckt::farcaster::{cast_slug, cast_slug_checked, mentions_in_order, splice_mentions, 
    append_quote, cast_post_contents, ensure_handle, epoch_seconds, image_extension_from_mime,
    is_video_mime, looks_like_video_url, parse_castid, CastIdIssue,
};

#[test]
fn cast_ids_split_at_the_first_slash() {
    assert_eq!(
        parse_castid("alice/0xabc/def"),
        Ok(("alice".to_string(), "0xabc/def".to_string()))
    );
    assert_eq!(parse_castid("alice"), Err(CastIdIssue::MissingHash));
    assert_eq!(parse_castid("/0xabc"), Err(CastIdIssue::Malformed));
    assert_eq!(parse_castid("alice/"), Err(CastIdIssue::Malformed));
}

#[test]
fn handles_get_one_at_sign() {
    assert_eq!(ensure_handle(" alice "), "@alice");
    assert_eq!(ensure_handle("@bob"), "@bob");
    assert_eq!(ensure_handle("@@carol"), "@@carol");
}

#[test]
fn quotes_are_attributed() {
    let mut body = String::from("Intro\n");
    append_quote(&mut body, "@alice", "line one   \n\nline two");
    assert_eq!(body, "Intro\n> line one\n>\n> line two\n>\n> --@alice\n");
    let mut empty = String::from("x");
    append_quote(&mut empty, "@alice", "");
    assert_eq!(empty, "x");
}

#[test]
fn media_types_choose_extensions() {
    assert_eq!(image_extension_from_mime("image/jpeg"), Some("jpg".to_string()));
    assert_eq!(image_extension_from_mime(" image/svg+xml; charset=utf-8"), Some("svg".to_string()));
    assert_eq!(image_extension_from_mime("image/png"), Some("png".to_string()));
    assert_eq!(image_extension_from_mime("text/html"), None);
    assert!(is_video_mime("Video/MP4; codecs=x"));
    assert!(is_video_mime("application/x-mpegURL"));
    assert!(!is_video_mime("image/gif"));
    assert!(looks_like_video_url("https://cdn.example/clip.mp4?sig=1"));
    assert!(looks_like_video_url("https://stream.example/live.m3u8"));
    assert!(!looks_like_video_url("https://example.com/page?file=a.mp4"));
}

#[test]
fn farcaster_timestamps_become_unix_seconds() {
    assert_eq!(epoch_seconds(0), Some(1_609_459_200));
    assert_eq!(epoch_seconds(100), Some(1_609_459_300));
    assert_eq!(epoch_seconds(1_700_000_000_123), Some(1_700_000_000));
    assert_eq!(epoch_seconds(-1), None);
}

#[test]
fn cast_post_file_layout() {
    let contents = cast_post_contents(
        "hello",
        "2024-01-05T10:00:00Z",
        "alice/0xabc",
        &vec!["image01.jpg".to_string()],
        &vec!["image01.jpg".to_string()],
        &Vec::new(),
        "Body text",
    );
    assert_eq!(
        contents,
        "---\ntitle: \"\"\nslug: \"hello\"\ndate: \"2024-01-05T10:00:00Z\"\ntype: farcaster\ncastid: alice/0xabc\nattached:\n  - image01.jpg\nimages:\n  - image01.jpg\n---\n\nBody text\n"
    );
}

#[test]
fn url_embeds_are_classified_once() {
    let mut state = EmbedState::new();
    let body = "see ftp://files.example/a";
    assert_eq!(state.begin_url(body, "ftp://files.example/a"), UrlStep::NotWeb);
    assert!(state.links.is_empty());
    assert_eq!(state.begin_url(body, "mailto:me@example.com"), UrlStep::NotWeb);
    assert_eq!(state.links, vec!["mailto:me@example.com".to_string()]);
    assert_eq!(state.begin_url(body, "https://example.com/x.png"), UrlStep::Fetch);
    assert_eq!(state.begin_url(body, "https://example.com/x.png"), UrlStep::Repeat);
    assert_eq!(state.seen, vec!["https://example.com/x.png".to_string()]);
}

#[test]
fn media_downloads_are_numbered() {
    let mut state = EmbedState::new();
    let image = state.choose_media("", "https://e.com/a", &Some("image/jpeg".to_string()), true);
    match image {
        MediaAction::Image { filename } => {
            assert_eq!(filename, "image01.jpg");
            state.record_image("", "https://e.com/a", &filename, true);
        }
        _ => panic!("expected an image"),
    }
    assert_eq!(state.image_index, 2);
    let video = state.choose_media("", "https://e.com/CLIP.MP4", &None, true);
    match video {
        MediaAction::Video { prefix } => assert_eq!(prefix, "video01"),
        _ => panic!("expected a video"),
    }
    state.record_video(&vec!["video01.mp4".to_string(), "image01.jpg".to_string()]);
    assert_eq!(state.video_index, 2);
    assert_eq!(state.attachments, vec!["image01.jpg".to_string(), "video01.mp4".to_string()]);
    assert_eq!(state.images, vec!["image01.jpg".to_string()]);
    assert_eq!(state.videos, vec!["video01.mp4".to_string(), "image01.jpg".to_string()]);

    let skipped = state.choose_media("", "https://e.com/b.mp4", &None, false);
    assert!(matches!(skipped, MediaAction::Link));
    assert_eq!(state.links, vec!["https://e.com/b.mp4".to_string()]);

    let failed = state.choose_media("x https://e.com/c", "https://e.com/c", &Some("image/png".to_string()), false);
    match failed {
        MediaAction::Image { filename } => {
            assert_eq!(filename, "image02.png");
            state.record_image("x https://e.com/c", "https://e.com/c", &filename, false);
        }
        _ => panic!("expected an image"),
    }
    assert_eq!(state.links.len(), 1);
}

#[test]
fn embedded_casts_are_quoted_once() {
    assert_eq!(cast_key(42, "0xdead"), "cast:42:0xdead");
    let mut state = EmbedState::new();
    assert!(state.begin_cast(42, "0xdead"));
    assert!(!state.begin_cast(42, "0xdead"));
    let mut body = String::from("Hello");
    assert!(!quote_embedded_cast(&mut body, "@bob", "   "));
    assert_eq!(body, "Hello");
    assert!(quote_embedded_cast(&mut body, "@bob", " quoted "));
    assert_eq!(body, "Hello\n\n> quoted\n>\n> --@bob\n");
}

#[test]
fn links_close_the_body() {
    let mut state = EmbedState::new();
    let mut body = String::from("Text\n");
    state.finish_links(&mut body);
    assert_eq!(body, "Text\n");
    state.begin_url("", "gopher://a");
    state.begin_url("", "gopher://b");
    state.finish_links(&mut body);
    assert_eq!(body, "Text\n\ngopher://a\ngopher://b\n");
}

#[test]
fn apply_mentions_respects_byte_offsets() {
    let mentions = vec![(2usize, "@alice".to_string())];
    assert!(mentions_in_order("éa", &mentions));
    assert_eq!(splice_mentions("éa", &mentions), "é@alicea");
}

#[test]
fn mentions_replace_their_marker() {
    let mentions = vec![(3usize, "@bob".to_string())];
    assert_eq!(splice_mentions("hi @ there", &mentions), "hi @bob there");
    let inside = vec![(1usize, "@x".to_string())];
    assert_eq!(splice_mentions("é", &inside), "@xé");
    let past_end = vec![(99usize, "@y".to_string())];
    assert_eq!(splice_mentions("ab", &past_end), "ab@y");
}

#[test]
fn mentions_out_of_order_are_refused() {
    let mentions = vec![(3usize, "@a".to_string()), (1usize, "@b".to_string())];
    assert!(!mentions_in_order("abcdef", &mentions));
    let repeated = vec![(1usize, "@a".to_string()), (1usize, "@b".to_string())];
    assert!(mentions_in_order("abc", &repeated));
    assert_eq!(splice_mentions("abc", &repeated), "a@a@bbc");
}

#[test]
fn cast_slugs_use_ten_bytes_of_the_hash() {
    assert_eq!(cast_slug("2024-05-01", "0x1234567890abcdef"), "fc-2024-05-01-0x12345678");
    assert_eq!(cast_slug("2024-05-01", "0xab"), "fc-2024-05-01-0xab");
}

#[test]
fn checked_cast_slug_refuses_a_cut_inside_a_character() {
    assert_eq!(
        cast_slug_checked("2024-05-01", "0x1234567890abcdef"),
        Some("fc-2024-05-01-0x12345678".to_string())
    );
    assert_eq!(cast_slug_checked("2024-05-01", "0xab"), Some("fc-2024-05-01-0xab".to_string()));
    assert_eq!(cast_slug_checked("2024-05-01", "123456789\u{e9}x"), None);
    assert_eq!(
        cast_slug_checked("2024-05-01", "12345678\u{e9}x"),
        Some("fc-2024-05-01-12345678\u{e9}".to_string())
    );
}

#[test]
fn cast_post_file_reads_back() {
    let file = cast_post_contents(
        "fc-2024-05-01-0xabc",
        "2024-05-01T10:00:00Z",
        "alice/0xabc",
        &vec!["clip.mp4".to_string()],
        &vec!["image1.jpg".to_string(), "image2.png".to_string()],
        &Vec::new(),
        "hello\nworld",
    );
    let (yaml, body) = bckt::content::parse_front_matter(&file).unwrap();
    assert_eq!(
        yaml,
        "title: \"\"\nslug: \"fc-2024-05-01-0xabc\"\ndate: \"2024-05-01T10:00:00Z\"\ntype: farcaster\ncastid: alice/0xabc\nattached:\n  - clip.mp4\nimages:\n  - image1.jpg\n  - image2.png"
    );
    assert_eq!(body, "hello\nworld");
}

#[test]
fn mentions_are_deduplicated_and_ordered_by_position() {
    let fids = vec![7u64, 3, 7, 9];
    let positions = vec![10usize, 2, 10, 2];
    assert_eq!(bckt::farcaster::mention_order(&fids, &positions), vec![(2, 3), (2, 9), (10, 7)]);
    assert!(bckt::farcaster::mention_order(&fids, &Vec::new()).is_empty());
}
