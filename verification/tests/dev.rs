use bckt::cli::DevArgs;
use bckt::dev::{
    dev_plan, inject_live_reload, parse_since, poll_reply, resolve_path, split_once_str, split_url,
    PathRejected, SinceIssue,
};
use bckt::render::plan::BuildMode;

const LIVE_RELOAD_ID: &str = "__bucket3_live_reload__";
const LIVE_RELOAD_SNIPPET: &str = r#"<script id=\"__bucket3_live_reload__\">(function(){if(window.__bucket3LiveReload){return;}window.__bucket3LiveReload=true;let last=0;async function poll(){try{const res=await fetch('/__bucket3__/poll?since='+last+'&_='+(Date.now()),{cache:'no-store'});if(res.ok){const data=await res.json();if(typeof data.timestamp==='number'){last=data.timestamp;}if(data.reload){window.location.reload();return;}}}catch(e){}setTimeout(poll,1000);}poll();})();</script>"#;

#[test]
fn injects_snippet_before_body() {
    let html = "<html><body><p>Hi</p></body></html>";
    let with_reload = inject_live_reload(html, 42);
    assert!(with_reload.contains(LIVE_RELOAD_ID));
    assert!(with_reload.contains("last=42"));
    assert!(with_reload.ends_with("</body></html>"));
}

#[test]
fn injects_snippet_at_end_when_no_body() {
    let html = "<html><p>Hi</p></html>";
    let with_reload = inject_live_reload(html, 7);
    assert!(with_reload.contains(LIVE_RELOAD_ID));
    assert!(with_reload.ends_with("</html>"));
}

#[test]
fn does_not_duplicate_snippet() {
    let html = format!("<html><body><div></div>{LIVE_RELOAD_SNIPPET}</body></html>");
    let result = inject_live_reload(&html, 99);
    let count = result.matches(LIVE_RELOAD_ID).count();
    assert_eq!(count, 1);
}

#[test]
fn parse_since_reads_query_value() {
    let since = parse_since("since=123&foo=bar").unwrap();
    assert_eq!(since, 123);
}

#[test]
fn parse_since_fails_without_value() {
    assert!(parse_since("foo=bar").is_err());
}

#[test]
fn snippet_goes_before_the_last_body_tag() {
    let html = "<body>a</body><body>b</body>";
    let out = inject_live_reload(html, 5);
    let snippet = LIVE_RELOAD_SNIPPET.replace("last=0", "last=5");
    assert_eq!(out, format!("<body>a</body><body>b{snippet}</body>"));
}

#[test]
fn snippet_is_appended_without_closing_tags() {
    let out = inject_live_reload("plain", 0);
    assert_eq!(out, format!("plain{LIVE_RELOAD_SNIPPET}"));
}

#[test]
fn parse_since_errors() {
    assert_eq!(parse_since("since=abc"), Err(SinceIssue::NotANumber));
    assert_eq!(parse_since("a=1&since=%FF"), Err(SinceIssue::Undecodable));
    assert_eq!(parse_since("since"), Err(SinceIssue::Missing));
    assert_eq!(parse_since("x=1&since=%31%32"), Ok(12));
}

#[test]
fn poll_reply_compares_with_since() {
    assert_eq!(
        poll_reply(&Some("since=10".to_string()), 12),
        "{\"reload\":true,\"timestamp\":12}"
    );
    assert_eq!(
        poll_reply(&Some("since=12".to_string()), 12),
        "{\"reload\":false,\"timestamp\":12}"
    );
    assert_eq!(poll_reply(&None, 3), "{\"reload\":true,\"timestamp\":3}");
    assert_eq!(poll_reply(&None, 0), "{\"reload\":false,\"timestamp\":0}");
}

#[test]
fn split_url_at_first_question_mark() {
    assert_eq!(split_url("/a/b?x=1?y"), ("/a/b".to_string(), Some("x=1?y".to_string())));
    assert_eq!(split_url("/plain"), ("/plain".to_string(), None));
    assert_eq!(split_once_str("k=v=w", '='), ("k".to_string(), Some("v=w".to_string())));
}

#[test]
fn resolve_path_maps_requests_to_files() {
    let root = "/nonexistent-bckt-root";
    assert_eq!(
        resolve_path(root, "/2024/01/post/"),
        Ok(("/nonexistent-bckt-root/2024/01/post".to_string(), false))
    );
    assert_eq!(
        resolve_path(root, "/a/page.HTML?x=1"),
        Ok(("/nonexistent-bckt-root/a/page.HTML".to_string(), true))
    );
    assert_eq!(
        resolve_path(root, "/"),
        Ok(("/nonexistent-bckt-root/index.html".to_string(), true))
    );
    assert_eq!(
        resolve_path(root, "/caf%C3%A9.css"),
        Ok(("/nonexistent-bckt-root/caf\u{e9}.css".to_string(), false))
    );
    assert_eq!(resolve_path(root, "/../etc/passwd"), Err(PathRejected::Escapes));
    assert_eq!(resolve_path(root, "/%FF"), Err(PathRejected::Undecodable));
}

#[test]
fn dev_server_renders_incrementally_unless_forced() {
    let args = DevArgs {
        root: None,
        host: "127.0.0.1".to_string(),
        port: 4000,
        force: false,
        verbose: true,
    };
    let plan = dev_plan(&args);
    assert!(plan.posts && plan.static_assets && plan.verbose);
    assert_eq!(plan.mode, BuildMode::Changed);
    let plan = dev_plan(&DevArgs { force: true, ..args });
    assert_eq!(plan.mode, BuildMode::Full);
}

#[test]
fn injecting_twice_changes_nothing() {
    for page in ["<html><body><p>x</p></body></html>", "<html><p>x</p></html>", "<p>bare</p>", ""] {
        let once = inject_live_reload(page, 5);
        assert_eq!(inject_live_reload(&once, 77), once);
        assert_eq!(once.matches(LIVE_RELOAD_ID).count(), 1);
    }
}

#[test]
fn requests_never_leave_the_site_root() {
    let root = "/nonexistent-bckt-root";
    assert_eq!(resolve_path(root, "//etc/passwd"), Err(PathRejected::Escapes));
    assert_eq!(resolve_path(root, "/a/%2E%2E/%2E%2E/secret"), Err(PathRejected::Escapes));
    assert_eq!(resolve_path(root, "/%2Fetc"), Err(PathRejected::Escapes));
    assert_eq!(
        resolve_path(root, "/./a//b/./c.css"),
        Ok(("/nonexistent-bckt-root/a/b/c.css".to_string(), false))
    );
}

#[test]
fn served_files_get_their_content_type() {
    assert_eq!(bckt::dev::content_type("/site/index.html", true), "text/html; charset=utf-8");
    assert_eq!(bckt::dev::content_type("/site/style.css", false), "text/css");
    assert_eq!(bckt::dev::content_type("/site/photo.png", false), "image/png");
    assert_eq!(bckt::dev::content_type("/site/blob.unknownext", false), "application/octet-stream");
}

#[test]
fn directories_are_served_through_their_index() {
    assert_eq!(bckt::dev::choose_target("/site/2024", true), ("/site/2024/index.html".to_string(), true));
    assert_eq!(bckt::dev::choose_target("/site/a.HTML", false), ("/site/a.HTML".to_string(), true));
    assert_eq!(bckt::dev::choose_target("/site/a.css", false), ("/site/a.css".to_string(), false));
    assert_eq!(bckt::dev::request_candidate("/site", "/a/./b.css?x"), Ok("/site/a/b.css".to_string()));
}
