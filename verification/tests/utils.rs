use bckt::utils::{absolute_url, normalize_path};

#[test]
fn joins_root_path() {
    let url = absolute_url("https://example.com", "/");
    assert_eq!(url, "https://example.com/");
}

#[test]
fn joins_nested_path() {
    let url = absolute_url("https://example.com/blog", "/rss.xml");
    assert_eq!(url, "https://example.com/blog/rss.xml");
}

#[test]
fn trims_trailing_slash() {
    let url = absolute_url("https://example.com/", "/page/2/");
    assert_eq!(url, "https://example.com/page/2/");
}

#[test]
fn normalize_path_drops_empty_and_dot_components() {
    assert_eq!(normalize_path("files//./data.csv"), "files/data.csv");
    assert_eq!(normalize_path("./img.png"), "./img.png");
    assert_eq!(normalize_path("a/b/"), "a/b");
    assert_eq!(normalize_path("/abs/x"), "//abs/x");
}

#[test]
fn base_url_has_no_trailing_slash() {
    assert_eq!(bckt::utils::normalize_base_url("https://example.com/blog"), "https://example.com/blog");
    assert_eq!(bckt::utils::normalize_base_url(" https://example.com/blog// "), "https://example.com/blog");
}

#[test]
fn base_path_extracts_path_from_base_url() {
    assert_eq!(bckt::utils::extract_base_path("https://vrypan.net/blog/"), "/blog");
}

#[test]
fn base_path_empty_for_root_url() {
    assert_eq!(bckt::utils::extract_base_path("https://vrypan.net/"), "");
}

#[test]
fn base_path_handles_nested_paths() {
    assert_eq!(bckt::utils::extract_base_path("https://example.com/foo/bar/"), "/foo/bar");
    assert_eq!(bckt::utils::extract_base_path("not a url"), "");
}
