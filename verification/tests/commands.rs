use bckt::cli::ConfigArgs;
use bckt::commands::config::{config_query, ConfigQueryIssue};
use bckt::commands::init::{
    sample_post_text, seed_configuration_text, select_reference, split_owner_repo,
    GithubReference, RepoSpecIssue,
};
use bckt::commands::themes::{install_name, is_yes, theme_list_lines};
use bckt::config::Config;
use bckt::theme::{
    demo_search_paths, paths_overlap, resolve_demo, resolve_theme, safe_relative_path,
    theme_search_paths,
};

fn no_keys() -> ConfigArgs {
    ConfigArgs {
        root: None,
        root_dir: false,
        base_url: false,
        title: false,
        homepage_posts: false,
        date_format: false,
        default_timezone: false,
        theme: false,
        search_asset_path: false,
        search_default_language: false,
    }
}

#[test]
fn config_queries_answer_one_key() {
    let config = Config {
        title: Some("Blog".to_string()),
        homepage_posts: 7,
        ..Config::default()
    };
    assert_eq!(config_query(&no_keys(), &config), Err(ConfigQueryIssue::NoKey));
    let two = ConfigArgs { title: true, theme: true, ..no_keys() };
    assert_eq!(config_query(&two, &config), Err(ConfigQueryIssue::TooManyKeys));
    let title = ConfigArgs { title: true, ..no_keys() };
    assert_eq!(config_query(&title, &config), Ok(Some("Blog".to_string())));
    let posts = ConfigArgs { homepage_posts: true, ..no_keys() };
    assert_eq!(config_query(&posts, &config), Ok(Some("7".to_string())));
    let theme = ConfigArgs { theme: true, ..no_keys() };
    assert_eq!(config_query(&theme, &Config { theme: None, ..Config::default() }), Ok(None));
    let language = ConfigArgs { search_default_language: true, ..no_keys() };
    assert_eq!(config_query(&language, &config), Ok(Some("en".to_string())));
}

#[test]
fn theme_listing_marks_the_active_theme() {
    let names = vec!["zen".to_string(), "bckt3".to_string(), "alpha".to_string()];
    assert_eq!(
        theme_list_lines(&names, &Some("bckt3".to_string())),
        vec!["  alpha".to_string(), "* bckt3".to_string(), "  zen".to_string()]
    );
    assert!(theme_list_lines(&Vec::new(), &None).is_empty());
}

#[test]
fn theme_install_names_and_answers() {
    assert_eq!(install_name("/tmp/dl/bckt3.zip", &None), Some("bckt3".to_string()));
    assert_eq!(install_name("/tmp/dl/my.theme.zip", &None), Some("my.theme".to_string()));
    assert_eq!(install_name("/tmp/dl/.hidden", &None), Some(".hidden".to_string()));
    assert_eq!(install_name("/tmp/x.zip", &Some("custom".to_string())), Some("custom".to_string()));
    assert_eq!(install_name("/", &None), None);
    assert!(is_yes(" Yes\n"));
    assert!(is_yes("y"));
    assert!(!is_yes("no"));
    assert!(!is_yes(""));
}

#[test]
fn github_references_and_repositories() {
    assert!(matches!(select_reference(Some("v1".to_string()), Some("dev".to_string())), GithubReference::Tag(t) if t == "v1"));
    assert!(matches!(select_reference(None, Some("dev".to_string())), GithubReference::Branch(b) if b == "dev"));
    assert!(matches!(select_reference(None, None), GithubReference::Branch(b) if b == "main"));
    assert_eq!(split_owner_repo("vrypan/bckt-themes"), Ok(("vrypan".to_string(), "bckt-themes".to_string())));
    assert_eq!(split_owner_repo("vrypan"), Err(RepoSpecIssue::MissingRepository));
    assert_eq!(split_owner_repo("/repo"), Err(RepoSpecIssue::Invalid));
}

#[test]
fn starter_files() {
    let config = seed_configuration_text("bckt3");
    assert!(config.ends_with("theme: bckt3\n"));
    assert!(config.starts_with("title: \"My bckt Site\"\n"));
    assert!(sample_post_text().starts_with("---\ntitle: \"Hello From bckt\"\n"));
}

#[test]
fn theme_lookup_paths() {
    let roots = vec!["/usr/share/bckt".to_string(), "/opt/bckt/".to_string()];
    assert_eq!(
        theme_search_paths(&roots),
        vec!["/usr/share/bckt/themes".to_string(), "/opt/bckt/themes".to_string()]
    );
    assert_eq!(demo_search_paths(&roots), vec!["/usr/share/bckt/demo".to_string(), "/opt/bckt/demo".to_string()]);
    let missing = resolve_theme("no-such-theme", &roots).unwrap_err();
    assert_eq!((missing.spec.as_str(), missing.direct), ("no-such-theme", false));
    let missing = resolve_theme("/no/such/theme.zip", &roots).unwrap_err();
    assert!(missing.direct);
    assert_eq!(resolve_theme("/", &roots).unwrap(), "/");
    assert_eq!(resolve_demo("/", &roots).unwrap(), "/");
    assert!(resolve_demo("no-such-demo", &roots).is_err());
}

#[test]
fn archive_entries_cannot_escape() {
    assert_eq!(safe_relative_path("templates/post.html"), Some("templates/post.html".to_string()));
    assert_eq!(safe_relative_path("./a//b/./c"), Some("a/b/c".to_string()));
    assert_eq!(safe_relative_path("../escape.txt"), None);
    assert_eq!(safe_relative_path("a/../../b"), None);
    assert_eq!(safe_relative_path("/etc/passwd"), None);
    assert_eq!(safe_relative_path("./"), None);
}

#[test]
fn overlapping_install_paths() {
    assert!(paths_overlap("/site/themes/bckt3", "/site/themes/bckt3"));
    assert!(paths_overlap("/site/themes", "/site/themes/bckt3"));
    assert!(paths_overlap("/site/themes/bckt3/", "/site/themes"));
    assert!(!paths_overlap("/site/themes/a", "/site/themes/ab"));
}

#[test]
fn theme_lookup_asks_archive_then_directory_per_root() {
    let roots = vec!["/a".to_string(), "/b".to_string()];
    let probes = bckt::theme::theme_probes("bckt3", &roots);
    let asked: Vec<String> = probes.iter().map(|p| p.path.clone()).collect();
    assert_eq!(
        asked,
        vec![
            "/a/themes/bckt3.zip".to_string(),
            "/a/themes/bckt3".to_string(),
            "/b/themes/bckt3.zip".to_string(),
            "/b/themes/bckt3".to_string(),
        ]
    );
    assert_eq!(
        bckt::theme::pick_theme("bckt3", &roots, &vec![false, false, false, true]).unwrap(),
        "/b/themes/bckt3"
    );
    let missing = bckt::theme::pick_theme("bckt3", &roots, &vec![false; 4]).unwrap_err();
    assert_eq!(missing.spec, "bckt3");
    assert!(!missing.direct);
    let direct = bckt::theme::pick_theme("./mine.zip", &roots, &vec![true]).unwrap();
    assert_eq!(direct, "./mine.zip");
}

#[test]
fn demo_lookup_asks_each_root() {
    let roots = vec!["/a".to_string(), "/b".to_string()];
    let probes = bckt::theme::demo_probes("articles", &roots);
    assert_eq!(probes.len(), 2);
    assert_eq!(probes[1].path, "/b/demo/articles");
    assert_eq!(bckt::theme::pick_demo("articles", &roots, &vec![false, true]).unwrap(), "/b/demo/articles");
    assert!(bckt::theme::pick_demo("articles", &roots, &vec![false, false]).is_err());
}
