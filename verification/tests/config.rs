use rust_website::config::env_file::parse_env_file;
use rust_website::config::types::{
    check_config, config_path, github_tree_to_raw, ConfigError, FooterConfig, PaginationConfig, StaticSource,
};

#[test]
fn github_tree_urls_become_cdn_urls() {
    assert_eq!(
        github_tree_to_raw("https://github.com/user/repo/tree/main/static"),
        "https://cdn.jsdelivr.net/gh/user/repo@main/static"
    );
    assert_eq!(
        github_tree_to_raw("https://github.com/user/repo/tree/main"),
        "https://raw.githubusercontent.com/user/repo/main"
    );
    assert_eq!(github_tree_to_raw("https://example.org/x"), "https://example.org/x");
}

#[test]
fn static_sources_expose_their_location() {
    let local = StaticSource::Local { source: "static".into() };
    assert_eq!(local.local_dir().map(|s| s.as_str()), Some("static"));
    assert_eq!(local.github_raw_base(), None);
    let gh = StaticSource::Github { source: "https://github.com/u/r/tree/dev/assets".into() };
    assert_eq!(gh.local_dir(), None);
    assert_eq!(gh.github_raw_base().unwrap(), "https://cdn.jsdelivr.net/gh/u/r@dev/assets");
}

#[test]
fn config_checks_run_in_order() {
    assert_eq!(check_config(None, None, true, "light"), Err(ConfigError::MissingAdminToken));
    assert_eq!(check_config(Some(""), None, true, "light"), Err(ConfigError::MissingAdminToken));
    assert_eq!(check_config(Some("t"), Some(false), false, ""), Err(ConfigError::StaticDirMissing));
    assert_eq!(check_config(Some("t"), Some(true), false, ""), Err(ConfigError::ContentDirMissing));
    assert_eq!(check_config(Some("t"), None, true, "  "), Err(ConfigError::EmptyThemeName));
    assert_eq!(check_config(Some("t"), None, true, "dark"), Ok(()));
}

#[test]
fn defaults() {
    let p = PaginationConfig::default();
    assert!(!p.enabled);
    assert_eq!(PaginationConfig::default_limit(), 10_000);
    let f = FooterConfig::default();
    assert!(f.text.is_none() && f.copyright.is_none() && f.links.is_empty());
}

#[test]
fn env_file_lines_become_pairs() {
    let pairs = parse_env_file("# comment\nKEY=value\n\n  A = \"quoted\" \nNOEQ\nB==x\r\nC=\n");
    let expected: Vec<(String, String)> = vec![
        ("KEY".into(), "value".into()),
        ("A".into(), "quoted".into()),
        ("B".into(), "=x".into()),
        ("C".into(), "".into()),
    ];
    assert_eq!(pairs, expected);
    assert!(parse_env_file("").is_empty());
}

#[test]
fn config_path_prefers_argument_then_environment() {
    assert_eq!(config_path(Some("a.toml".into()), Some("b.toml".into())), "a.toml");
    assert_eq!(config_path(None, Some("b.toml".into())), "b.toml");
    assert_eq!(config_path(None, None), "config.toml");
}
