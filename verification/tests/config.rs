use bsearch::cli::{self, at_uri_to_web_url, plan_search, SearchPlan};
use bsearch::ingest::build_post_uri;
use bsearch::text::{parse_i64, parse_u64, trim};
use bsearch::config::{cache_dir, join_path, lookup, parse_env_file, Config, ConfigError, EnvValues};

#[test]
fn test_parses_equals_format() {
    let values = parse_env_file("user=alice.bsky.social\npassword=hunter2\n");
    assert_eq!(values.get("user").unwrap(), "alice.bsky.social");
    assert_eq!(values.get("password").unwrap(), "hunter2");
}

#[test]
fn test_parses_colon_format() {
    let values = parse_env_file("user: alice.bsky.social\npassword: hunter2\n");
    assert_eq!(values.get("user").unwrap(), "alice.bsky.social");
    assert_eq!(values.get("password").unwrap(), "hunter2");
}

#[test]
fn test_skips_comments_and_blanks() {
    let values = parse_env_file("# a comment\n\nuser=alice\n");
    assert_eq!(values.len(), 1);
    assert_eq!(values.get("user").unwrap(), "alice");
}

#[test]
fn test_value_containing_equals_is_kept_whole() {
    let values = parse_env_file("password=abc=def=ghi\n");
    assert_eq!(values.get("password").unwrap(), "abc=def=ghi");
}

#[test]
fn test_missing_file_is_not_an_error() {
    // A file that cannot be read counts as one without lines.
    let values = parse_env_file("");
    assert_eq!(values.len(), 0);
}

#[test]
fn test_defaults_when_no_env() {
    let config = cli::Config::resolve(None, None, None, None, None, Some("/home/alice"));
    assert_eq!(config.db_path, "bsearch.db");
    assert!(config.model_dir.ends_with("bsearch/all-MiniLM-L6-v2"));
}

#[test]
fn test_cli_overrides_env() {
    let config = cli::Config::resolve(
        Some("/cli/path.db".to_string()),
        None,
        Some("/env/path.db".to_string()),
        None,
        None,
        None,
    );
    assert_eq!(config.db_path, "/cli/path.db");
}

#[test]
fn test_env_var_used_when_no_cli() {
    let config = cli::Config::resolve(None, None, Some("/env/path.db".to_string()), None, None, None);
    assert_eq!(config.db_path, "/env/path.db");
}

#[test]
fn test_at_uri_to_web_url() {
    assert_eq!(
        at_uri_to_web_url("at://did:plc:abc/app.bsky.feed.post/rkey123"),
        "https://bsky.app/profile/did:plc:abc/post/rkey123"
    );
}

#[test]
fn test_at_uri_to_web_url_passthrough() {
    assert_eq!(at_uri_to_web_url("https://example.com"), "https://example.com");
}

#[test]
fn lines_end_in_either_way_and_the_last_value_stands() {
    let values = parse_env_file("  user = alice \r\nuser=bob\r\nno separator\n=nameless\nurl: https://x\n");
    assert_eq!(values.get("user").unwrap(), "bob");
    assert_eq!(values.get("url").unwrap(), "https://x");
    assert!(values.get("no separator").is_none());
    assert_eq!(values.get("").unwrap(), "nameless");
    assert_eq!(values.len(), 3);
}

#[test]
fn the_environment_stands_before_the_file() {
    let mut env = EnvValues::new();
    env.insert("BSEARCH_HANDLE".to_string(), "env".to_string());
    let file = parse_env_file("BSEARCH_HANDLE=long\nuser=short\npassword=secret");
    assert_eq!(lookup(&env, &file, "BSEARCH_HANDLE", "user"), Some("env".to_string()));
    let none = EnvValues::new();
    assert_eq!(lookup(&none, &file, "BSEARCH_HANDLE", "user"), Some("long".to_string()));
    assert_eq!(lookup(&none, &file, "BSEARCH_APP_PASSWORD", "password"), Some("secret".to_string()));
    assert_eq!(lookup(&none, &none, "BSEARCH_APP_PASSWORD", "password"), None);
}

#[test]
fn credentials_are_required() {
    let none = EnvValues::new();
    let file = parse_env_file("user=alice");
    assert!(matches!(Config::from_env(&none, &file, None), Err(ConfigError::MissingCredentials)));
    let file = parse_env_file("user=alice\npassword=secret");
    let config = Config::from_env(&none, &file, Some("/home/alice")).expect("config");
    assert_eq!(config.handle, "alice");
    assert_eq!(config.app_password, "secret");
    assert_eq!(config.did, "");
    assert_eq!(config.pds_url, "https://bsky.social");
    assert_eq!(config.db_path, "bsearch.db");
    assert_eq!(config.model_dir, "/home/alice/.cache/bsearch/all-MiniLM-L6-v2");
    assert_eq!(config.jetstream_hostname, "jetstream2.us-east.bsky.network");
    assert_eq!(config.jetstream_key, None);
    assert_eq!(config.segment_spool_dir, "/home/alice/.cache/bsearch/segments");
    assert_eq!(config.like_batch_interval, 2);
    assert_eq!(config.embedding_batch_interval, 10);
    assert_eq!(config.reconnect_cursor_safety_seconds, 5);
    assert_eq!(config.embedder_idle_timeout, 300);
}

#[test]
fn paths_are_joined_with_one_separator() {
    assert_eq!(join_path("/a", "b"), "/a/b");
    assert_eq!(join_path("/a/", "b"), "/a/b");
    assert_eq!(cache_dir(Some("/home/alice"), "x"), "/home/alice/.cache/bsearch/x");
}

#[test]
fn the_settings_file_is_asked_last() {
    let config = cli::Config::resolve(None, None, None, Some("/env/model".to_string()), Some("/file.db".to_string()), None);
    assert_eq!(config.db_path, "/file.db");
    assert_eq!(config.model_dir, "/env/model");
}

#[test]
fn searches_are_planned_from_the_arguments() {
    assert_eq!(plan_search(false, false, "hybrid"), SearchPlan::Refuse);
    assert_eq!(plan_search(false, true, "keyword"), SearchPlan::ListByHandle);
    assert_eq!(plan_search(true, false, "keyword"), SearchPlan::Keyword);
    assert_eq!(plan_search(true, true, "semantic"), SearchPlan::Semantic);
    assert_eq!(plan_search(true, false, "hybrid"), SearchPlan::Hybrid);
    assert!(!SearchPlan::Keyword.needs_embedding());
    assert!(SearchPlan::Semantic.needs_embedding());
    assert!(SearchPlan::Hybrid.needs_embedding());
}

#[test]
fn addresses_with_other_shapes_are_kept() {
    assert_eq!(at_uri_to_web_url("at://did:plc:abc"), "at://did:plc:abc");
    assert_eq!(at_uri_to_web_url("at://alice/app.bsky.feed.like/r"), "at://alice/app.bsky.feed.like/r");
    assert_eq!(at_uri_to_web_url(""), "");
    assert_eq!(
        at_uri_to_web_url("at://alice/app.bsky.feed.post/r/more"),
        "https://bsky.app/profile/alice/post/r"
    );
}

#[test]
fn indexed_posts_have_links() {
    assert_eq!(
        at_uri_to_web_url(&build_post_uri("did:plc:abc", "r1")),
        "https://bsky.app/profile/did:plc:abc/post/r1"
    );
}

#[test]
fn numbers_are_read_as_written() {
    for value in [0, 7, 10, u64::MAX] {
        assert_eq!(parse_u64(&value.to_string()), Some(value));
    }
    assert_eq!(parse_u64("+7"), Some(7));
    assert_eq!(parse_u64("-7"), None);
    assert_eq!(parse_u64(""), None);
    assert_eq!(parse_u64("+"), None);
    assert_eq!(parse_u64("18446744073709551616"), None);
    assert_eq!(parse_u64("1 "), None);
    for value in [i64::MIN, -1, 0, i64::MAX] {
        assert_eq!(parse_i64(&value.to_string()), Some(value));
    }
    assert_eq!(parse_i64("-9223372036854775809"), None);
    assert_eq!(parse_i64("-"), None);
}

#[test]
fn white_space_is_trimmed_as_unicode_has_it() {
    for text in [" a b ", "\u{a0}x\u{2003}", "\t\r\n", "", "\u{200b}y", "\u{85}z\u{1680}"] {
        assert_eq!(trim(text), text.trim());
    }
}
