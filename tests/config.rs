use navi::config::{Config, Exclusions};

#[test]
fn test_default_config() {
    let config = Config::default();
    assert!(config.exclusions.page_patterns.is_empty());
    assert!(!config.should_exclude_page("Test Page", "https://example.com/test"));
}

#[test]
fn test_exclude_page_with_pattern() {
    let mut config = Config::default();
    config
        .exclusions
        .page_patterns
        .push("(?i).*temp.*".to_string());

    assert!(config.should_exclude_page("My temp notes", "https://example.com/notes"));
    assert!(config.should_exclude_page("Temporary", "https://example.com/notes"));

    assert!(!config.should_exclude_page("My notes", "https://example.com/notes"));
}

#[test]
fn test_exclude_page_with_url_pattern() {
    let mut config = Config::default();
    config
        .exclusions
        .page_patterns
        .push("https://.*/draft-.*".to_string());

    assert!(config.should_exclude_page("My notes", "https://example.com/draft-123"));
    assert!(config.should_exclude_page("Draft", "https://notion.so/draft-abc"));

    assert!(!config.should_exclude_page("My notes", "https://example.com/notes"));
}

#[test]
fn test_invalid_regex_pattern() {
    let mut config = Config::default();
    config.exclusions.page_patterns.push("[invalid".to_string());

    assert!(!config.should_exclude_page("Test", "https://example.com/test"));
}

#[test]
fn test_exclude_page_title_exact_match() {
    let mut config = Config::default();
    config
        .exclusions
        .page_patterns
        .push("^My Special Page$".to_string());
    assert!(config.should_exclude_page("My Special Page", "https://example.com/anything"));
    assert!(!config.should_exclude_page("My Special Page 2", "https://example.com/anything"));
}

#[test]
fn test_parse_last_edited_excludes_pages() {
    let mut config = Config::default();
    config
        .exclusions
        .page_patterns
        .push(".*exclude.*".to_string());

    assert!(config.should_exclude_page("exclude this page", "https://example.com"));
    assert!(!config.should_exclude_page("include this page", "https://example.com"));
}

#[test]
fn invalid_pattern_is_skipped_and_later_patterns_still_apply() {
    let config = Config {
        exclusions: Exclusions {
            page_patterns: vec!["[invalid".to_string(), "^Draft".to_string()],
        },
    };
    assert!(config.should_exclude_page("Draft plan", "https://example.com/x"));
    assert!(!config.should_exclude_page("Final plan", "https://example.com/x"));
}

#[test]
fn default_exclusions_are_empty() {
    assert!(Exclusions::default().page_patterns.is_empty());
}
