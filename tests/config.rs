use watson::config::default_web_searches;
use watson::{FileSearchSettings, Settings};

#[test]
fn test_default_settings() {
    let settings = Settings::default();
    assert_eq!(settings.activation.hotkey, "Alt+Space");
    assert_eq!(settings.search.max_results, 8);
    assert!(settings.general.launch_at_login);
}

#[test]
fn test_default_web_searches_count() {
    let settings = Settings::default();
    assert!(settings.web_searches.len() >= 6);
}

#[test]
fn test_web_search_keywords_unique() {
    let settings = Settings::default();
    let keywords: Vec<_> = settings.web_searches.iter().map(|w| &w.keyword).collect();
    let unique: std::collections::HashSet<_> = keywords.iter().collect();
    assert_eq!(keywords.len(), unique.len(), "Web search keywords must be unique");
}

#[test]
fn default_jira_shortcut_needs_setup() {
    let shortcuts = default_web_searches();
    assert_eq!(shortcuts.len(), 7);
    let jira = &shortcuts[6];
    assert_eq!(jira.keyword, "jira");
    assert!(jira.requires_setup);
    assert!(jira.instance.is_none());
    assert_eq!(jira.url, "https://{instance}.atlassian.net/browse/{query}");
    assert_eq!(shortcuts[0].url, "https://www.google.com/search?q={query}");
}

#[test]
fn default_file_search_settings() {
    let f = FileSearchSettings::default();
    assert!(f.enabled);
    assert_eq!(f.max_depth, 5);
    assert_eq!(f.indexed_paths, vec!["~/Documents", "~/Downloads", "~/Desktop"]);
    assert_eq!(f.excluded_patterns.len(), 6);
    assert_eq!(f.excluded_patterns[0], "node_modules");
}

#[test]
fn default_theme_and_threshold() {
    let s = Settings::default();
    assert_eq!(s.theme.mode, "system");
    assert_eq!(s.theme.accent_color, "system");
    assert!(s.theme.custom.is_none());
    assert_eq!(s.search.fuzzy_match_threshold, 600);
    assert!(s.search.show_recently_used);
    assert!(!s.general.show_in_dock);
}
