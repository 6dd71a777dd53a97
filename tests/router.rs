use watson::router::{clock_text, search};
use watson::{AppEntry, ClipboardManager, ResultType, SearchAction, SearchEngine, Settings, WebSearch};

fn app(name: &str) -> AppEntry {
    AppEntry {
        id: format!("app:{}", name),
        name: name.to_string(),
        path: format!("/apps/{}", name),
        icon_cache_path: None,
        launch_count: 0,
        last_launched: None,
        platform: "test".to_string(),
    }
}

fn settings_with(shortcuts: Vec<WebSearch>) -> Settings {
    let mut s = Settings::default();
    s.web_searches = shortcuts;
    s
}

fn history_a_b() -> ClipboardManager {
    let mut m = ClipboardManager::new(50);
    m.capture("b", 1_000);
    m.capture("a", 2_000);
    m
}

#[test]
fn empty_query_has_no_results() {
    let r = search("", &Settings::default(), &vec![app("Chrome")], &history_a_b(), &SearchEngine::new());
    assert!(r.is_empty());
}

#[test]
fn cb_lists_clipboard_newest_first() {
    let r = search("cb", &Settings::default(), &vec![], &history_a_b(), &SearchEngine::new());
    assert_eq!(r.len(), 2);
    for x in &r {
        assert!(matches!(x.result_type, ResultType::Clipboard));
        assert_eq!(x.score, 10000);
    }
    match &r[0].action {
        SearchAction::CopyClipboard { content } => assert_eq!(content, "a"),
        _ => panic!("expected a clipboard action"),
    }
    match &r[1].action {
        SearchAction::CopyClipboard { content } => assert_eq!(content, "b"),
        _ => panic!("expected a clipboard action"),
    }
    assert_eq!(r[0].description, "Copied 00:00:02");
    assert_eq!(r[0].icon.as_deref(), Some("clipboard"));
}

#[test]
fn clip_filter_matches_ignoring_case() {
    let mut m = ClipboardManager::new(50);
    m.capture("Alpha", 1);
    m.capture("beta", 2);
    m.capture("ALPHABET", 3);
    let r = search("clip alpha", &Settings::default(), &vec![], &m, &SearchEngine::new());
    let names: Vec<&str> = r.iter().map(|x| x.name.as_str()).collect();
    assert_eq!(names, vec!["ALPHABET", "Alpha"]);
    let all = search("cb ", &Settings::default(), &vec![], &m, &SearchEngine::new());
    assert_eq!(all.len(), 3);
}

#[test]
fn clipboard_listing_is_capped_at_eight() {
    let mut m = ClipboardManager::new(50);
    for i in 0..12 {
        m.capture(&format!("entry {}", i), i);
    }
    let r = search("clip", &Settings::default(), &vec![], &m, &SearchEngine::new());
    assert_eq!(r.len(), 8);
    assert_eq!(r[0].name, "entry 11");
}

#[test]
fn web_shortcut_builds_encoded_url() {
    let g = WebSearch {
        name: "Google".to_string(),
        keyword: "g".to_string(),
        url: "https://x/?q={query}".to_string(),
        icon: None,
        requires_setup: false,
        instance: None,
    };
    let r = search("g hello", &settings_with(vec![g.clone()]), &vec![], &ClipboardManager::new(50), &SearchEngine::new());
    assert_eq!(r.len(), 1);
    assert!(matches!(r[0].result_type, ResultType::WebSearch));
    assert_eq!(r[0].id, "web:g");
    assert_eq!(r[0].description, "Web Search");
    match &r[0].action {
        SearchAction::OpenUrl { url } => assert_eq!(url, "https://x/?q=hello"),
        _ => panic!("expected a URL"),
    }
    let r2 = search("g hello world", &settings_with(vec![g]), &vec![], &ClipboardManager::new(50), &SearchEngine::new());
    match &r2[0].action {
        SearchAction::OpenUrl { url } => assert_eq!(url, "https://x/?q=hello%20world"),
        _ => panic!("expected a URL"),
    }
}

#[test]
fn shortcut_without_instance_gives_nothing() {
    let r = search("jira ABC-1", &Settings::default(), &vec![], &ClipboardManager::new(50), &SearchEngine::new());
    assert!(r.iter().all(|x| !matches!(x.result_type, ResultType::WebSearch)));
    assert!(r.is_empty());
}

#[test]
fn shortcut_with_instance_fills_both_placeholders() {
    let mut s = Settings::default();
    s.web_searches[6].instance = Some("acme".to_string());
    let r = search("jira ABC-1", &s, &vec![], &ClipboardManager::new(50), &SearchEngine::new());
    let web: Vec<_> = r.iter().filter(|x| matches!(x.result_type, ResultType::WebSearch)).collect();
    assert_eq!(web.len(), 1);
    match &web[0].action {
        SearchAction::OpenUrl { url } => assert_eq!(url, "https://acme.atlassian.net/browse/ABC-1"),
        _ => panic!("expected a URL"),
    }
}

#[test]
fn command_prefix_lists_matching_commands() {
    let r = search(">loc", &Settings::default(), &vec![], &ClipboardManager::new(50), &SearchEngine::new());
    assert!(!r.is_empty());
    assert!(r.iter().all(|x| matches!(x.result_type, ResultType::SystemCommand)));
    assert_eq!(r[0].name, "Lock");
    match &r[0].action {
        SearchAction::RunCommand { command } => assert_eq!(command, "cmd:lock"),
        _ => panic!("expected a command"),
    }
    for w in r.windows(2) {
        assert!(w[0].score >= w[1].score);
    }
}

#[test]
fn alias_match_offers_command_without_prefix() {
    let r = search("reboot", &Settings::default(), &vec![app("Chrome")], &ClipboardManager::new(50), &SearchEngine::new());
    assert!(r.iter().all(|x| x.name != "Chrome"));
    let engine = SearchEngine::new();
    let expected = engine.score("reboot", "Restart").is_some();
    assert_eq!(r.iter().any(|x| x.id == "cmd:restart"), expected);
}

#[test]
fn chr_ranks_chrome_variants() {
    let apps = vec![app("Chrome"), app("Chromium"), app("Firefox")];
    let r = search("chr", &Settings::default(), &apps, &ClipboardManager::new(50), &SearchEngine::new());
    let names: Vec<&str> = r.iter().map(|x| x.name.as_str()).collect();
    assert_eq!(names.len(), 2);
    assert!(names.contains(&"Chrome"));
    assert!(names.contains(&"Chromium"));
    assert!(r[0].score >= r[1].score);
    assert!(r.iter().all(|x| matches!(x.result_type, ResultType::Application)));
}

#[test]
fn results_are_truncated_to_max_results() {
    let apps: Vec<AppEntry> = (0..20).map(|i| app(&format!("Tool{}", i))).collect();
    let mut s = Settings::default();
    s.search.max_results = 5;
    let r = search("tool", &s, &apps, &ClipboardManager::new(50), &SearchEngine::new());
    assert_eq!(r.len(), 5);
}

#[test]
fn multi_word_query_falls_back_to_apps() {
    let apps = vec![app("Visual Studio")];
    let r = search("vis stu", &Settings::default(), &apps, &ClipboardManager::new(50), &SearchEngine::new());
    assert_eq!(r.len(), 1);
    assert_eq!(r[0].name, "Visual Studio");
}

#[test]
fn clock_text_formats_utc_time_of_day() {
    assert_eq!(clock_text(0), "00:00:00");
    assert_eq!(clock_text(3_723_000), "01:02:03");
    assert_eq!(clock_text(86_399_999), "23:59:59");
    assert_eq!(clock_text(-1_000), "23:59:59");
    assert_eq!(clock_text(i64::MIN), "16:47:04");
}

#[test]
fn command_key_is_trimmed() {
    let r = search(">  lock  ", &Settings::default(), &vec![], &ClipboardManager::new(50), &SearchEngine::new());
    assert!(!r.is_empty());
    assert_eq!(r[0].name, "Lock");
}

#[test]
fn web_terms_are_percent_encoded() {
    let so = WebSearch {
        name: "Stack Overflow".to_string(),
        keyword: "so".to_string(),
        url: "https://stackoverflow.com/search?q={query}".to_string(),
        icon: Some("stackoverflow".to_string()),
        requires_setup: false,
        instance: None,
    };
    let r = search("so a&b", &settings_with(vec![so]), &vec![], &ClipboardManager::new(50), &SearchEngine::new());
    assert_eq!(r.len(), 1);
    assert_eq!(r[0].name, "Stack Overflow: a&b");
    assert_eq!(r[0].icon.as_deref(), Some("stackoverflow"));
    match &r[0].action {
        SearchAction::OpenUrl { url } => assert_eq!(url, "https://stackoverflow.com/search?q=a%26b"),
        _ => panic!("expected a URL"),
    }
}

#[test]
fn clipboard_listing_respects_max_results() {
    let mut s = Settings::default();
    s.search.max_results = 1;
    let r = search("cb", &s, &vec![], &history_a_b(), &SearchEngine::new());
    assert_eq!(r.len(), 1);
    assert_eq!(r[0].name, "a");
    s.search.max_results = 0;
    assert!(search("clip", &s, &vec![], &history_a_b(), &SearchEngine::new()).is_empty());
}

#[test]
fn command_key_trims_unicode_space() {
    let r = search(">\u{3000}lock\u{a0}", &Settings::default(), &vec![], &ClipboardManager::new(50), &SearchEngine::new());
    assert!(!r.is_empty());
    assert_eq!(r[0].name, "Lock");
}
