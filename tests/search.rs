use watson::search::rank;
use watson::{ResultType, SearchAction, SearchEngine, SearchResult};

fn app(id: &str, name: &str) -> SearchResult {
    SearchResult {
        id: id.to_string(),
        name: name.to_string(),
        description: "Browser".to_string(),
        icon: None,
        result_type: ResultType::Application,
        score: 0,
        action: SearchAction::LaunchApp { path: "/app".to_string() },
    }
}

#[test]
fn test_search_engine_creation() {
    let engine = SearchEngine::new();
    assert!(engine.score("chr", "Chrome").is_some());
}

#[test]
fn test_fuzzy_match_scores() {
    let engine = SearchEngine::new();

    let chrome_score = engine.score("chr", "Chrome").unwrap();
    let chromium_score = engine.score("chr", "Chromium").unwrap();

    assert!(chrome_score > 0);
    assert!(chromium_score > 0);
}

#[test]
fn test_no_match_returns_none() {
    let engine = SearchEngine::new();
    assert!(engine.score("xyz", "Chrome").is_none());
}

#[test]
fn test_search_filters_and_sorts() {
    let engine = SearchEngine::new();

    let items = vec![
        SearchResult {
            id: "1".to_string(),
            name: "Chrome".to_string(),
            description: "Browser".to_string(),
            icon: None,
            result_type: ResultType::Application,
            score: 0,
            action: SearchAction::LaunchApp { path: "/app".to_string() },
        },
        SearchResult {
            id: "2".to_string(),
            name: "Firefox".to_string(),
            description: "Browser".to_string(),
            icon: None,
            result_type: ResultType::Application,
            score: 0,
            action: SearchAction::LaunchApp { path: "/app".to_string() },
        },
    ];

    let results = engine.search("chr", items);
    assert_eq!(results.len(), 1);
    assert_eq!(results[0].name, "Chrome");
}

#[test]
fn search_sets_scores_and_orders_them() {
    let engine = SearchEngine::new();
    let items = vec![app("1", "Firefox"), app("2", "Chromium"), app("3", "Chrome")];
    let results = engine.search("chr", items);
    assert_eq!(results.len(), 2);
    for r in &results {
        assert_eq!(Some(r.score), engine.score("chr", &r.name));
    }
    assert!(results[0].score >= results[1].score);
}

#[test]
fn rank_drops_unscored_and_sorts_descending() {
    let items = vec![app("1", "a"), app("2", "b"), app("3", "c"), app("4", "d")];
    let scores = vec![Some(5), None, Some(9), Some(-2)];
    let out = rank(items, scores);
    let ids: Vec<&str> = out.iter().map(|r| r.id.as_str()).collect();
    assert_eq!(ids, vec!["3", "1", "4"]);
    let got: Vec<i64> = out.iter().map(|r| r.score).collect();
    assert_eq!(got, vec![9, 5, -2]);
}

#[test]
fn rank_keeps_given_order_among_ties() {
    let items = vec![app("1", "a"), app("2", "b"), app("3", "c"), app("4", "d"), app("5", "e")];
    let scores = vec![Some(3), Some(7), Some(3), Some(7), Some(3)];
    let out = rank(items, scores);
    let ids: Vec<&str> = out.iter().map(|r| r.id.as_str()).collect();
    assert_eq!(ids, vec!["2", "4", "1", "3", "5"]);
}

#[test]
fn rank_of_nothing_is_empty() {
    assert!(rank(Vec::new(), Vec::new()).is_empty());
    assert!(rank(vec![app("1", "a")], vec![None]).is_empty());
}

#[test]
fn matching_is_case_insensitive_subsequence() {
    let engine = SearchEngine::new();
    assert!(engine.score("cme", "Chrome").is_some());
    assert!(engine.score("Chr", "chrome").is_some());
    assert!(engine.score("CHROME", "chrome").is_some());
    assert!(engine.score("C", "c").is_some());
    assert!(engine.score("emc", "Chrome").is_none());
    assert!(engine.score("", "anything").is_some());
}

#[test]
fn scores_do_not_depend_on_earlier_calls() {
    let engine = SearchEngine::new();
    let first = engine.score("aab", "aab");
    assert!(engine.score("b", "a b").is_some());
    assert_eq!(engine.score("aab", "aab"), first);
    assert_eq!(SearchEngine::new().score("aab", "aab"), first);
}
