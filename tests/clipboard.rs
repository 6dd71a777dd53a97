use watson::clipboard::make_preview;
use watson::{ClipboardEntry, ClipboardManager};

fn contents(m: &ClipboardManager) -> Vec<String> {
    m.get_history().into_iter().map(|e| e.content).collect()
}

#[test]
fn capture_puts_newest_first() {
    let mut m = ClipboardManager::new(50);
    assert!(m.capture("one", 1_000));
    assert!(m.capture("two", 2_000));
    assert_eq!(contents(&m), vec!["two", "one"]);
    let h = m.get_history();
    assert_eq!(h[0].id, "clip:2000");
    assert_eq!(h[0].timestamp, 2_000);
    assert_eq!(h[0].preview, "two");
}

#[test]
fn capture_dedups_existing_content() {
    let mut m = ClipboardManager::new(50);
    m.capture("a", 1);
    m.capture("b", 2);
    m.capture("c", 3);
    assert!(m.capture("a", 4));
    assert_eq!(contents(&m), vec!["a", "c", "b"]);
    assert_eq!(m.get_history()[0].id, "clip:4");
}

#[test]
fn capture_ignores_empty_and_repeated_text() {
    let mut m = ClipboardManager::new(50);
    assert!(!m.capture("", 1));
    assert!(m.capture("x", 2));
    assert!(!m.capture("x", 3));
    assert_eq!(m.get_history().len(), 1);
    assert_eq!(m.get_history()[0].timestamp, 2);
}

#[test]
fn history_never_exceeds_bound() {
    let mut m = ClipboardManager::new(3);
    for i in 0..10 {
        m.capture(&format!("item {}", i), i);
        assert!(m.get_history().len() <= 3);
    }
    assert_eq!(contents(&m), vec!["item 9", "item 8", "item 7"]);
}

#[test]
fn zero_bound_keeps_nothing() {
    let mut m = ClipboardManager::new(0);
    assert!(m.capture("x", 1));
    assert!(m.get_history().is_empty());
}

#[test]
fn copy_is_not_recaptured() {
    let mut m = ClipboardManager::new(50);
    m.capture("a", 1);
    assert!(m.copy_to_clipboard("X", Ok(())).is_ok());
    assert!(!m.capture("X", 2));
    assert_eq!(contents(&m), vec!["a"]);
}

#[test]
fn failed_copy_is_reported_and_changes_nothing() {
    let mut m = ClipboardManager::new(50);
    let r = m.copy_to_clipboard("X", Err("no clipboard".to_string()));
    assert_eq!(r, Err("no clipboard".to_string()));
    assert!(m.capture("X", 2));
    assert_eq!(contents(&m), vec!["X"]);
}

#[test]
fn clear_history_empties_and_is_idempotent() {
    let mut m = ClipboardManager::new(50);
    m.capture("a", 1);
    m.capture("b", 2);
    m.clear_history();
    assert!(m.get_history().is_empty());
    m.clear_history();
    assert!(m.get_history().is_empty());
    assert_eq!(m.max_entries(), 50);
}

#[test]
fn search_history_ignores_case() {
    let mut m = ClipboardManager::new(50);
    m.capture("Hello World", 1);
    m.capture("goodbye", 2);
    m.capture("WORLDLY", 3);
    let found: Vec<String> = m.search_history("world").into_iter().map(|e| e.content).collect();
    assert_eq!(found, vec!["WORLDLY", "Hello World"]);
    assert!(m.search_history("absent").is_empty());
}

#[test]
fn preview_cuts_and_flattens_lines() {
    assert_eq!(make_preview("a\nb\r\nc"), "a b c");
    let long: String = "x".repeat(150);
    assert_eq!(make_preview(&long).chars().count(), 100);
    let wide: String = "é".repeat(120);
    assert_eq!(make_preview(&wide), "é".repeat(100));
}

#[test]
fn entry_of_negative_timestamp() {
    let e = ClipboardEntry::new("text", -42);
    assert_eq!(e.id, "clip:-42");
    assert_eq!(e.content, "text");
}
