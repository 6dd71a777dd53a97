use watson::{get_indexer, AppEntry, AppIndexer};

#[test]
fn test_indexer_trait_exists() {
    let _indexer = get_indexer();
}

#[test]
fn test_indexer_returns_apps() {
    let indexer = get_indexer();
    let apps = indexer.index_apps();
    let _ = apps.len();
}

#[test]
fn test_app_entry_fields() {
    let entry = AppEntry {
        id: "test:app".to_string(),
        name: "Test App".to_string(),
        path: "/path/to/app".to_string(),
        icon_cache_path: None,
        launch_count: 0,
        last_launched: None,
        platform: "test".to_string(),
    };

    assert_eq!(entry.name, "Test App");
    assert!(entry.id.starts_with("test:"));
}

#[test]
fn stub_indexer_has_no_icon() {
    let indexer = get_indexer();
    let entry = AppEntry {
        id: "app:x".to_string(),
        name: "X".to_string(),
        path: "/x".to_string(),
        icon_cache_path: None,
        launch_count: 0,
        last_launched: None,
        platform: "linux".to_string(),
    };
    assert!(indexer.get_app_icon(&entry).is_none());
    assert!(indexer.index_apps().is_empty());
}

#[test]
fn uninstaller_names_are_recognised() {
    assert!(watson::apps::is_uninstaller("Uninstall Foo"));
    assert!(watson::apps::is_uninstaller("Foo UNINSTALLER"));
    assert!(!watson::apps::is_uninstaller("Installer"));
}

#[test]
fn app_entry_builder_sets_id_and_defaults() {
    let e = watson::apps::app_entry("/Applications/Safari.app", "Safari", "macos");
    assert_eq!(e.id, "app:/Applications/Safari.app");
    assert_eq!(e.name, "Safari");
    assert_eq!(e.path, "/Applications/Safari.app");
    assert_eq!(e.platform, "macos");
    assert_eq!(e.launch_count, 0);
    assert!(e.icon_cache_path.is_none() && e.last_launched.is_none());
}
