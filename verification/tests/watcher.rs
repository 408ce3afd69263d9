use i18next_turbo::config::Config;
use i18next_turbo::keys::ExtractedKey;
use i18next_turbo::watcher::{classify_events, should_process_file, watch_dir_of, FileWatcher};

fn key(k: &str) -> ExtractedKey {
    ExtractedKey { key: k.to_string(), namespace: None, default_value: None }
}

#[test]
fn watcher_starts_empty_with_configured_output() {
    let config = Config::default();
    let out = config.output.clone();
    let w = FileWatcher::new(config, None);
    assert_eq!(w.cached_files(), 0);
    assert_eq!(w.debounce_ms, 300);
    assert_eq!(w.output_dir, out);
    let w2 = FileWatcher::new(Config::default(), Some("out".to_string()));
    assert_eq!(w2.output_dir, "out");
}

#[test]
fn watcher_cache_update_replace_and_remove() {
    let mut w = FileWatcher::new(Config::default(), None);
    w.update_file("a.ts".to_string(), vec![key("x"), key("y")]);
    w.update_file("b.ts".to_string(), vec![key("z")]);
    assert_eq!(w.cached_files(), 2);
    assert_eq!(w.all_keys(), vec![key("x"), key("y"), key("z")]);
    w.update_file("a.ts".to_string(), vec![key("w")]);
    assert_eq!(w.cached_files(), 2);
    assert_eq!(w.all_keys(), vec![key("w"), key("z")]);
    w.update_file("b.ts".to_string(), vec![]);
    assert_eq!(w.cached_files(), 1);
    w.remove_file("a.ts");
    assert_eq!(w.cached_files(), 0);
    assert!(w.all_keys().is_empty());
}

#[test]
fn watcher_processes_only_script_files() {
    assert!(should_process_file("src/a.ts"));
    assert!(should_process_file("src/a.tsx"));
    assert!(should_process_file("a.js"));
    assert!(should_process_file("a.jsx"));
    assert!(!should_process_file("a.vue"));
    assert!(!should_process_file("Makefile"));
}

#[test]
fn watch_dir_is_the_literal_prefix() {
    assert_eq!(watch_dir_of("src/**/*.tsx"), "src");
    assert_eq!(watch_dir_of("app/components/*.ts"), "app/components");
    assert_eq!(watch_dir_of("**/*.ts"), ".");
    assert_eq!(watch_dir_of("lib/file?.ts"), "lib");
}

#[test]
fn watch_dirs_follow_inputs() {
    let mut config = Config::default();
    config.input = vec!["src/**/*.ts".to_string(), "*.js".to_string()];
    let w = FileWatcher::new(config, None);
    assert_eq!(w.compute_watch_dirs(), vec!["src".to_string(), ".".to_string()]);
}

#[test]
fn events_are_classified_sorted_and_deduplicated() {
    let events = vec![
        ("b.ts".to_string(), true),
        ("a.ts".to_string(), true),
        ("b.ts".to_string(), true),
        ("c.md".to_string(), true),
        ("d.tsx".to_string(), false),
        ("d.tsx".to_string(), false),
    ];
    let (changed, removed) = classify_events(&events);
    assert_eq!(changed, vec!["a.ts".to_string(), "b.ts".to_string()]);
    assert_eq!(removed, vec!["d.tsx".to_string()]);
}
