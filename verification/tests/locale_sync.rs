use i18next_turbo::config::OutputFormat;
use i18next_turbo::locale_sync::sync_secondary_file;

#[test]
fn sync_adds_missing_keys_to_secondary_locale() {
    let r = sync_secondary_file("{\n  \"hello\": \"Hello\"\n}\n", Some("{}\n"), OutputFormat::Json, false)
        .unwrap()
        .unwrap();
    assert_eq!(r.added, 1);
    assert_eq!(r.removed, 0);
    assert_eq!(r.text, "{\n  \"hello\": \"\"\n}\n");
}

#[test]
fn sync_remove_unused_respects_dry_run() {
    let primary = "{\"keep\": \"Hello\"}";
    let secondary = "{\"keep\": \"\", \"extra\": \"\"}";
    let kept = sync_secondary_file(primary, Some(secondary), OutputFormat::Json, false).unwrap().unwrap();
    assert_eq!((kept.added, kept.removed), (0, 0));
    assert!(kept.text.contains("extra"));
    let pruned = sync_secondary_file(primary, Some(secondary), OutputFormat::Json, true).unwrap().unwrap();
    assert_eq!((pruned.added, pruned.removed), (0, 1));
    assert!(!pruned.text.contains("extra"));
    assert!(pruned.text.contains("keep"));
}

#[test]
fn sync_builds_nested_empty_structure_and_counts_leaves() {
    let primary = r#"{"a": {"b": "x", "c": {"d": "y"}, "n": 1}, "z": "w"}"#;
    let r = sync_secondary_file(primary, None, OutputFormat::Json, false).unwrap().unwrap();
    assert_eq!(r.added, 3);
    assert_eq!(
        r.text,
        "{\n  \"a\": {\n    \"b\": \"\",\n    \"c\": {\n      \"d\": \"\"\n    },\n    \"n\": \"\"\n  },\n  \"z\": \"\"\n}\n"
    );
}

#[test]
fn sync_recurses_into_shared_objects_only() {
    let primary = r#"{"a": {"b": "x", "c": "y"}, "s": {"t": "u"}}"#;
    let secondary = r#"{"a": {"b": "B", "old": "o"}, "s": "flat"}"#;
    let r = sync_secondary_file(primary, Some(secondary), OutputFormat::Json, true).unwrap().unwrap();
    assert_eq!((r.added, r.removed), (1, 1));
    assert_eq!(r.text, "{\n  \"a\": {\n    \"b\": \"B\",\n    \"c\": \"\"\n  },\n  \"s\": \"flat\"\n}");
}

#[test]
fn sync_skips_blank_primary_and_reports_unreadable_files() {
    assert!(sync_secondary_file("   ", Some("{}"), OutputFormat::Json, false).unwrap().is_none());
    assert!(sync_secondary_file("{oops", Some("{}"), OutputFormat::Json, false).is_err());
    assert!(sync_secondary_file("{\"a\":\"b\"}", Some("[1,"), OutputFormat::Json, false).is_err());
}
