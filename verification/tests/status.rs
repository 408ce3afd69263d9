use i18next_turbo::cleanup::{DeadKey, LocaleText};
use i18next_turbo::keys::ExtractedKey;
use i18next_turbo::status::{
    dead_in_namespace, is_progress_file, progress_locale_names, progress_source_names, status_report, status_verdict,
};

fn key(k: &str, ns: Option<&str>) -> ExtractedKey {
    ExtractedKey { key: k.to_string(), namespace: ns.map(|s| s.to_string()), default_value: None }
}

fn file(path: &str, content: &str) -> LocaleText {
    LocaleText { path: path.to_string(), content: content.to_string() }
}

fn strings(v: &[&str]) -> Vec<String> {
    v.iter().map(|s| s.to_string()).collect()
}

#[test]
fn status_fail_on_incomplete_returns_error() {
    let source = progress_source_names(&[key("hello", None)], "translation", None, false);
    assert_eq!(source, strings(&["translation:hello"]));
    let en = progress_locale_names(&[file("locales/en/translation.json", "{\"hello\": \"Hello\"}")], None, false);
    let ok = status_report(&source, &en, 0);
    assert!(!ok.incomplete);
    assert_eq!(status_verdict(&ok, 0, true), None);
    let ja = progress_locale_names(&[file("locales/ja/other.json", "{\"hello\": \"\"}")], None, false);
    let bad = status_report(&source, &ja, 0);
    assert!(bad.incomplete);
    assert_eq!(
        status_verdict(&bad, 0, true).unwrap(),
        "Translations are incomplete: 1 missing, 0 dead (--fail-on-incomplete enabled)"
    );
    assert_eq!(status_verdict(&bad, 0, false), None);
}

#[test]
fn progress_source_names_filter_and_dedup() {
    let keys = vec![key("b", None), key("a", Some("common")), key("b", None), key("c", Some("other"))];
    assert_eq!(
        progress_source_names(&keys, "translation", None, false),
        strings(&["common:a", "other:c", "translation:b"])
    );
    assert_eq!(progress_source_names(&keys, "translation", Some("common"), false), strings(&["common:a"]));
    assert_eq!(progress_source_names(&keys, "translation", None, true), strings(&["a", "b", "c"]));
}

#[test]
fn progress_locale_names_reads_string_leaves_of_json_files() {
    let files = vec![
        file("en/translation.json", r#"{"a": {"b": "x", "n": 1, "c": {"d": "y"}}, "e": ""}"#),
        file("en/common.json", r#"{"k": "v"}"#),
        file("en/notes.txt", r#"{"z": "v"}"#),
        file("en/broken.json", "{"),
        file("en/blank.json", "  \n"),
    ];
    assert_eq!(
        progress_locale_names(&files, None, false),
        strings(&["common:k", "translation:a.b", "translation:a.c.d", "translation:e"])
    );
    assert_eq!(progress_locale_names(&files, Some("common"), true), strings(&["k"]));
    assert!(is_progress_file("en/a.json"));
    assert!(!is_progress_file("en/a.json5"));
}

#[test]
fn status_report_counts_missing_names() {
    let source = strings(&["a", "b", "c"]);
    let locale = strings(&["b", "z"]);
    let r = status_report(&source, &locale, 0);
    assert_eq!((r.total, r.missing, r.completed, r.incomplete), (3, 2, 1, true));
    let done = status_report(&strings(&["b"]), &locale, 0);
    assert!(!done.incomplete);
    let dead_only = status_report(&strings(&["b"]), &locale, 2);
    assert!(dead_only.incomplete);
    assert_eq!(
        status_verdict(&dead_only, 2, true).unwrap(),
        "Translations are incomplete: 0 missing, 2 dead (--fail-on-incomplete enabled)"
    );
}

#[test]
fn dead_keys_counted_per_namespace() {
    let dead = vec![
        DeadKey { file_path: "a".to_string(), key_path: "x".to_string(), namespace: "translation".to_string() },
        DeadKey { file_path: "b".to_string(), key_path: "y".to_string(), namespace: "common".to_string() },
    ];
    assert_eq!(dead_in_namespace(&dead, None), 2);
    assert_eq!(dead_in_namespace(&dead, Some("common")), 1);
    assert_eq!(dead_in_namespace(&dead, Some("zzz")), 0);
}
