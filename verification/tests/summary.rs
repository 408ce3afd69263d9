use i18next_turbo::components::decimal_exec;
use i18next_turbo::keys::ExtractedKey;
use i18next_turbo::locale::SyncResult;
use i18next_turbo::summary::{
    choose_locale, confirms_removal, extract_verdict, is_turbo_config, lint_verdict, migration_source,
    sync_totals, unique_key_names, yes_no_answer, MigrateError, SyncTotals,
};

fn result(added: usize, removed: usize) -> SyncResult {
    SyncResult {
        file_path: "f".to_string(),
        added_keys: (0..added).map(|i| format!("a{}", i)).collect(),
        existing_keys: 0,
        conflicts: vec![],
        removed_keys: (0..removed).map(|i| format!("r{}", i)).collect(),
    }
}

#[test]
fn decimal_writes_numbers() {
    let s: String = decimal_exec(0).into_iter().collect();
    assert_eq!(s, "0");
    let s: String = decimal_exec(1207).into_iter().collect();
    assert_eq!(s, "1207");
    let s: String = decimal_exec(usize::MAX).into_iter().collect();
    assert_eq!(s, usize::MAX.to_string());
}

#[test]
fn chosen_locale_prefers_request_then_first() {
    let locales = vec!["ja".to_string(), "en".to_string()];
    assert_eq!(choose_locale(Some("fr"), &locales), "fr");
    assert_eq!(choose_locale(None, &locales), "ja");
    assert_eq!(choose_locale(None, &[]), "en");
}

#[test]
fn sync_totals_sum_results() {
    let t = sync_totals(&[result(2, 1), result(3, 0)]);
    assert_eq!((t.added, t.removed, t.conflicts), (5, 1, 0));
}

#[test]
fn extract_fail_on_warnings_returns_error() {
    let none = SyncTotals { added: 0, removed: 0, conflicts: 0 };
    assert_eq!(
        extract_verdict(false, 2, &none, true, false, false).unwrap(),
        "2 warning(s) encountered (--fail-on-warnings enabled)"
    );
    assert_eq!(extract_verdict(false, 2, &none, false, true, false), None);
    let conflicts = SyncTotals { added: 1, removed: 0, conflicts: 1 };
    assert_eq!(
        extract_verdict(true, 2, &conflicts, true, true, false).unwrap(),
        "3 warning(s) encountered (--fail-on-warnings enabled): 2 extraction warnings, 1 key conflicts"
    );
}

#[test]
fn extract_ci_mode_fails_on_changes() {
    let changed = SyncTotals { added: 2, removed: 1, conflicts: 0 };
    assert_eq!(
        extract_verdict(true, 0, &changed, true, true, true).unwrap(),
        "Locale files are out of sync (--ci enabled): 2 keys added, 1 keys removed"
    );
    assert_eq!(
        extract_verdict(true, 0, &changed, false, true, false).unwrap(),
        "Locale files were out of sync (--ci enabled): 2 keys added, 1 keys removed"
    );
    assert_eq!(extract_verdict(true, 0, &changed, false, false, false), None);
    let same = SyncTotals { added: 0, removed: 0, conflicts: 0 };
    assert_eq!(extract_verdict(true, 0, &same, true, true, false), None);
}

#[test]
fn lint_fail_on_error_returns_non_zero() {
    assert_eq!(lint_verdict(3, true).unwrap(), "3 lint issue(s) found (--fail-on-error enabled)");
    assert_eq!(lint_verdict(0, true), None);
    assert_eq!(lint_verdict(3, false), None);
}

#[test]
fn answers_are_read() {
    assert!(confirms_removal(" YES\n"));
    assert!(confirms_removal("y"));
    assert!(!confirms_removal("no"));
    assert_eq!(yes_no_answer("Y\n"), Some(true));
    assert_eq!(yes_no_answer(" no "), Some(false));
    assert_eq!(yes_no_answer("\n"), Some(false));
    assert_eq!(yes_no_answer("maybe"), None);
}

#[test]
fn unique_names_of_extracted_keys() {
    let keys = vec![
        ExtractedKey { key: "b".to_string(), namespace: None, default_value: None },
        ExtractedKey { key: "a".to_string(), namespace: Some("common".to_string()), default_value: None },
        ExtractedKey { key: "b".to_string(), namespace: None, default_value: Some("x".to_string()) },
    ];
    assert_eq!(unique_key_names(&keys), vec!["b".to_string(), "common:a".to_string()]);
}

#[test]
fn migration_needs_a_source_file() {
    assert_eq!(migration_source(Some("i18next-parser.config.js"), false).unwrap(), "i18next-parser.config.js");
    assert_eq!(migration_source(None, true), Err(MigrateError::NoSourcePath));
    assert_eq!(migration_source(None, false), Err(MigrateError::NoSource));
    assert!(MigrateError::NoSource.message().contains("i18next-parser.config.js"));
    assert!(is_turbo_config("cfg/i18next-turbo.json"));
    assert!(!is_turbo_config("i18next-parser.config.js"));
}
