use i18next_turbo::detect::{detect_input_glob, detect_locales_output_dir, detect_output_dir};
use i18next_turbo::detect::{
    choose_best_locale_output, detect_locales_csv, detect_source_globs, has_locale_extension, init_config_text,
    is_skipped_dir, looks_like_locale, normalize_relative_path, split_csv,
};
use i18next_turbo::logging::{enabled_at, LogLevel};

#[test]
fn looks_like_locale_accepts_common_patterns() {
    assert!(looks_like_locale("en"));
    assert!(looks_like_locale("ja"));
    assert!(looks_like_locale("en-US"));
    assert!(looks_like_locale("pt_BR"));
    assert!(!looks_like_locale("x"));
    assert!(!looks_like_locale("ja JP"));
}

#[test]
fn split_csv_trims_and_skips_empty_entries() {
    let values = split_csv(" t , ,i18n.t ,");
    assert_eq!(values, vec!["t".to_string(), "i18n.t".to_string()]);
}

#[test]
fn detect_source_globs_falls_back_to_workspace_glob() {
    let globs = detect_source_globs("src", &[], true);
    assert!(!globs.is_empty());
}

#[test]
fn detect_source_globs_skips_the_locale_root() {
    let existing = vec!["src".to_string(), "lib".to_string(), "public".to_string()];
    assert_eq!(detect_source_globs("src/locales", &existing, true), vec!["lib/**/*.{ts,tsx,js,jsx}".to_string()]);
    assert_eq!(
        detect_source_globs("public/locales", &existing, true),
        vec!["src/**/*.{ts,tsx,js,jsx}".to_string(), "lib/**/*.{ts,tsx,js,jsx}".to_string()]
    );
    assert!(detect_source_globs("x", &[], false).is_empty());
}

#[test]
fn detect_locales_csv_from_output_dir() {
    let names = vec!["ja".to_string(), "en".to_string(), "not a locale".to_string(), "en".to_string()];
    assert_eq!(detect_locales_csv(&names).as_deref(), Some("en,ja"));
    assert_eq!(detect_locales_csv(&["x".to_string()]), None);
}

#[test]
fn best_locale_output_prefers_locales_segment_then_depth() {
    let paths = vec![
        "./a/b/i18n".to_string(),
        "./public/locales".to_string(),
        "./locales".to_string(),
        "./x".to_string(),
    ];
    assert_eq!(choose_best_locale_output(&paths).as_deref(), Some("locales"));
    assert_eq!(choose_best_locale_output(&[]), None);
    assert_eq!(normalize_relative_path("."), ".");
    assert_eq!(normalize_relative_path(".\\src\\locales"), "src/locales");
}

#[test]
fn extension_and_directory_filters() {
    assert!(has_locale_extension("a/en/common.json5"));
    assert!(!has_locale_extension("a/en/readme.md"));
    assert!(is_skipped_dir("node_modules"));
    assert!(!is_skipped_dir("src"));
}

#[test]
fn init_config_lists_and_separators() {
    let text = init_config_text("src/**/*.ts, app/**/*.tsx", "locales", "en,ja", "translation", "t");
    assert_eq!(
        text,
        "{\n  \"input\": [\n    \"src/**/*.ts\",\n    \"app/**/*.tsx\"\n  ],\n  \"output\": \"locales\",\n  \"locales\": [\n    \"en\",\n    \"ja\"\n  ],\n  \"defaultNamespace\": \"translation\",\n  \"functions\": [\n    \"t\"\n  ],\n  \"keySeparator\": \".\",\n  \"nsSeparator\": \":\"\n}\n"
    );
}

#[test]
fn log_levels_parse_and_filter() {
    assert_eq!(LogLevel::parse("warn"), Some(LogLevel::Warn));
    assert_eq!(LogLevel::parse("WARN"), None);
    assert!(enabled_at(LogLevel::Info, LogLevel::Warn));
    assert!(!enabled_at(LogLevel::Info, LogLevel::Debug));
}

#[test]
fn detect_output_dir_prefers_existing_public_locales() {
    assert_eq!(detect_output_dir(&["public/locales".to_string()]).as_deref(), Some("public/locales"));
    assert_eq!(
        detect_output_dir(&["src/locales".to_string(), "locales".to_string()]).as_deref(),
        Some("locales")
    );
    assert_eq!(detect_output_dir(&["other".to_string()]), None);
}

#[test]
fn detect_input_glob_falls_back_to_app_when_no_src() {
    assert_eq!(detect_input_glob(&["app".to_string()]).as_deref(), Some("app/**/*.{ts,tsx,js,jsx}"));
    assert_eq!(
        detect_input_glob(&["components".to_string(), "src".to_string()]).as_deref(),
        Some("src/**/*.{ts,tsx,js,jsx}")
    );
    assert_eq!(detect_input_glob(&[]), None);
}

#[test]
fn locales_output_dir_prefers_candidates_then_discovered() {
    assert_eq!(
        detect_locales_output_dir(&["app/locales".to_string()], &["x/locales".to_string()]).as_deref(),
        Some("app/locales")
    );
    assert_eq!(
        detect_locales_output_dir(&[], &["./deep/a/b".to_string(), "./web/locales".to_string()]).as_deref(),
        Some("web/locales")
    );
    assert_eq!(detect_locales_output_dir(&[], &[]), None);
}
