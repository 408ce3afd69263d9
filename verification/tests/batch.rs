use i18next_turbo::batch::{
    compile_ignore_patterns, extract_from_glob, extract_from_glob_deduplicated, extract_from_glob_deduplicated_with_options,
    matches_ignore_path, GlobFailure, GlobItem,
};
use i18next_turbo::config::{PluralConfig, UseTranslationName};

fn file(path: &str, contents: Option<&str>) -> GlobItem {
    GlobItem::File { path: path.to_string(), contents: contents.map(|c| c.to_string()) }
}

#[test]
fn glob_extraction_totals_files_errors_and_warnings() {
    let items = vec![
        file("src/a.ts", Some("t('a.one'); t(`x${y}`);")),
        file("src/empty.ts", Some("const x = 1;")),
        file("src/gen/b.ts", Some("t('ignored')")),
        file("src/missing.ts", None),
        GlobItem::GlobError { pattern: "src/**/*.ts".to_string(), message: "permission denied".to_string() },
        GlobItem::PatternError { pattern: "[".to_string(), message: "bad".to_string() },
    ];
    let ignore = vec!["src/gen/**".to_string()];
    let result = extract_from_glob(&items, &ignore, &["t".to_string()], &PluralConfig::default()).unwrap();
    assert_eq!(result.files.len(), 1);
    assert_eq!(result.files[0].0, "src/a.ts");
    assert_eq!(result.files[0].1.len(), 1);
    assert_eq!(result.files[0].1[0].key, "a.one");
    assert_eq!(result.errors.len(), 3);
    assert_eq!(result.errors[0].file_path, "src/missing.ts");
    assert_eq!(result.errors[0].message, "Failed to read file: src/missing.ts");
    assert_eq!(result.errors[1].message, "Glob error: permission denied");
    assert_eq!(result.errors[2].message, "Invalid glob pattern: bad");
    // one dynamic template literal, plus one per error
    assert_eq!(result.warning_count, 4);
}

#[test]
fn invalid_ignore_pattern_stops_extraction() {
    let items = vec![file("a.ts", Some("t('a')"))];
    let r = extract_from_glob(&items, &["a[".to_string()], &["t".to_string()], &PluralConfig::default());
    match r {
        Err(GlobFailure::InvalidIgnorePattern { pattern, .. }) => assert_eq!(pattern, "a["),
        other => panic!("unexpected {:?}", other.map(|r| r.files.len())),
    }
    assert!(compile_ignore_patterns(&["**/*.ts".to_string()]).is_ok());
    assert!(matches_ignore_path("src/x/y.ts", &["src/**".to_string()]));
    assert!(!matches_ignore_path("lib/y.ts", &["src/**".to_string()]));
}

#[test]
fn deduplicated_extraction_keeps_each_key_once() {
    let items = vec![
        file("a.ts", Some("t('same'); t('other');")),
        file("b.ts", Some("t('same');")),
        GlobItem::GlobError { pattern: "p".to_string(), message: "m".to_string() },
        file("c.ts", None),
    ];
    let (keys, warnings, errors) =
        extract_from_glob_deduplicated(&items, &[], &["t".to_string()], &PluralConfig::default()).unwrap();
    let names: Vec<_> = keys.iter().map(|k| k.key.as_str()).collect();
    assert_eq!(names, vec!["same", "other"]);
    assert_eq!(warnings, 1);
    assert_eq!(errors.len(), 2);
    assert_eq!(errors[0].file_path, "c.ts");
    assert_eq!(errors[1].message, "Glob error: m");
}

#[test]
fn deduplicated_extraction_stops_at_invalid_pattern() {
    let items = vec![
        file("a.ts", Some("t('a')")),
        GlobItem::PatternError { pattern: "[".to_string(), message: "bad".to_string() },
    ];
    match extract_from_glob_deduplicated(&items, &[], &["t".to_string()], &PluralConfig::default()) {
        Err(GlobFailure::InvalidPattern { pattern, message }) => {
            assert_eq!(pattern, "[");
            assert_eq!(message, "bad");
        }
        _ => panic!("expected an invalid pattern"),
    }
}

#[test]
fn deduplicated_extraction_with_custom_components_and_hooks() {
    let items = vec![
        file("src/a.tsx", Some("const { t } = useLocal('ns1'); t('k'); <Msg i18nKey=\"m.key\" />;")),
        file("src/b.tsx", Some("<Msg i18nKey=\"m.key\" />; t('plain');")),
    ];
    let (keys, warnings, errors) = extract_from_glob_deduplicated_with_options(
        &items,
        &[],
        &["t".to_string()],
        false,
        &PluralConfig::default(),
        &["Msg".to_string()],
        &[UseTranslationName::Name("useLocal".to_string())],
        "$t(",
        ")",
        ",",
    )
    .unwrap();
    assert_eq!(warnings, 0);
    assert!(errors.is_empty());
    let names: Vec<(String, Option<String>)> = keys.iter().map(|k| (k.key.clone(), k.namespace.clone())).collect();
    assert!(names.contains(&("k".to_string(), Some("ns1".to_string()))));
    assert_eq!(names.iter().filter(|(k, _)| k == "m.key").count(), 1);
    assert!(names.contains(&("plain".to_string(), None)));
}
