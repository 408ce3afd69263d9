use i18next_turbo::cleanup::{
    find_dead_keys, format_key_id, group_dead_keys, is_covered_by_context_variant, purge_file, remove_nested_key, DeadKey,
    LocaleText,
};
use i18next_turbo::extractor::ExtractedKey;
use i18next_turbo::json::JsonValue;
use i18next_turbo::locale::parse_locale_map;
use i18next_turbo::config::OutputFormat;

fn parse(content: &str) -> Vec<(String, JsonValue)> {
    parse_locale_map(content, OutputFormat::Json).unwrap()
}

fn has(obj: &[(String, JsonValue)], key: &str) -> bool {
    obj.iter().any(|(k, _)| k == key)
}

#[test]
fn test_remove_nested_key_simple() {
    let mut obj = parse(r#"{"hello": "world"}"#);

    assert!(remove_nested_key(&mut obj, "hello"));
    assert!(!has(&obj, "hello"));
}

#[test]
fn test_remove_nested_key_deep() {
    let mut obj = parse(r#"{"button": {"submit": "Submit", "cancel": "Cancel"}}"#);

    assert!(remove_nested_key(&mut obj, "button.submit"));

    let button = match &obj.iter().find(|(k, _)| k == "button").unwrap().1 {
        JsonValue::Object(m) => m,
        _ => panic!("button should be an object"),
    };
    assert!(!has(button, "submit"));
    assert!(has(button, "cancel"));
    assert!(!remove_nested_key(&mut obj, "button.missing.deeper"));
}

#[test]
fn test_context_variant_is_preserved_when_base_key_exists() {
    let extracted_set = vec!["common:friend".to_string()];

    assert!(is_covered_by_context_variant("common", "friend_male", &extracted_set, false, "_"));
    assert!(is_covered_by_context_variant("common", "friend_male_one", &extracted_set, false, "_"));
    assert!(!is_covered_by_context_variant("common", "enemy_male", &extracted_set, false, "_"));
    assert!(!is_covered_by_context_variant("common", "friend_male", &extracted_set, false, ""));
}

#[test]
fn test_find_dead_keys_with_merge_namespaces_layout() {
    let files = vec![LocaleText {
        path: "locales/en/all.json".to_string(),
        content: r#"{
  "common": { "hello": "Hello", "stale": "Old" },
  "home": { "title": "Title" }
}"#
        .to_string(),
    }];

    let extracted_keys = vec![
        ExtractedKey { key: "hello".to_string(), namespace: Some("common".to_string()), default_value: None },
        ExtractedKey { key: "title".to_string(), namespace: Some("home".to_string()), default_value: None },
    ];

    let dead = find_dead_keys(&files, &extracted_keys, "translation", false, true, false, "_").unwrap();

    assert_eq!(dead.len(), 1);
    assert_eq!(dead[0].namespace, "common");
    assert_eq!(dead[0].key_path, "stale");
}

#[test]
fn find_dead_keys_per_file_namespace_roots_and_errors() {
    let files = vec![
        LocaleText {
            path: "locales/en/translation.json".to_string(),
            content: r#"{"menu": {"open": "Open", "close": "Close"}, "obj": {"a": "A"}, "ctx_male": "M", "n": 1}"#
                .to_string(),
        },
        LocaleText { path: "locales/en/empty.json".to_string(), content: "  ".to_string() },
    ];
    let keys = vec![
        ExtractedKey { key: "menu.open".to_string(), namespace: None, default_value: None },
        ExtractedKey { key: "obj.*".to_string(), namespace: None, default_value: None },
        ExtractedKey { key: "ctx".to_string(), namespace: None, default_value: None },
    ];
    let dead = find_dead_keys(&files, &keys, "translation", false, false, true, "_").unwrap();
    let paths: Vec<_> = dead.iter().map(|d| d.key_path.as_str()).collect();
    assert_eq!(paths, vec!["menu.close"]);
    assert_eq!(dead[0].namespace, "translation");
    assert_eq!(dead[0].file_path, "locales/en/translation.json");

    let bad = vec![LocaleText { path: "x/bad.json".to_string(), content: "{".to_string() }];
    assert_eq!(find_dead_keys(&bad, &keys, "translation", false, false, true, "_").unwrap_err().file_path, "x/bad.json");
    assert_eq!(format_key_id("ns", "a.b", false), "ns:a.b");
    assert_eq!(format_key_id("ns", "a.b", true), "a.b");
}

#[test]
fn purge_and_group_dead_keys() {
    let dead = vec![
        DeadKey { file_path: "a.json".to_string(), key_path: "x".to_string(), namespace: "translation".to_string() },
        DeadKey { file_path: "b.json".to_string(), key_path: "y.z".to_string(), namespace: "translation".to_string() },
        DeadKey { file_path: "a.json".to_string(), key_path: "w".to_string(), namespace: "translation".to_string() },
    ];
    let groups = group_dead_keys(&dead);
    assert_eq!(groups.len(), 2);
    assert_eq!(groups[0].0, "a.json");
    assert_eq!(groups[0].1, vec!["x".to_string(), "w".to_string()]);
    assert_eq!(groups[1].1, vec!["y.z".to_string()]);

    let (text, count) = purge_file(r#"{"x": "1", "keep": "2", "w": "3"}"#, &groups[0].1).unwrap();
    assert_eq!(count, 2);
    assert_eq!(text, "{\n  \"keep\": \"2\"\n}\n");
    assert!(purge_file("not json", &groups[0].1).is_none());
}
