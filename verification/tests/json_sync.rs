use i18next_turbo::config::{Config, OutputFormat};
use i18next_turbo::extractor::ExtractedKey;
use i18next_turbo::json::JsonValue;
use i18next_turbo::locale::{
    collect_namespaces, detect_json_style, extract_json_fragment, insert_nested_key, merge_keys,
    parse_locale_map, render_locale, sort_keys_alphabetically, sync_locale_text, sync_namespaces,
    existing_merged_name, sync_all_locales, sync_merged_text, sync_targets, FragmentError, InsertResult, JsonStyle, KeyConflict, LocaleFile, PreserveMatcher,
};

type Members = Vec<(String, JsonValue)>;

fn get<'a>(map: &'a Members, key: &str) -> Option<&'a JsonValue> {
    map.iter().find(|(k, _)| k == key).map(|(_, v)| v)
}

fn string(s: &str) -> JsonValue {
    JsonValue::Str(s.to_string())
}

fn as_object(v: &JsonValue) -> Option<&Members> {
    match v {
        JsonValue::Object(m) => Some(m),
        _ => None,
    }
}

fn path(parts: &[&str]) -> Vec<String> {
    parts.iter().map(|p| p.to_string()).collect()
}

fn key(k: &str, default_value: Option<&str>) -> ExtractedKey {
    ExtractedKey { key: k.to_string(), namespace: None, default_value: default_value.map(|d| d.to_string()) }
}

fn parse(content: &str) -> Members {
    parse_locale_map(content, OutputFormat::Json).unwrap()
}

#[test]
fn test_insert_nested_key_simple() {
    let mut map = Members::new();
    let result = insert_nested_key(&mut map, &path(&["hello"]), "");

    assert!(matches!(result, InsertResult::Added));
    assert_eq!(get(&map, "hello"), Some(&string("")));
}

#[test]
fn test_insert_nested_key_deep() {
    let mut map = Members::new();
    let result = insert_nested_key(&mut map, &path(&["button", "submit"]), "");

    assert!(matches!(result, InsertResult::Added));
    let button = get(&map, "button")
        .expect("button should exist after insert_nested_key");
    let button = as_object(button).expect("button should be an object after insert_nested_key");
    assert_eq!(get(button, "submit"), Some(&string("")));
}

#[test]
fn test_insert_nested_key_existing() {
    let mut map = Members::new();
    map.push(("hello".to_string(), string("world")));

    let result = insert_nested_key(&mut map, &path(&["hello"]), "");

    assert!(matches!(result, InsertResult::Existed));
    assert_eq!(get(&map, "hello"), Some(&string("world")));
}

#[test]
fn test_insert_nested_key_conflict() {
    let mut map = Members::new();
    map.push(("button".to_string(), string("click me")));

    let result = insert_nested_key(&mut map, &path(&["button", "submit"]), "");

    assert!(matches!(result, InsertResult::Conflict(KeyConflict::ValueIsNotObject { .. })));
    assert_eq!(get(&map, "button"), Some(&string("click me")));
}

#[test]
fn insert_nested_key_conflict_reports_path_and_value() {
    let mut map = parse(r#"{"a": {"b": [1, "x"]}}"#);
    let result = insert_nested_key(&mut map, &path(&["a", "b", "c"]), "v");
    match result {
        InsertResult::Conflict(c) => {
            assert_eq!(c.message(), "Cannot create nested key at 'a.b': existing value is '[1,\"x\"]' (not an object)");
        }
        other => panic!("unexpected {:?}", other),
    }
    let result = insert_nested_key(&mut map, &path(&["a"]), "v");
    match result {
        InsertResult::Conflict(c) => {
            assert_eq!(c.message(), "Cannot set scalar value at 'a': path contains nested objects");
        }
        other => panic!("unexpected {:?}", other),
    }
}

#[test]
fn test_sort_keys_alphabetically() {
    let mut map = Members::new();
    map.push(("zebra".to_string(), string("z")));
    map.push(("apple".to_string(), string("a")));
    map.push(("mango".to_string(), string("m")));

    let sorted = sort_keys_alphabetically(&map);
    let keys: Vec<_> = sorted.iter().map(|(k, _)| k.as_str()).collect();

    assert_eq!(keys, vec!["apple", "mango", "zebra"]);
}

#[test]
fn test_sort_nested_objects() {
    let mut inner = Members::new();
    inner.push(("z".to_string(), string("1")));
    inner.push(("a".to_string(), string("2")));

    let mut map = Members::new();
    map.push(("nested".to_string(), JsonValue::Object(inner)));

    let sorted = sort_keys_alphabetically(&map);
    let nested = get(&sorted, "nested").expect("nested should exist after sort_keys_alphabetically");
    let nested = as_object(nested).expect("nested should be an object in sort_keys_alphabetically");
    let keys: Vec<_> = nested.iter().map(|(k, _)| k.as_str()).collect();

    assert_eq!(keys, vec!["a", "z"]);
}

#[test]
fn sort_orders_by_code_point_with_prefixes_first() {
    let map = parse(r#"{"b": 1, "B": 2, "ab": 3, "a": 4, "é": 5}"#);
    let sorted = sort_keys_alphabetically(&map);
    let keys: Vec<_> = sorted.iter().map(|(k, _)| k.as_str()).collect();
    assert_eq!(keys, vec!["B", "a", "ab", "b", "é"]);
}

#[test]
fn test_merge_keys() {
    let mut existing = Members::new();
    existing.push(("existing".to_string(), string("translated")));

    let keys = vec![key("existing", None), key("new.key", None)];

    let config = Config::default();
    let matcher = PreserveMatcher::new(&config.preserve_patterns, &config.ns_separator).unwrap();
    let result = merge_keys(&mut existing, &keys, "translation", &config, &matcher);

    assert_eq!(result.added_keys.len(), 1);
    assert_eq!(result.added_keys[0], "new.key");
    assert_eq!(result.existing_keys, 1);
    assert_eq!(get(&existing, "existing"), Some(&string("translated")));
}

#[test]
fn test_merge_keys_with_default_value() {
    let mut existing = Members::new();

    let keys = vec![key("greeting", Some("Hello World!")), key("no_default", None)];

    let config = Config::default();
    let matcher = PreserveMatcher::new(&config.preserve_patterns, &config.ns_separator).unwrap();
    let result = merge_keys(&mut existing, &keys, "translation", &config, &matcher);

    assert_eq!(result.added_keys.len(), 2);
    assert_eq!(get(&existing, "greeting"), Some(&string("Hello World!")));
    assert_eq!(get(&existing, "no_default"), Some(&string("")));
}

#[test]
fn test_merge_keys_flat_mode() {
    let mut existing = Members::new();

    let keys = vec![key("button.submit", Some("Submit")), key("form.validation.required", None)];

    let mut config = Config::default();
    config.key_separator = String::new();
    let matcher = PreserveMatcher::new(&config.preserve_patterns, &config.ns_separator).unwrap();
    let result = merge_keys(&mut existing, &keys, "translation", &config, &matcher);

    assert_eq!(result.added_keys.len(), 2);
    assert_eq!(get(&existing, "button.submit"), Some(&string("Submit")));
    assert_eq!(get(&existing, "form.validation.required"), Some(&string("")));
    assert!(get(&existing, "button").is_none());
    assert!(get(&existing, "form").is_none());
}

#[test]
fn merge_keys_skips_other_namespaces_and_uses_configured_default() {
    let mut existing = Members::new();
    let keys = vec![
        ExtractedKey { key: "a".to_string(), namespace: Some("common".to_string()), default_value: None },
        key("b", None),
    ];
    let mut config = Config::default();
    config.default_value = Some("TODO".to_string());
    let matcher = PreserveMatcher::new(&config.preserve_patterns, &config.ns_separator).unwrap();
    let result = merge_keys(&mut existing, &keys, "translation", &config, &matcher);
    assert_eq!(result.added_keys, vec!["b".to_string()]);
    assert_eq!(existing.len(), 1);
    assert_eq!(get(&existing, "b"), Some(&string("TODO")));
}

#[test]
fn merge_keys_prunes_nested_entries_and_empty_parents() {
    let mut existing = parse(r#"{"keep": "x", "old": {"gone": "y"}, "menu": {"open": "o", "stale": "s"}}"#);
    let keys = vec![key("keep", None), key("menu.open", None)];
    let mut config = Config::default();
    config.remove_unused_keys = true;
    let matcher = PreserveMatcher::new(&config.preserve_patterns, &config.ns_separator).unwrap();
    let result = merge_keys(&mut existing, &keys, "translation", &config, &matcher);
    assert_eq!(result.removed_keys, vec!["old.gone".to_string(), "menu.stale".to_string(), "old".to_string()]);
    assert!(get(&existing, "old").is_none());
    let menu = as_object(get(&existing, "menu").unwrap()).unwrap();
    assert_eq!(menu.len(), 1);
    assert_eq!(get(menu, "open"), Some(&string("o")));
}

#[test]
fn test_detect_json_style_default() {
    let style = JsonStyle::default();
    assert_eq!(style.indent, "  ");
    assert!(!style.use_crlf);
    assert!(style.trailing_newline);
}

#[test]
fn test_detect_json_style_two_spaces() {
    let json = r#"{
  "key": "value"
}
"#;
    let style = detect_json_style(json);
    assert_eq!(style.indent, "  ");
    assert!(!style.use_crlf);
    assert!(style.trailing_newline);
}

#[test]
fn test_detect_json_style_four_spaces() {
    let json = r#"{
    "key": "value"
}
"#;
    let style = detect_json_style(json);
    assert_eq!(style.indent, "    ");
    assert!(!style.use_crlf);
    assert!(style.trailing_newline);
}

#[test]
fn test_detect_json_style_tabs() {
    let json = "{\n\t\"key\": \"value\"\n}\n";
    let style = detect_json_style(json);
    assert_eq!(style.indent, "\t");
    assert!(!style.use_crlf);
    assert!(style.trailing_newline);
}

#[test]
fn test_detect_json_style_crlf() {
    let json = "{\r\n  \"key\": \"value\"\r\n}\r\n";
    let style = detect_json_style(json);
    assert_eq!(style.indent, "  ");
    assert!(style.use_crlf);
    assert!(style.trailing_newline);
}

#[test]
fn test_detect_json_style_no_trailing_newline() {
    let json = r#"{
  "key": "value"
}"#;
    let style = detect_json_style(json);
    assert_eq!(style.indent, "  ");
    assert!(!style.use_crlf);
    assert!(!style.trailing_newline);
}

#[test]
fn test_serialize_with_style_four_spaces() {
    let mut map = Members::new();
    map.push(("hello".to_string(), string("world")));

    let style = JsonStyle { indent: "    ".to_string(), use_crlf: false, trailing_newline: true };

    let result = render_locale(map, OutputFormat::Json, &style);

    assert!(result.contains("    \"hello\""));
    assert_eq!(result, "{\n    \"hello\": \"world\"\n}\n");
}

#[test]
fn test_serialize_with_style_tabs() {
    let mut map = Members::new();
    map.push(("key".to_string(), string("value")));

    let style = JsonStyle { indent: "\t".to_string(), use_crlf: false, trailing_newline: true };

    let result = render_locale(map, OutputFormat::Json, &style);

    assert!(result.contains("\t\"key\""));
}

#[test]
fn render_locale_modules_and_json5() {
    let map = parse(r#"{"foo": "bar", "empty": {}}"#);
    let style = JsonStyle::default();
    let esm = render_locale(parse(r#"{"foo": "bar"}"#), OutputFormat::JsEsm, &style);
    assert_eq!(esm, "export default {\n  \"foo\": \"bar\"\n};\n");
    let cjs = render_locale(parse(r#"{"foo": "bar"}"#), OutputFormat::JsCjs, &style);
    assert!(cjs.starts_with("module.exports = {"));
    let ts = render_locale(parse(r#"{"foo": "bar"}"#), OutputFormat::Ts, &style);
    assert!(ts.ends_with("} as const;\n"));
    let json5 = render_locale(map, OutputFormat::Json5, &style);
    assert_eq!(json5, "{\n  \"foo\": \"bar\",\n  \"empty\": {}\n}\n");
    let crlf = JsonStyle { indent: "  ".to_string(), use_crlf: true, trailing_newline: false };
    let json = render_locale(parse(r#"{"a": {}}"#), OutputFormat::Json, &crlf);
    assert_eq!(json, "{\r\n  \"a\": {\r\n  }\r\n}");
}

fn sync_one(content: &str, keys: &[ExtractedKey], config: &Config) -> (i18next_turbo::locale::SyncResult, Option<String>) {
    let matcher = PreserveMatcher::new(&config.preserve_patterns, &config.ns_separator).unwrap();
    let fs = sync_locale_text("locales/en/translation.json", content, keys, "translation", config, &matcher, false)
        .unwrap();
    (fs.result, fs.write)
}

#[test]
fn test_sync_locale_file_locked_with_mock_fs() {
    let keys = vec![key("hello", Some("Hello World")), key("button.submit", Some("Submit"))];
    let config = Config::default();
    let (result, written) = sync_one("{}", &keys, &config);

    assert_eq!(result.added_keys.len(), 2);
    assert!(result.added_keys.contains(&"hello".to_string()));
    assert!(result.added_keys.contains(&"button.submit".to_string()));
    assert_eq!(result.file_path, "locales/en/translation.json");

    let content = written.expect("File should be written");
    let parsed = parse(&content);
    assert_eq!(get(&parsed, "hello"), Some(&string("Hello World")));
    let button = as_object(get(&parsed, "button").unwrap()).unwrap();
    assert_eq!(get(button, "submit"), Some(&string("Submit")));
}

#[test]
fn test_sync_locale_file_preserves_existing_keys() {
    let keys = vec![key("existing", Some("New value")), key("new_key", Some("New key value"))];
    let mut config = Config::default();
    config.remove_unused_keys = false;
    let (result, written) = sync_one(r#"{"existing": "Already translated"}"#, &keys, &config);

    assert_eq!(result.added_keys.len(), 1);
    assert_eq!(result.added_keys[0], "new_key");
    assert_eq!(result.existing_keys, 1);

    let parsed = parse(&written.expect("File should be written"));
    assert_eq!(get(&parsed, "existing"), Some(&string("Already translated")));
    assert_eq!(get(&parsed, "new_key"), Some(&string("New key value")));
}

#[test]
fn test_remove_unused_keys_prunes_stale_entries() {
    let keys: Vec<ExtractedKey> = Vec::new();
    let mut config = Config::default();
    config.remove_unused_keys = true;
    let (result, written) = sync_one(r#"{"stale": "keep"}"#, &keys, &config);

    assert_eq!(result.added_keys.len(), 0);
    assert_eq!(result.removed_keys, vec!["stale".to_string()]);
    let parsed = parse(&written.expect("File should be written"));
    assert!(parsed.is_empty());
}

#[test]
fn test_preserve_patterns_keep_dynamic_keys() {
    let keys: Vec<ExtractedKey> = Vec::new();
    let mut config = Config::default();
    config.remove_unused_keys = true;
    config.preserve_patterns = vec!["translation:dynamic".to_string()];
    let (result, written) = sync_one(r#"{"dynamic": "value"}"#, &keys, &config);

    assert!(result.removed_keys.is_empty());
    assert!(written.is_none());
}

#[test]
fn test_sync_locale_with_json5_format() {
    let keys = vec![key("farewell", Some("Goodbye"))];
    let mut config = Config::default();
    config.output_format = OutputFormat::Json5;
    let matcher = PreserveMatcher::new(&config.preserve_patterns, &config.ns_separator).unwrap();
    let fs = sync_locale_text("locales/en/translation.json5", "{ greeting: 'Hello' }", &keys, "translation", &config, &matcher, false)
        .unwrap();

    assert_eq!(fs.result.added_keys, vec!["farewell".to_string()]);
    let content = fs.write.expect("File should be written");
    assert!(content.contains("\"farewell\""));
    assert!(content.ends_with('\n'));
}

#[test]
fn test_parse_js_module_locale() {
    let module = "export default { \"hello\": \"world\" };";
    let value = parse_locale_map(module, OutputFormat::JsEsm).expect("should parse");
    assert_eq!(get(&value, "hello"), Some(&string("world")));
}

#[test]
fn extract_json_fragment_skips_braces_in_strings() {
    assert_eq!(extract_json_fragment("x = { \"a\": \"}{\\\"\" }; y").unwrap(), "{ \"a\": \"}{\\\"\" }");
    assert_eq!(extract_json_fragment("} {").unwrap_err(), FragmentError::UnmatchedClosingBrace);
    assert_eq!(extract_json_fragment("export default 1;").unwrap_err(), FragmentError::NoObject);
}

#[test]
fn dry_run_writes_nothing() {
    let config = Config::default();
    let matcher = PreserveMatcher::new(&config.preserve_patterns, &config.ns_separator).unwrap();
    let fs = sync_locale_text("a.json", "", &[key("k", None)], "translation", &config, &matcher, true).unwrap();
    assert_eq!(fs.result.added_keys, vec!["k".to_string()]);
    assert!(fs.write.is_none());
}

#[test]
fn collect_namespaces_default_first_each_once() {
    let keys = vec![
        ExtractedKey { key: "a".to_string(), namespace: Some("common".to_string()), default_value: None },
        key("b", None),
        ExtractedKey { key: "c".to_string(), namespace: Some("translation".to_string()), default_value: None },
        ExtractedKey { key: "d".to_string(), namespace: Some("common".to_string()), default_value: None },
    ];
    assert_eq!(collect_namespaces(&keys, "translation"), vec!["translation".to_string(), "common".to_string()]);
}

#[test]
fn sync_targets_and_namespaces() {
    let mut config = Config::default();
    config.locales = vec!["en".to_string(), "de".to_string()];
    let targets = sync_targets(&config, "locales/", &["translation".to_string(), "common".to_string()]);
    let paths: Vec<_> = targets.iter().map(|t| t.path.as_str()).collect();
    assert_eq!(
        paths,
        vec!["locales/en/translation.json", "locales/en/common.json", "locales/de/translation.json", "locales/de/common.json"]
    );
    let files = vec![
        LocaleFile { path: "a.json".to_string(), namespace: "translation".to_string(), content: String::new() },
        LocaleFile { path: "b.json".to_string(), namespace: "translation".to_string(), content: "not json".to_string() },
        LocaleFile { path: "c.json".to_string(), namespace: "translation".to_string(), content: String::new() },
    ];
    let (done, failure) = sync_namespaces(&config, &[key("k", None)], &files, false).unwrap();
    assert_eq!(done.len(), 1);
    assert!(done[0].write.is_some());
    assert!(failure.is_some());
}

#[test]
fn invalid_preserve_pattern_is_rejected() {
    assert!(PreserveMatcher::new(&["a[".to_string()], ":").is_err());
    let m = PreserveMatcher::new(&["ns:dyn*".to_string(), "keep.*".to_string()], ":").unwrap();
    assert!(m.matches("ns", "dynamic"));
    assert!(m.matches("other", "keep.me"));
    assert!(!m.matches("other", "dynamic"));
}

#[test]
fn output_template_expands_locale_and_namespace() {
    let mut config = Config::default();
    config.locales = vec!["en".to_string(), "ja".to_string()];
    let targets = sync_targets(&config, "locales/$LOCALE/$NAMESPACE.json", &["translation".to_string()]);
    let paths: Vec<_> = targets.iter().map(|t| t.path.as_str()).collect();
    assert_eq!(paths, vec!["locales/en/translation.json", "locales/ja/translation.json"]);
    let locales: Vec<_> = targets.iter().map(|t| t.locale.as_str()).collect();
    assert_eq!(locales, vec!["en", "ja"]);
    let flat = sync_targets(&config, "public/$LOCALE.json", &["common".to_string()]);
    assert_eq!(flat[1].path, "public/ja.json");
}

#[test]
fn merged_namespaces_write_one_file_per_locale() {
    let mut config = Config::default();
    config.locales = vec!["en".to_string(), "ja".to_string()];
    config.merge_namespaces = true;
    config.merged_namespace_filename = Some("all".to_string());
    let keys = vec![
        ExtractedKey { key: "title".to_string(), namespace: Some("common".to_string()), default_value: Some("Title".to_string()) },
        ExtractedKey { key: "hello.world".to_string(), namespace: Some("home".to_string()), default_value: None },
    ];
    let targets = sync_all_locales(&config, &keys, "locales");
    let paths: Vec<_> = targets.iter().map(|t| t.path.as_str()).collect();
    assert_eq!(paths, vec!["locales/en/all.json", "locales/ja/all.json"]);
    let files: Vec<LocaleFile> = targets
        .iter()
        .map(|t| LocaleFile { path: t.path.clone(), namespace: t.namespace.clone(), content: String::new() })
        .collect();
    let (done, failure) = sync_namespaces(&config, &keys, &files, false).unwrap();
    assert!(failure.is_none());
    assert_eq!(done.len(), 2);
    let written = parse(done[0].write.as_ref().unwrap());
    let common = as_object(get(&written, "common").unwrap()).unwrap();
    assert_eq!(get(common, "title"), Some(&string("Title")));
    let home = as_object(get(&written, "home").unwrap()).unwrap();
    let hello = as_object(get(home, "hello").unwrap()).unwrap();
    assert_eq!(get(hello, "world"), Some(&string("")));
    assert_eq!(done[0].result.added_keys, vec!["title".to_string(), "hello.world".to_string()]);
}

#[test]
fn merged_file_keeps_sections_and_other_members() {
    let mut config = Config::default();
    config.merge_namespaces = true;
    let matcher = PreserveMatcher::new(&[], ":").unwrap();
    let content = "{\n  \"common\": {\n    \"title\": \"Hi\"\n  },\n  \"extra\": \"x\"\n}\n";
    let keys = vec![ExtractedKey { key: "title".to_string(), namespace: Some("common".to_string()), default_value: None }];
    let namespaces = vec!["common".to_string()];
    let fs = sync_merged_text("all.json", content, &keys, &namespaces, &config, &matcher, false).unwrap();
    assert_eq!(fs.result.existing_keys, 1);
    assert!(fs.result.added_keys.is_empty());
    assert!(fs.write.is_none());
    assert_eq!(fs.result.file_path, "all.json");
}

#[test]
fn existing_single_file_layout_is_reused() {
    let names = vec!["all.json".to_string(), "notes.txt".to_string(), ".json".to_string()];
    assert_eq!(existing_merged_name(&names, "json"), Some("all".to_string()));
    let several = vec!["common.json".to_string(), "home.json".to_string()];
    assert_eq!(existing_merged_name(&several, "json"), None);
    assert_eq!(existing_merged_name(&[], "json"), None);
}
