use i18next_turbo::config::OutputFormat;
use i18next_turbo::json::JsonValue;
use i18next_turbo::rename::{
    get_nested_value, parse_key_with_ns, remove_nested_value, rename_in_locale, rename_in_source, set_nested_value,
    source_key_exec,
};

fn s(t: &str) -> JsonValue {
    JsonValue::Str(t.to_string())
}

fn obj(ms: Vec<(&str, JsonValue)>) -> JsonValue {
    JsonValue::Object(ms.into_iter().map(|(k, v)| (k.to_string(), v)).collect())
}

#[test]
fn rename_key_updates_same_namespace() {
    let r = rename_in_locale(r#"{"greeting":{"old":"hi"}}"#, None, "greeting.old", "greeting.new", OutputFormat::Json)
        .unwrap()
        .unwrap();
    assert!(r.old_file.contains("\"greeting\""));
    assert!(r.old_file.contains("\"new\""));
    assert!(!r.old_file.contains("old"));
    assert!(r.new_file.is_none());
}

#[test]
fn rename_key_moves_between_namespaces() {
    let (old_ns, old_path) = parse_key_with_ns("translation:users.admin", "translation");
    let (new_ns, new_path) = parse_key_with_ns("common:people.superAdmin", "translation");
    assert_eq!(old_ns, "translation");
    assert_eq!(new_ns, "common");
    let r = rename_in_locale(r#"{"users":{"admin":"Admin"}}"#, Some(Some("{}\n")), &old_path, &new_path, OutputFormat::Json)
        .unwrap()
        .unwrap();
    assert!(!r.old_file.contains("admin"));
    assert!(r.new_file.unwrap().contains("superAdmin"));
}

#[test]
fn rename_into_missing_namespace_file_uses_default_layout() {
    let r = rename_in_locale("{\n    \"a\": \"x\"\n}\n", Some(None), "a", "b.c", OutputFormat::Json).unwrap().unwrap();
    assert_eq!(r.old_file, "{\n}\n");
    assert_eq!(r.new_file.unwrap(), "{\n  \"b\": {\n    \"c\": \"x\"\n  }\n}\n");
}

#[test]
fn rename_keeps_indentation_of_the_file() {
    let r = rename_in_locale("{\n    \"a\": \"x\",\n    \"z\": \"y\"\n}", None, "a", "m", OutputFormat::Json).unwrap().unwrap();
    assert_eq!(r.old_file, "{\n    \"m\": \"x\",\n    \"z\": \"y\"\n}");
}

#[test]
fn rename_missing_key_or_blank_file_changes_nothing() {
    assert!(rename_in_locale(r#"{"a":"x"}"#, None, "b", "c", OutputFormat::Json).unwrap().is_none());
    assert!(rename_in_locale("  \n", None, "a", "c", OutputFormat::Json).unwrap().is_none());
}

#[test]
fn rename_reports_unreadable_locale() {
    assert!(rename_in_locale("{not json", None, "a", "b", OutputFormat::Json).is_err());
    assert!(rename_in_locale(r#"{"a":"x"}"#, Some(Some("[1")), "a", "b", OutputFormat::Json).is_err());
}

#[test]
fn parse_key_with_ns_splits_at_first_colon() {
    assert_eq!(parse_key_with_ns("ns:a:b", "translation"), ("ns".to_string(), "a:b".to_string()));
    assert_eq!(parse_key_with_ns("a.b", "translation"), ("translation".to_string(), "a.b".to_string()));
}

#[test]
fn source_key_omits_default_namespace() {
    assert_eq!(source_key_exec("translation", "a.b", "translation"), "a.b");
    assert_eq!(source_key_exec("common", "a.b", "translation"), "common:a.b");
}

#[test]
fn rename_in_source_replaces_every_quoted_form() {
    let src = "t('a.b'); t(\"a.b\"); t(`a.b`); t('a.bc'); x.a.b";
    assert_eq!(
        rename_in_source(src, "a.b", "n.k").unwrap(),
        "t('n.k'); t(\"n.k\"); t(`n.k`); t('a.bc'); x.a.b"
    );
    assert!(rename_in_source("t('other')", "a.b", "n.k").is_none());
    assert!(rename_in_source("t('a.b')", "a.b", "a.b").is_none());
}

#[test]
fn nested_value_get_set_remove() {
    let mut v = obj(vec![("a", obj(vec![("b", s("x"))])), ("c", s("y"))]);
    assert_eq!(get_nested_value(&v, "a.b"), Some(s("x")));
    assert_eq!(get_nested_value(&v, "c.d"), None);
    set_nested_value(&mut v, "d.e", s("z"));
    assert_eq!(get_nested_value(&v, "d.e"), Some(s("z")));
    set_nested_value(&mut v, "c.f", s("w"));
    assert_eq!(get_nested_value(&v, "c"), Some(s("y")));
    remove_nested_value(&mut v, "a.b");
    assert_eq!(get_nested_value(&v, "a"), Some(obj(vec![])));
}
