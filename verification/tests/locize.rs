use i18next_turbo::config::{Config, LocizeConfig, OutputFormat};
use i18next_turbo::json::JsonValue;
use i18next_turbo::locale::parse_locale_map;
use i18next_turbo::locize::{
    detect_namespaces, download_base_host, download_url, ensure_supported_format, filter_new_keys,
    locale_namespace_path, parse_csv_list, parse_payload, resolve_api_key, resolve_namespaces,
    resolve_setup_output_path, resolve_version, transfer_locales, upload_url, LocaleListing,
};
use i18next_turbo::locize::{locize_setup_entry, prompt_answer, with_locize_entry, MissingProjectId, RootNotObject};

fn locize(api_key: Option<&str>, namespaces: Option<Vec<&str>>, cdn_type: Option<&str>) -> LocizeConfig {
    LocizeConfig {
        project_id: "pid".to_string(),
        api_key: api_key.map(|k| k.to_string()),
        version: None,
        source_language: None,
        namespaces: namespaces.map(|v| v.into_iter().map(|s| s.to_string()).collect()),
        update_values: None,
        source_language_only: None,
        compare_modification_time: None,
        cdn_type: cdn_type.map(|c| c.to_string()),
        dry_run: None,
    }
}

fn object(json: &str) -> JsonValue {
    JsonValue::Object(parse_locale_map(json, OutputFormat::Json).unwrap())
}

#[test]
fn ensure_supported_format_rejects_js_output() {
    let mut config = Config::default();
    config.output_format = OutputFormat::JsEsm;
    let err = ensure_supported_format(&config).unwrap_err();
    assert!(err.message().contains("JSON/JSON5"));
    config.output_format = OutputFormat::Json5;
    assert!(ensure_supported_format(&config).is_ok());
}

#[test]
fn resolve_api_key_prefers_config_value() {
    let l = locize(Some("from-config"), None, None);
    let resolved = resolve_api_key(&l, Some("from-env".to_string())).unwrap();
    assert_eq!(resolved, "from-config");
    let blank = locize(Some("  "), None, None);
    assert_eq!(resolve_api_key(&blank, Some("from-env".to_string())).unwrap(), "from-env");
    assert!(resolve_api_key(&blank, None).is_err());
}

#[test]
fn resolve_namespaces_uses_override_first() {
    let mut config = Config::default();
    config.output = ".".to_string();
    let l = locize(Some("k"), Some(vec!["ignored"]), None);
    let resolved = resolve_namespaces(&config, &l, Some("forced"), "json", &[]);
    assert_eq!(resolved, vec!["forced".to_string()]);
}

#[test]
fn resolve_namespaces_uses_locize_namespaces_when_present() {
    let mut config = Config::default();
    config.output = ".".to_string();
    let l = locize(Some("k"), Some(vec!["a", "b"]), None);
    let resolved = resolve_namespaces(&config, &l, None, "json", &[]);
    assert_eq!(resolved, vec!["a".to_string(), "b".to_string()]);
}

#[test]
fn detect_namespaces_from_files_prefers_existing_locale() {
    let config = Config::default();
    let listings = vec![
        LocaleListing { files: vec!["locales/en/notes.txt".to_string()] },
        LocaleListing {
            files: vec![
                "locales/ja/home.JSON".to_string(),
                "locales/ja/common.json".to_string(),
                "locales/ja/home.json".to_string(),
            ],
        },
    ];
    assert_eq!(detect_namespaces(&config, &listings, "json"), vec!["common".to_string(), "home".to_string()]);
}

#[test]
fn detect_namespaces_falls_back_to_default() {
    let config = Config::default();
    let namespaces = detect_namespaces(&config, &[], "json");
    assert_eq!(namespaces, vec![config.effective_default_namespace().to_string()]);
}

#[test]
fn download_base_host_uses_pro_when_configured() {
    let l = locize(Some("k"), None, Some("pro"));
    assert_eq!(download_base_host(&l), "api.locize.pro");
    assert_eq!(download_base_host(&locize(None, None, None)), "api.locize.app");
}

#[test]
fn locale_namespace_path_builds_expected_path() {
    let mut config = Config::default();
    config.output = "locales".to_string();
    let p = locale_namespace_path(&config, "en", "common", "json");
    assert!(p.ends_with("locales/en/common.json"));
}

#[test]
fn resolve_setup_output_path_prefers_json_source_when_available() {
    let p = resolve_setup_output_path(Some("/tmp/project/i18next-turbo.json"), None);
    assert_eq!(p, "/tmp/project/i18next-turbo.json");
    assert_eq!(resolve_setup_output_path(Some("cfg.JSON"), None), "cfg.JSON");
    assert_eq!(resolve_setup_output_path(Some("cfg.js"), None), "i18next-turbo.json");
    assert_eq!(resolve_setup_output_path(Some("cfg.js"), Some("out.json".to_string())), "out.json");
}

#[test]
fn parse_csv_list_splits_and_trims_entries() {
    let items = parse_csv_list("common, home, ,auth");
    assert_eq!(items, vec!["common".to_string(), "home".to_string(), "auth".to_string()]);
}

#[test]
fn filter_new_keys_keeps_only_missing_remote_keys() {
    let local = object(r#"{"a": "1", "b": {"x": "2", "y": "3"}, "c": "4"}"#);
    let remote = object(r#"{"a": "old", "b": {"x": "old"}}"#);
    let diff = filter_new_keys(&local, &remote);
    assert_eq!(diff, object(r#"{"b": {"y": "3"}, "c": "4"}"#));
}

#[test]
fn read_local_payload_supports_json_and_json5() {
    let json_v = parse_payload(r#"{"hello":"world"}"#, OutputFormat::Json).unwrap();
    assert_eq!(json_v, object(r#"{"hello": "world"}"#));
    let json5_v = parse_payload("{ hello: 'world' }", OutputFormat::Json5).unwrap();
    assert_eq!(json5_v, object(r#"{"hello": "world"}"#));
    assert!(parse_payload("{}", OutputFormat::Ts).is_err());
}

#[test]
fn transfer_urls_versions_and_locales() {
    let mut l = locize(Some("k"), None, None);
    assert_eq!(resolve_version(&l), "latest");
    assert_eq!(upload_url(&l, "latest", "en", "common"), "https://api.locize.io/pid/latest/en/common");
    assert_eq!(download_url(&l, "v2", "de", "home"), "https://api.locize.app/pid/v2/de/home");
    let mut config = Config::default();
    config.locales = vec!["en".to_string(), "de".to_string()];
    assert_eq!(transfer_locales(&config, &l, None), vec!["en".to_string(), "de".to_string()]);
    assert_eq!(transfer_locales(&config, &l, Some("fr".to_string())), vec!["fr".to_string()]);
    l.source_language_only = Some(true);
    assert_eq!(transfer_locales(&config, &l, Some("fr".to_string())), vec!["en".to_string()]);
}

fn sv(t: &str) -> JsonValue {
    JsonValue::Str(t.to_string())
}

#[test]
fn setup_entry_keeps_given_settings() {
    let e = locize_setup_entry(
        Some(" pid ".to_string()),
        Some("key".to_string()),
        Some("  ".to_string()),
        None,
        Some("common, ,app".to_string()),
    )
    .unwrap();
    assert_eq!(
        e,
        JsonValue::Object(vec![
            ("projectId".to_string(), sv("pid")),
            ("apiKey".to_string(), sv("key")),
            ("namespaces".to_string(), JsonValue::Array(vec![sv("common"), sv("app")])),
        ])
    );
    assert_eq!(locize_setup_entry(Some("  ".to_string()), None, None, None, None), Err(MissingProjectId));
    assert_eq!(locize_setup_entry(None, None, None, None, None), Err(MissingProjectId));
    assert!(MissingProjectId.message().contains("locize.projectId"));
}

#[test]
fn setup_entry_is_set_on_the_root_object() {
    let root = JsonValue::Object(vec![("locize".to_string(), sv("old")), ("output".to_string(), sv("locales"))]);
    let r = with_locize_entry(root, sv("new")).unwrap();
    assert_eq!(
        r,
        JsonValue::Object(vec![("locize".to_string(), sv("new")), ("output".to_string(), sv("locales"))])
    );
    assert_eq!(with_locize_entry(JsonValue::Null, sv("x")), Err(RootNotObject));
}

#[test]
fn prompt_answers_fall_back_to_default() {
    assert_eq!(prompt_answer("  \n", Some("latest".to_string())), Some("latest".to_string()));
    assert_eq!(prompt_answer(" v2 \n", Some("latest".to_string())), Some("v2".to_string()));
    assert_eq!(prompt_answer("", None), None);
}
