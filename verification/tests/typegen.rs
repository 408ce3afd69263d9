use i18next_turbo::cleanup::LocaleText;
use i18next_turbo::config::{EnableSelector, OutputFormat};
use i18next_turbo::locale::parse_locale_map;
use i18next_turbo::typegen::{generate_types, generate_types_with_options, load_resources, to_pascal_case, write_ts_content};

fn resources(json: &str) -> Vec<(String, i18next_turbo::json::JsonValue)> {
    parse_locale_map(json, OutputFormat::Json).unwrap()
}

#[test]
fn test_to_pascal_case() {
    assert_eq!(to_pascal_case("translation"), "Translation");
    assert_eq!(to_pascal_case("common-errors"), "CommonErrors");
    assert_eq!(to_pascal_case("my_namespace"), "MyNamespace");
    assert_eq!(to_pascal_case("a..b"), "AB");
    assert_eq!(to_pascal_case("ßx"), "SSx");
}

#[test]
fn test_generate_ts_content() {
    let res = resources(r#"{"translation": {"hello": "Hello", "button": {"submit": "Submit", "cancel": "Cancel"}}}"#);

    let ts = write_ts_content(&res, "  ", true, None);

    assert!(ts.contains("interface Translation {"));
    assert!(ts.contains("hello: string;"));
    assert!(ts.contains("button: {"));
    assert!(ts.contains("submit: string;"));
    assert!(ts.contains("interface Resources {"));
    assert!(ts.contains("\"translation\": Translation;"));
}

#[test]
fn test_generate_ts_content_with_custom_indent() {
    let res = resources(r#"{"translation": {"hello": "Hello"}}"#);

    let ts = write_ts_content(&res, "\t", true, None);
    assert!(ts.contains("\t\"translation\": Translation;"));
    assert!(ts.contains("\thello: string;"));
}

#[test]
fn test_generate_ts_content_with_enable_selector_optimize() {
    let res = resources(r#"{"common": {"hello": "Hello"}}"#);

    let ts = write_ts_content(&res, "  ", true, Some(&EnableSelector::Mode("optimize".to_string())));
    assert!(ts.contains("export type SelectorRoot = Resources;"));
    assert!(ts.contains("export type SelectorKey ="));
    assert!(ts.contains("\"common.hello\""));
}

#[test]
fn ts_content_exact_layout() {
    let res = resources(r#"{"common": {"b.c": "x", "n": 1, "o": {"z": "1", "a": "2"}}}"#);
    let ts = write_ts_content(&res, "  ", false, Some(&EnableSelector::Mode("optimize".to_string())));
    assert_eq!(
        ts,
        "// This file is auto-generated by i18next-turbo\n// Do not edit manually\n\n\
interface Common {\n  \"b.c\": string;\n  n: unknown;\n  o: {\n    z: string;\n    a: string;\n  };\n}\n\n\
interface Resources {\n  \"common\": Common;\n}\n\n\
export { Resources };\n\n\
export type SelectorRoot = Resources;\n\
export type SelectorFn<T = unknown> = ($: SelectorRoot) => T;\n\
export declare function keyFromSelector<T>(selector: SelectorFn<T>): string;\n\
export type SelectorKey =\n  | \"common.b.c\"\n  | \"common.n\"\n  | \"common.o.a\"\n  | \"common.o.z\"\n;\n"
    );
}

#[test]
fn test_generate_types_with_input_patterns_and_resources_file() {
    let files = vec![LocaleText {
        path: "locales/en/common.json".to_string(),
        content: r#"{ "hello": "Hello", "nested": { "x": "y" } }"#.to_string(),
    }];
    let out = generate_types_with_options(&files, Some("  "), true, None, false).unwrap().unwrap();
    assert!(out.main.contains("interface Common"));
    assert!(!out.main.contains("interface Ignore"));
    assert!(out.main.contains("export default Resources;"));
    let resources_content = out.resources.unwrap();
    assert!(resources_content.contains("export { Resources };"));
    assert!(!resources_content.contains("export default Resources;"));
}

#[test]
fn generate_types_merges_namespaces_and_reports_bad_files() {
    let files = vec![
        LocaleText { path: "l/en/all.json".to_string(), content: r#"{"a": {"x": "1"}, "b": {"y": "2"}}"#.to_string() },
        LocaleText { path: "l/en/more.json".to_string(), content: r#"{"a": {"z": "3"}}"#.to_string() },
    ];
    let res = load_resources(&files, true).unwrap();
    let names: Vec<_> = res.iter().map(|(k, _)| k.as_str()).collect();
    assert_eq!(names, vec!["a", "b"]);
    let bad = vec![LocaleText { path: "l/en/bad.json".to_string(), content: "{".to_string() }];
    assert_eq!(generate_types(&bad).unwrap_err().file_path, "l/en/bad.json");
    assert!(generate_types(&[]).unwrap().is_none());
}
