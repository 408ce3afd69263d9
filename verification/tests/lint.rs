use i18next_turbo::lint::{lint_source, should_be_translated_exec};

#[test]
fn test_lint_hardcoded_text() {
    let source = r#"
            function Component() {
                return <div>Hello World</div>;
            }
        "#;

    let issues = lint_source(source, "test.tsx");
    assert_eq!(issues.len(), 1);
    assert!(issues[0].text.contains("Hello World"));
    assert_eq!(issues[0].line, 3);
}

#[test]
fn test_lint_trans_ignored() {
    let source = r#"
            function Component() {
                return <Trans>Hello World</Trans>;
            }
        "#;

    let issues = lint_source(source, "test.tsx");
    assert_eq!(issues.len(), 0);
}

#[test]
fn test_lint_attribute() {
    let source = r#"
            function Component() {
                return <img alt="A beautiful image" />;
            }
        "#;

    let issues = lint_source(source, "test.tsx");
    assert_eq!(issues.len(), 1);
    assert!(issues[0].message.contains("alt"));
}

#[test]
fn test_lint_empty_text_ignored() {
    let source = r#"
            function Component() {
                return <div>   </div>;
            }
        "#;

    let issues = lint_source(source, "test.tsx");
    assert_eq!(issues.len(), 0);
}

#[test]
fn lint_skips_ignored_tags_and_non_jsx_files() {
    let source = "const a = <div><code>Some code</code><PRE>Pre text</PRE><p title=\"Tip text\">{x}</p></div>;";
    let issues = lint_source(source, "a.jsx");
    assert_eq!(issues.len(), 1);
    assert_eq!(issues[0].message, "Hardcoded string in 'title' attribute should be translated");
    assert_eq!(issues[0].text, "Tip text");
    assert!(lint_source("const a = <div>Hello</div>;", "a.ts").is_empty());
    assert!(lint_source("const a = <div>Hello", "a.tsx").is_empty());
}

#[test]
fn translatable_text_rules() {
    assert!(should_be_translated_exec("  Save  "));
    assert!(!should_be_translated_exec("123 !"));
    assert!(!should_be_translated_exec("a"));
    assert!(should_be_translated_exec("é"));
    assert!(!should_be_translated_exec("{value}"));
    assert!(!should_be_translated_exec("$price"));
    assert!(!should_be_translated_exec("px"));
}
