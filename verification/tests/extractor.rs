use i18next_turbo::config::{PluralConfig, UseTranslationName};
use i18next_turbo::extractor::{
    extract_from_file_with_options, extract_from_source, extract_from_source_with_warnings, ExtractedKey,
};

#[test]
fn test_extract_simple_t_call() {
    let source = r#"
        const text = t('hello.world');
    "#;

    let keys = extract_from_source(source, "test.ts", &["t".to_string()]).unwrap();

    assert_eq!(keys.len(), 1);
    assert_eq!(keys[0].key, "hello.world");
    assert_eq!(keys[0].namespace, None);
}

#[test]
fn test_extract_i18n_t_call() {
    let source = r#"
        const text = i18n.t('greeting');
    "#;

    let keys = extract_from_source(source, "test.ts", &["i18n.t".to_string()]).unwrap();

    assert_eq!(keys.len(), 1);
    assert_eq!(keys[0].key, "greeting");
}

#[test]
fn test_extract_with_namespace() {
    let source = r#"
        const text = t('common:button.submit');
    "#;

    let keys = extract_from_source(source, "test.ts", &["t".to_string()]).unwrap();

    assert_eq!(keys.len(), 1);
    assert_eq!(keys[0].key, "button.submit");
    assert_eq!(keys[0].namespace, Some("common".to_string()));
}

#[test]
fn test_extract_multiple_calls() {
    let source = r#"
        const a = t('key1');
        const b = t('key2');
        const c = i18n.t('key3');
    "#;

    let keys = extract_from_source(source, "test.ts", &["t".to_string(), "i18n.t".to_string()])
        .unwrap();

    assert_eq!(keys.len(), 3);
}

#[test]
fn test_tsx_jsx_support() {
    let source = r#"
        function Component() {
            return <div>{t('jsx.key')}</div>;
        }
    "#;

    let keys = extract_from_source(source, "test.tsx", &["t".to_string()]).unwrap();

    assert_eq!(keys.len(), 1);
    assert_eq!(keys[0].key, "jsx.key");
}

#[test]
fn test_trans_component() {
    let source = r#"
        function Component() {
            return <Trans i18nKey="hello">World</Trans>;
        }
    "#;

    let keys = extract_from_source(source, "test.tsx", &["t".to_string()]).unwrap();

    assert_eq!(keys.len(), 1);
    assert_eq!(keys[0].key, "hello");
}

#[test]
fn test_trans_with_namespace() {
    let source = r#"
        function Component() {
            return <Trans i18nKey="common:greeting" />;
        }
    "#;

    let keys = extract_from_source(source, "test.tsx", &["t".to_string()]).unwrap();

    assert_eq!(keys.len(), 1);
    assert_eq!(keys[0].key, "greeting");
    assert_eq!(keys[0].namespace, Some("common".to_string()));
}

#[test]
fn test_trans_with_defaults() {
    let source = r#"
        function Component() {
            return <Trans i18nKey="welcome" defaults="Hello there!" />;
        }
    "#;

    let keys = extract_from_source(source, "test.tsx", &["t".to_string()]).unwrap();

    assert_eq!(keys.len(), 1);
    assert_eq!(keys[0].key, "welcome");
    assert_eq!(keys[0].default_value, Some("Hello there!".to_string()));
}

#[test]
fn test_plurals_with_count() {
    let source = r#"
        const text = t('apple', { count: 5 });
    "#;

    let keys = extract_from_source(source, "test.ts", &["t".to_string()]).unwrap();

    assert_eq!(keys.len(), 2);
    assert!(keys.iter().any(|k| k.key == "apple_one"));
    assert!(keys.iter().any(|k| k.key == "apple_other"));
}

#[test]
fn test_plurals_with_count_shorthand() {
    let source = r#"
        const count = 5;
        const text = t('item', { count });
    "#;

    let keys = extract_from_source(source, "test.ts", &["t".to_string()]).unwrap();

    assert_eq!(keys.len(), 2);
    assert!(keys.iter().any(|k| k.key == "item_one"));
    assert!(keys.iter().any(|k| k.key == "item_other"));
}

#[test]
fn test_context() {
    let source = r#"
        const text = t('friend', { context: 'male' });
    "#;

    let keys = extract_from_source(source, "test.ts", &["t".to_string()]).unwrap();

    assert_eq!(keys.len(), 1);
    assert_eq!(keys[0].key, "friend_male");
}

#[test]
fn test_plurals_with_context() {
    let source = r#"
        const text = t('friend', { count: 2, context: 'female' });
    "#;

    let keys = extract_from_source(source, "test.ts", &["t".to_string()]).unwrap();

    assert_eq!(keys.len(), 2);
    assert!(keys.iter().any(|k| k.key == "friend_female_one"));
    assert!(keys.iter().any(|k| k.key == "friend_female_other"));
}

#[test]
fn test_template_literal_simple() {
    let source = r#"
        const text = t(`hello.world`);
    "#;

    let keys = extract_from_source(source, "test.ts", &["t".to_string()]).unwrap();

    assert_eq!(keys.len(), 1);
    assert_eq!(keys[0].key, "hello.world");
}

#[test]
fn test_template_literal_with_namespace() {
    let source = r#"
        const text = t(`common:button.save`);
    "#;

    let keys = extract_from_source(source, "test.ts", &["t".to_string()]).unwrap();

    assert_eq!(keys.len(), 1);
    assert_eq!(keys[0].key, "button.save");
    assert_eq!(keys[0].namespace, Some("common".to_string()));
}

#[test]
fn test_template_literal_with_interpolation_ignored() {
    let source = r#"
        const key = 'dynamic';
        const text = t(`hello.${key}`);
    "#;

    let keys = extract_from_source(source, "test.ts", &["t".to_string()]).unwrap();

    // Template literals with interpolations should be skipped
    assert_eq!(keys.len(), 0);
}

#[test]
fn test_template_literal_dynamic_warning() {
    let source = r#"
        const id = 123;
        const text = t(`key_${id}`);
    "#;

    let keys = extract_from_source(source, "test.ts", &["t".to_string()]).unwrap();

    // Dynamic template literals should be skipped (no keys extracted)
    assert_eq!(keys.len(), 0);

    // The warning itself is printed by the command-line front end.
}

#[test]
fn test_trans_children_as_key() {
    let source = r#"
        function Component() {
            return <Trans>Hello World</Trans>;
        }
    "#;

    let keys = extract_from_source(source, "test.tsx", &["t".to_string()]).unwrap();

    assert_eq!(keys.len(), 1);
    assert_eq!(keys[0].key, "Hello World");
    assert_eq!(keys[0].default_value, Some("Hello World".to_string()));
}

#[test]
fn test_trans_children_with_html() {
    let source = r#"
        function Component() {
            return <Trans>Hello <strong>World</strong></Trans>;
        }
    "#;

    let keys = extract_from_source(source, "test.tsx", &["t".to_string()]).unwrap();

    assert_eq!(keys.len(), 1);
    assert!(keys[0].key.contains("Hello"));
    assert!(keys[0].key.contains("<strong>"));
}

#[test]
fn test_trans_ns_attribute() {
    let source = r#"
        function Component() {
            return <Trans ns="common" i18nKey="greeting">Hello</Trans>;
        }
    "#;

    let keys = extract_from_source(source, "test.tsx", &["t".to_string()]).unwrap();

    assert_eq!(keys.len(), 1);
    assert_eq!(keys[0].key, "greeting");
    assert_eq!(keys[0].namespace, Some("common".to_string()));
}

#[test]
fn test_trans_count_attribute() {
    let source = r#"
        function Component() {
            return <Trans i18nKey="item" count={5}>items</Trans>;
        }
    "#;

    let keys = extract_from_source(source, "test.tsx", &["t".to_string()]).unwrap();

    assert_eq!(keys.len(), 2);
    assert!(keys.iter().any(|k| k.key == "item_one"));
    assert!(keys.iter().any(|k| k.key == "item_other"));
}

#[test]
fn test_trans_children_with_ns_and_count() {
    let source = r#"
        function Component() {
            return <Trans ns="shop" i18nKey="product" count={3}>products</Trans>;
        }
    "#;

    let keys = extract_from_source(source, "test.tsx", &["t".to_string()]).unwrap();

    assert_eq!(keys.len(), 2);
    assert!(keys
        .iter()
        .any(|k| k.key == "product_one" && k.namespace == Some("shop".to_string())));
    assert!(keys
        .iter()
        .any(|k| k.key == "product_other" && k.namespace == Some("shop".to_string())));
}

#[test]
fn test_trans_context_attribute() {
    let source = r#"
        function Component() {
            return <Trans i18nKey="friend" context="male">Male friend</Trans>;
        }
    "#;

    let keys = extract_from_source(source, "test.tsx", &["t".to_string()]).unwrap();

    assert_eq!(keys.len(), 1);
    assert_eq!(keys[0].key, "friend_male");
}

#[test]
fn test_trans_context_with_count() {
    let source = r#"
        function Component() {
            return <Trans i18nKey="friend" context="female" count={2}>Female friends</Trans>;
        }
    "#;

    let keys = extract_from_source(source, "test.tsx", &["t".to_string()]).unwrap();

    assert_eq!(keys.len(), 2);
    assert!(keys.iter().any(|k| k.key == "friend_female_one"));
    assert!(keys.iter().any(|k| k.key == "friend_female_other"));
}

#[test]
fn test_trans_context_with_ns() {
    let source = r#"
        function Component() {
            return <Trans ns="common" i18nKey="user" context="admin">Admin user</Trans>;
        }
    "#;

    let keys = extract_from_source(source, "test.tsx", &["t".to_string()]).unwrap();

    assert_eq!(keys.len(), 1);
    assert_eq!(keys[0].key, "user_admin");
    assert_eq!(keys[0].namespace, Some("common".to_string()));
}

#[test]
fn test_trans_dynamic_context_ternary() {
    let source = r#"
        function Component({ isMale }) {
            return <Trans i18nKey="friend" context={isMale ? 'male' : 'female'}>Friend</Trans>;
        }
    "#;

    let keys = extract_from_source(source, "test.tsx", &["t".to_string()]).unwrap();
    assert!(keys.iter().any(|k| k.key == "friend_male"));
    assert!(keys.iter().any(|k| k.key == "friend_female"));
    assert!(keys.iter().any(|k| k.key == "friend"));
}

#[test]
fn test_trans_dynamic_context_with_count() {
    let source = r#"
        function Component({ count, variant }) {
            return (
                <Trans i18nKey="fruit" count={count} context={variant ? 'ripe' : 'fresh'}>
                    Fruit
                </Trans>
            );
        }
    "#;

    let keys = extract_from_source(source, "test.tsx", &["t".to_string()]).unwrap();
    assert!(keys.iter().any(|k| k.key == "fruit_ripe_one"));
    assert!(keys.iter().any(|k| k.key == "fruit_ripe_other"));
    assert!(keys.iter().any(|k| k.key == "fruit_fresh_one"));
    assert!(keys.iter().any(|k| k.key == "fruit_fresh_other"));
    assert!(keys.iter().any(|k| k.key == "fruit_one"));
    assert!(keys.iter().any(|k| k.key == "fruit_other"));
}

#[test]
fn test_use_translation_with_namespace() {
    let source = r#"
        function Component() {
            const { t } = useTranslation('common');
            return <div>{t('greeting')}</div>;
        }
    "#;

    let keys = extract_from_source(source, "test.tsx", &["t".to_string()]).unwrap();

    assert_eq!(keys.len(), 1);
    assert_eq!(keys[0].key, "greeting");
    assert_eq!(keys[0].namespace, Some("common".to_string()));
}

#[test]
fn test_use_translation_with_key_prefix() {
    let source = r#"
        function Component() {
            const { t } = useTranslation('ns', { keyPrefix: 'user' });
            return <div>{t('name')}</div>;
        }
    "#;

    let keys = extract_from_source(source, "test.tsx", &["t".to_string()]).unwrap();

    assert_eq!(keys.len(), 1);
    assert_eq!(keys[0].key, "user.name");
    assert_eq!(keys[0].namespace, Some("ns".to_string()));
}

#[test]
fn test_use_translation_key_prefix_only() {
    let source = r#"
        function Component() {
            const { t } = useTranslation({ keyPrefix: 'settings' });
            return <div>{t('theme')}</div>;
        }
    "#;

    let keys = extract_from_source(source, "test.tsx", &["t".to_string()]).unwrap();

    assert_eq!(keys.len(), 1);
    assert_eq!(keys[0].key, "settings.theme");
}

#[test]
fn test_use_translation_array_destructure() {
    let source = r#"
        function Component() {
            const [t] = useTranslation('common');
            return <div>{t('hello')}</div>;
        }
    "#;

    let keys = extract_from_source(source, "test.tsx", &["t".to_string()]).unwrap();

    assert_eq!(keys.len(), 1);
    assert_eq!(keys[0].key, "hello");
    assert_eq!(keys[0].namespace, Some("common".to_string()));
}

#[test]
fn test_use_translation_alias() {
    let source = r#"
        function Component() {
            const { t: translate } = useTranslation('common');
            return <div>{translate('world')}</div>;
        }
    "#;

    let keys = extract_from_source(source, "test.tsx", &["translate".to_string()]).unwrap();

    assert_eq!(keys.len(), 1);
    assert_eq!(keys[0].key, "world");
    assert_eq!(keys[0].namespace, Some("common".to_string()));
}

#[test]
fn test_get_fixed_t_with_namespace() {
    let source = r#"
        const t = i18n.getFixedT('en', 'common');
        const text = t('greeting');
    "#;

    let keys = extract_from_source(source, "test.ts", &["t".to_string()]).unwrap();

    assert_eq!(keys.len(), 1);
    assert_eq!(keys[0].key, "greeting");
    assert_eq!(keys[0].namespace, Some("common".to_string()));
}

#[test]
fn test_selector_api_extracts_key_path() {
    let source = r#"
        function Component() {
            return t($ => $.user.profile.name);
        }
    "#;

    let keys = extract_from_source(source, "test.ts", &["t".to_string()]).unwrap();
    assert_eq!(keys.len(), 1);
    assert_eq!(keys[0].key, "user.profile.name");
}

#[test]
fn test_use_translation_names_custom_hook() {
    let source = r#"
        function Component() {
            const { t } = loadPageTranslations('common', { keyPrefix: 'user' });
            return t('name');
        }
    "#;
    let plural_config = PluralConfig::default();
    let trans_components = vec!["Trans".to_string()];
    let hooks = vec![UseTranslationName::Detailed(
        i18next_turbo::config::UseTranslationNameDetails {
            name: "loadPageTranslations".to_string(),
            ns_arg: 0,
            key_prefix_arg: 1,
        },
    )];

    let (keys, _) = extract_from_source_with_warnings(
        source,
        "test.tsx",
        &["t".to_string()],
        &trans_components,
        &hooks,
        true,
        &plural_config,
        "$t(",
        ")",
        ",",
    )
    .unwrap();
    assert_eq!(keys.len(), 1);
    assert_eq!(keys[0].namespace, Some("common".to_string()));
    assert_eq!(keys[0].key, "user.name");
}

#[test]
fn test_nested_translation_with_custom_nesting_syntax() {
    let source = r#"
        t('outer', { defaultValue: 'Nested: __nest__("inner.key")' });
    "#;
    let plural_config = PluralConfig::default();
    let trans_components = vec!["Trans".to_string()];
    let hooks = vec![UseTranslationName::Name("useTranslation".to_string())];
    let (keys, _) = extract_from_source_with_warnings(
        source,
        "test.ts",
        &["t".to_string()],
        &trans_components,
        &hooks,
        true,
        &plural_config,
        "__nest__(",
        ")",
        ",",
    )
    .unwrap();

    assert!(keys.iter().any(|k| k.key == "outer"));
    assert!(keys.iter().any(|k| k.key == "inner.key"));
}

#[test]
fn test_ordinal_plural_generation() {
    let source = r#"
        t('rank', { count: n, ordinal: true });
    "#;

    let keys = extract_from_source(source, "test.ts", &["t".to_string()]).unwrap();
    assert!(keys.iter().any(|k| k.key == "rank_ordinal_one"));
    assert!(keys.iter().any(|k| k.key == "rank_ordinal_other"));
}

#[test]
fn test_return_objects_generates_preserve_marker() {
    let source = r#"
        t('countries', { returnObjects: true });
    "#;

    let keys = extract_from_source(source, "test.ts", &["t".to_string()]).unwrap();
    assert!(keys.iter().any(|k| k.key == "countries.*"));
    assert!(!keys.iter().any(|k| k.key == "countries"));
}

#[test]
fn test_get_fixed_t_with_key_prefix() {
    let source = r#"
        const t = getFixedT('en', 'ns', 'user.profile');
        const text = t('name');
    "#;

    let keys = extract_from_source(source, "test.ts", &["t".to_string()]).unwrap();

    assert_eq!(keys.len(), 1);
    assert_eq!(keys[0].key, "user.profile.name");
    assert_eq!(keys[0].namespace, Some("ns".to_string()));
}

#[test]
fn test_default_value_extraction() {
    let source = r#"
        const text = t('greeting', { defaultValue: 'Hello World!' });
    "#;

    let keys = extract_from_source(source, "test.ts", &["t".to_string()]).unwrap();

    assert_eq!(keys.len(), 1);
    assert_eq!(keys[0].key, "greeting");
    assert_eq!(keys[0].default_value, Some("Hello World!".to_string()));
}

#[test]
fn test_default_value_with_namespace() {
    let source = r#"
        const text = t('common:welcome', { defaultValue: 'Welcome back!' });
    "#;

    let keys = extract_from_source(source, "test.ts", &["t".to_string()]).unwrap();

    assert_eq!(keys.len(), 1);
    assert_eq!(keys[0].key, "welcome");
    assert_eq!(keys[0].namespace, Some("common".to_string()));
    assert_eq!(keys[0].default_value, Some("Welcome back!".to_string()));
}

#[test]
fn test_default_value_with_count() {
    let source = r#"
        const text = t('item', { count: 5, defaultValue: '{{count}} items' });
    "#;

    let keys = extract_from_source(source, "test.ts", &["t".to_string()]).unwrap();

    assert_eq!(keys.len(), 2);
    assert!(
        keys.iter()
            .any(|k| k.key == "item_one"
                && k.default_value == Some("{{count}} items".to_string()))
    );
    assert!(keys.iter().any(
        |k| k.key == "item_other" && k.default_value == Some("{{count}} items".to_string())
    ));
}

#[test]
fn test_extract_from_single_line_comment() {
    let source = r#"
        // t('comment.key')
        const x = 1;
    "#;

    let keys = extract_from_source(source, "test.ts", &["t".to_string()]).unwrap();

    assert_eq!(keys.len(), 1);
    assert_eq!(keys[0].key, "comment.key");
}

#[test]
fn test_extract_from_block_comment() {
    let source = r#"
        /* t('block.key') */
        const x = 1;
    "#;

    let keys = extract_from_source(source, "test.ts", &["t".to_string()]).unwrap();

    assert_eq!(keys.len(), 1);
    assert_eq!(keys[0].key, "block.key");
}

#[test]
fn test_extract_from_comment_with_default() {
    let source = r#"
        // t('greeting', 'Hello!')
        const x = 1;
    "#;

    let keys = extract_from_source(source, "test.ts", &["t".to_string()]).unwrap();

    assert_eq!(keys.len(), 1);
    assert_eq!(keys[0].key, "greeting");
    assert_eq!(keys[0].default_value, Some("Hello!".to_string()));
}

#[test]
fn test_extract_from_comment_with_options() {
    let source = r#"
        // t('message', { defaultValue: 'Default message' })
        const x = 1;
    "#;

    let keys = extract_from_source(source, "test.ts", &["t".to_string()]).unwrap();

    assert_eq!(keys.len(), 1);
    assert_eq!(keys[0].key, "message");
    assert_eq!(keys[0].default_value, Some("Default message".to_string()));
}

#[test]
fn test_extract_from_comment_with_namespace() {
    let source = r#"
        // t('common:nav.home')
        const x = 1;
    "#;

    let keys = extract_from_source(source, "test.ts", &["t".to_string()]).unwrap();

    assert_eq!(keys.len(), 1);
    assert_eq!(keys[0].key, "nav.home");
    assert_eq!(keys[0].namespace, Some("common".to_string()));
}

#[test]
fn test_extract_from_comment_with_count_option() {
    let source = r#"
        // t('notification', { count: items.length })
        const x = 1;
    "#;

    let keys = extract_from_source(source, "test.ts", &["t".to_string()]).unwrap();

    assert_eq!(keys.len(), 2);
    assert!(keys.iter().any(|k| k.key == "notification_one"));
    assert!(keys.iter().any(|k| k.key == "notification_other"));
}

#[test]
fn test_extract_from_comment_with_context_option() {
    let source = r#"
        // t('greeting', { context: 'formal' })
        const x = 1;
    "#;

    let keys = extract_from_source(source, "test.ts", &["t".to_string()]).unwrap();

    assert_eq!(keys.len(), 1);
    assert_eq!(keys[0].key, "greeting_formal");
}

#[test]
fn test_extract_from_comment_with_ns_option() {
    let source = r#"
        // t('button.save', { ns: 'common' })
        const x = 1;
    "#;

    let keys = extract_from_source(source, "test.ts", &["t".to_string()]).unwrap();

    assert_eq!(keys.len(), 1);
    assert_eq!(keys[0].key, "button.save");
    assert_eq!(keys[0].namespace, Some("common".to_string()));
}

#[test]
fn test_nested_translation_in_default_value() {
    let source = r#"
        const text = t('greeting', { defaultValue: 'Hello $t(world)!' });
    "#;

    let keys = extract_from_source(source, "test.ts", &["t".to_string()]).unwrap();

    assert_eq!(keys.len(), 2);
    assert!(keys.iter().any(|k| k.key == "greeting"));
    assert!(keys.iter().any(|k| k.key == "world"));
}

#[test]
fn test_nested_translation_with_namespace() {
    let source = r#"
        const text = t('message', { defaultValue: 'See $t(common:link)' });
    "#;

    let keys = extract_from_source(source, "test.ts", &["t".to_string()]).unwrap();

    assert_eq!(keys.len(), 2);
    assert!(keys.iter().any(|k| k.key == "message"));
    assert!(keys
        .iter()
        .any(|k| k.key == "link" && k.namespace == Some("common".to_string())));
}

#[test]
fn test_multiple_nested_translations() {
    let source = r#"
        const text = t('full', { defaultValue: '$t(hello), $t(world)!' });
    "#;

    let keys = extract_from_source(source, "test.ts", &["t".to_string()]).unwrap();

    assert_eq!(keys.len(), 3);
    assert!(keys.iter().any(|k| k.key == "full"));
    assert!(keys.iter().any(|k| k.key == "hello"));
    assert!(keys.iter().any(|k| k.key == "world"));
}

#[test]
fn test_nested_translation_with_options() {
    let source = r#"
        const text = t('count_msg', { defaultValue: 'You have $t(item, { count: {{count}} })' });
    "#;

    let keys = extract_from_source(source, "test.ts", &["t".to_string()]).unwrap();

    assert_eq!(keys.len(), 3);
    assert!(keys.iter().any(|k| k.key == "count_msg"));
    assert!(keys.iter().any(|k| k.key == "item_one"));
    assert!(keys.iter().any(|k| k.key == "item_other"));
}

#[test]
fn test_nested_translation_in_trans_defaults() {
    let source = r#"
        function Component() {
            return <Trans i18nKey="greeting" defaults="Hello $t(name)!" />;
        }
    "#;

    let keys = extract_from_source(source, "test.tsx", &["t".to_string()]).unwrap();

    assert_eq!(keys.len(), 2);
    assert!(keys.iter().any(|k| k.key == "greeting"));
    assert!(keys.iter().any(|k| k.key == "name"));
}

fn extract_from_virtual_file(content: &str, file_name: &str, functions: &[String]) -> Vec<ExtractedKey> {
    extract_from_file_with_options(file_name, content, functions, true, &PluralConfig::default()).unwrap()
}

#[test]
fn test_vue_component_script_and_template() {
    let source = r#"
            <template>
              <div>{{ $t('template.title') }}</div>
              <button :title="t('template.tooltip', { defaultValue: 'Tooltip' })"></button>
            </template>
            <script setup lang="ts">
            const label = t('script.key');
            </script>
        "#;

    let functions = vec!["t".to_string()];
    let keys = extract_from_virtual_file(source, "component.vue", &functions);

    assert_eq!(keys.len(), 3);
    assert!(keys.iter().any(|k| k.key == "script.key"));
    assert!(keys.iter().any(|k| k.key == "template.title"));
    let tooltip = keys
        .iter()
        .find(|k| k.key == "template.tooltip")
        .expect("template tooltip key");
    assert_eq!(tooltip.default_value.as_deref(), Some("Tooltip"));
}

#[test]
fn test_svelte_component_script_and_markup() {
    let source = r#"
            <script>
              const heading = t('script.value', { defaultValue: 'Value' });
            </script>

            <h1>{$t('template.header')}</h1>
        "#;

    let functions = vec!["t".to_string()];
    let keys = extract_from_virtual_file(source, "component.svelte", &functions);

    assert_eq!(keys.len(), 2);
    let script_key = keys
        .iter()
        .find(|k| k.key == "script.value")
        .expect("script key");
    assert_eq!(script_key.default_value.as_deref(), Some("Value"));
    assert!(keys.iter().any(|k| k.key == "template.header"));
}
