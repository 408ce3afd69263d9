use i18next_turbo::config::{
    Config, ConfigError, EnableSelector, Indentation, NapiConfig, NapiIndentation, NapiLocizeConfig, NapiTypesConfig,
    OutputFormat, PatternList,
};

#[test]
fn types_output_defaults_to_standard_path() {
    let config = Config::default();
    assert_eq!(config.types_output_path(), Config::default_types_output());
}

#[test]
fn plural_config_uses_locale_rules_when_enabled() {
    let mut config = Config::default();
    config.locales = vec!["ru".to_string()];
    config.use_locale_plural_rules = true;
    let plural = config.plural_config();
    assert!(plural.suffixes.contains(&"few".to_string()));
    assert!(plural.suffixes.contains(&"many".to_string()));
    assert!(plural.suffixes.contains(&"one".to_string()));
    assert!(plural.suffixes.contains(&"other".to_string()));
}

#[test]
fn plural_config_uses_explicit_suffixes_when_disabled() {
    let mut config = Config::default();
    config.use_locale_plural_rules = false;
    config.plural_suffixes = vec!["zero".to_string(), "other".to_string()];
    let plural = config.plural_config();
    assert_eq!(plural.suffixes, vec!["zero".to_string(), "other".to_string()]);
}

#[test]
fn plural_config_returns_empty_when_disable_plurals_is_true() {
    let mut config = Config::default();
    config.disable_plurals = true;
    let plural = config.plural_config();
    assert!(plural.suffixes.is_empty());
}

#[test]
fn resolves_secondary_languages_from_explicit_or_locales() {
    let mut config = Config::default();
    config.locales = vec!["en".to_string(), "ja".to_string(), "fr".to_string()];
    config.primary_language = Some("en".to_string());
    assert_eq!(config.secondary_languages(), vec!["ja".to_string(), "fr".to_string()]);

    config.secondary_languages = Some(vec!["fr".to_string()]);
    assert_eq!(config.secondary_languages(), vec!["fr".to_string()]);
}

#[test]
fn plural_config_merges_locale_categories_sorted_by_name() {
    let mut config = Config::default();
    config.locales = vec!["en".to_string(), "ar".to_string()];
    config.use_locale_plural_rules = true;
    let plural = config.plural_config();
    assert_eq!(
        plural.suffixes,
        vec!["few".to_string(), "many".to_string(), "one".to_string(), "other".to_string(), "two".to_string(), "zero".to_string()]
    );
}

#[test]
fn output_format_names_and_extensions() {
    assert_eq!(OutputFormat::parse_str("JSON5").unwrap().extension(), "json5");
    assert_eq!(OutputFormat::parse_str("js-esm").map(|f| f.extension()).ok(), Some("js"));
    assert!(OutputFormat::parse_str("yaml").is_err());
    let mut config = Config::default();
    config.output_format = OutputFormat::Ts;
    assert_eq!(config.output_extension(), "ts");
}

#[test]
fn config_errors_have_messages() {
    assert_eq!(
        ConfigError::BlankLocale(2).message(),
        "Configuration error: 'locales[2]' is empty.\nEach locale must be a non-empty string like \"en\" or \"ja\"."
    );
    assert_eq!(
        ConfigError::InvalidPattern { list: PatternList::Ignore, pattern: "a[".to_string(), message: "bad".to_string() }.message(),
        "Configuration error: invalid glob in 'ignore': 'a['.\nGlob error: bad"
    );
    assert_eq!(
        ConfigError::InvalidOutputChar('|').message(),
        "Configuration error: 'output' contains invalid character '|'.\nPlease use a valid directory path."
    );
    let mut config = Config::default();
    config.locales = vec![];
    assert_eq!(
        config.validate().unwrap_err().message(),
        "Configuration error: 'locales' must contain at least one locale.\nExample: \"locales\": [\"en\", \"ja\"]"
    );
}

fn empty_napi() -> NapiConfig {
    NapiConfig {
        input: None, output: None, outputFormat: None, locales: None, defaultNamespace: None, functions: None,
        useTranslationNames: None, keySeparator: None, nsSeparator: None, contextSeparator: None,
        pluralSeparator: None, pluralSuffixes: None, disablePlurals: None, generateBasePluralForms: None,
        extractFromComments: None, useLocalePluralRules: None, ignore: None, preservePatterns: None,
        preserveContextVariants: None, removeUnusedKeys: None, mergeNamespaces: None, mergedNamespaceFilename: None, defaultValue: None,
        transComponents: None, transKeepBasicHtmlNodesFor: None, nestingPrefix: None, nestingSuffix: None,
        nestingOptionsSeparator: None, interpolationPrefix: None, interpolationSuffix: None, types: None,
        locize: None, primaryLanguage: None, secondaryLanguages: None, indentation: None, logLevel: None,
    }
}

#[test]
fn napi_config_without_options_is_the_default() {
    let c = Config::from_napi(empty_napi()).unwrap();
    let d = Config::default();
    assert_eq!(c.input, d.input);
    assert_eq!(c.output, d.output);
    assert_eq!(c.locales, d.locales);
    assert_eq!(c.lint.ignored_tags, d.lint.ignored_tags);
    assert_eq!(c.lint.accepted_tags, d.lint.accepted_tags);
    assert!(c.locize.is_none() && c.indentation.is_none() && c.types.resources_file.is_none());
    assert_eq!(c.log_level, "info");
}

#[test]
fn napi_config_maps_types_locize_and_indentation() {
    let mut n = empty_napi();
    n.types = Some(NapiTypesConfig {
        input: None,
        output: Some("t.d.ts".to_string()),
        resourcesFile: Some("r.d.ts".to_string()),
        enableSelector: Some(" Optimize ".to_string()),
        defaultLocale: Some("ja".to_string()),
        localesDir: Some("loc".to_string()),
        indentation: Some(NapiIndentation { spaces: Some(4), custom: None }),
    });
    n.locize = Some(NapiLocizeConfig {
        projectId: Some("pid".to_string()), apiKey: None, version: Some("v2".to_string()),
        sourceLanguage: Some("en".to_string()), namespaces: Some(vec!["common".to_string()]),
        updateValues: Some(false), sourceLanguageOnly: Some(true), compareModificationTime: Some(true),
        cdnType: Some("pro".to_string()), dryRun: Some(true),
    });
    n.indentation = Some(NapiIndentation { spaces: None, custom: Some("\t".to_string()) });
    let c = Config::from_napi(n).unwrap();
    assert!(matches!(c.types.enable_selector, Some(EnableSelector::Mode(ref m)) if m == "optimize"));
    assert_eq!(c.types.resources_file.as_deref(), Some("r.d.ts"));
    assert!(matches!(c.types.indentation, Some(Indentation::Spaces(4))));
    let z = c.locize.unwrap();
    assert_eq!(z.version.as_deref(), Some("v2"));
    assert_eq!(z.namespaces, Some(vec!["common".to_string()]));
    assert_eq!((z.update_values, z.source_language_only, z.dry_run), (Some(false), Some(true), Some(true)));
    assert!(matches!(c.indentation, Some(Indentation::Custom(ref s)) if s == "\t"));
}
