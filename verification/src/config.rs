//! Configuration: its types, defaults, derived settings and validation.
use crate::text::{append_chars, chars_of, owned, seq_eq, string_of, views};
use crate::json::string_is;
use vstd::prelude::*;

verus! {

/// Format of the locale files that are written.
#[derive(Debug, Clone, Copy, PartialEq, Eq, Structural)]
pub enum OutputFormat {
    Json,
    Json5,
    JsEsm,
    JsCjs,
    Ts,
}

pub open spec fn spec_extension(f: OutputFormat) -> Seq<char> {
    match f {
        OutputFormat::Json => "json"@,
        OutputFormat::Json5 => "json5"@,
        OutputFormat::JsEsm | OutputFormat::JsCjs => "js"@,
        OutputFormat::Ts => "ts"@,
    }
}

/// An `outputFormat` value that is not one of the supported names.
#[derive(Debug, Clone)]
pub struct UnsupportedFormat {
    /// The value, lower-cased.
    pub value: String,
}

/// The format named by a lower-cased `outputFormat` value.
pub open spec fn format_named(lower: Seq<char>) -> Option<OutputFormat> {
    if lower == "json"@ {
        Some(OutputFormat::Json)
    } else if lower == "json5"@ {
        Some(OutputFormat::Json5)
    } else if lower == "js"@ || lower == "js-esm"@ {
        Some(OutputFormat::JsEsm)
    } else if lower == "js-cjs"@ {
        Some(OutputFormat::JsCjs)
    } else if lower == "ts"@ {
        Some(OutputFormat::Ts)
    } else {
        None
    }
}

/// What `str::to_lowercase` makes of a string.
pub uninterp spec fn lowercase(s: Seq<char>) -> Seq<char>;

/// `str::to_lowercase` (full Unicode case mapping); the result is named, not described.
#[verifier::external_body]
pub(crate) fn to_lowercase(s: &str) -> (r: String)
    ensures
        r@ == lowercase(s@),
{
    s.to_lowercase()
}

impl OutputFormat {
    /// File extension for the format.
    pub fn extension(&self) -> (r: &'static str)
        ensures
            r@ == spec_extension(*self),
    {
        match self {
            OutputFormat::Json => "json",
            OutputFormat::Json5 => "json5",
            OutputFormat::JsEsm | OutputFormat::JsCjs => "js",
            OutputFormat::Ts => "ts",
        }
    }

    /// Parses an `outputFormat` value, case-insensitively.
    pub fn parse_str(value: &str) -> (r: Result<OutputFormat, UnsupportedFormat>)
        ensures
            match r {
                Ok(f) => format_named(lowercase(value@)) == Some(f),
                Err(e) => format_named(lowercase(value@)) is None && e.value@ == lowercase(value@),
            },
    {
        let lower = to_lowercase(value);
        let lc = chars_of(lower.as_str());
        if seq_eq(&lc, &chars_of("json")) {
            Ok(OutputFormat::Json)
        } else if seq_eq(&lc, &chars_of("json5")) {
            Ok(OutputFormat::Json5)
        } else if seq_eq(&lc, &chars_of("js")) || seq_eq(&lc, &chars_of("js-esm")) {
            Ok(OutputFormat::JsEsm)
        } else if seq_eq(&lc, &chars_of("js-cjs")) {
            Ok(OutputFormat::JsCjs)
        } else if seq_eq(&lc, &chars_of("ts")) {
            Ok(OutputFormat::Ts)
        } else {
            Err(UnsupportedFormat { value: lower })
        }
    }
}

/// Argument positions of a hook that returns a translation function.
#[derive(Debug, Clone)]
pub struct UseTranslationNameDetails {
    pub name: String,
    pub ns_arg: usize,
    pub key_prefix_arg: usize,
}

/// A hook-like function that returns a bound translation function.
#[derive(Debug, Clone)]
pub enum UseTranslationName {
    Name(String),
    Detailed(UseTranslationNameDetails),
}

pub open spec fn hook_name(h: UseTranslationName) -> Seq<char> {
    match h {
        UseTranslationName::Name(n) => n@,
        UseTranslationName::Detailed(d) => d.name@,
    }
}

pub open spec fn hook_ns_arg(h: UseTranslationName) -> usize {
    match h {
        UseTranslationName::Name(_) => 0,
        UseTranslationName::Detailed(d) => d.ns_arg,
    }
}

pub open spec fn hook_key_prefix_arg(h: UseTranslationName) -> usize {
    match h {
        UseTranslationName::Name(_) => 1,
        UseTranslationName::Detailed(d) => d.key_prefix_arg,
    }
}

impl UseTranslationName {
    pub fn name(&self) -> (r: &str)
        ensures
            r@ == hook_name(*self),
    {
        match self {
            UseTranslationName::Name(name) => name.as_str(),
            UseTranslationName::Detailed(details) => details.name.as_str(),
        }
    }

    pub fn ns_arg(&self) -> (r: usize)
        ensures
            r == hook_ns_arg(*self),
    {
        match self {
            UseTranslationName::Name(_) => default_ns_arg(),
            UseTranslationName::Detailed(details) => details.ns_arg,
        }
    }

    pub fn key_prefix_arg(&self) -> (r: usize)
        ensures
            r == hook_key_prefix_arg(*self),
    {
        match self {
            UseTranslationName::Name(_) => default_key_prefix_arg(),
            UseTranslationName::Detailed(details) => details.key_prefix_arg,
        }
    }
}

/// A separator that may be disabled (`false` in the configuration, held as empty).
#[derive(Debug, Clone, PartialEq, Eq, Default)]
pub struct OptionalSeparator(pub String);

impl OptionalSeparator {
    pub fn as_str(&self) -> (r: &str)
        ensures
            r@ == self.0@,
    {
        self.0.as_str()
    }

    pub fn is_empty(&self) -> (r: bool)
        ensures
            r == (self.0@.len() == 0),
    {
        let c = chars_of(self.0.as_str());
        c.len() == 0
    }
}

/// JSON indentation: a number of spaces or a literal string.
#[derive(Debug, Clone)]
pub enum Indentation {
    Spaces(usize),
    Custom(String),
}

pub open spec fn indentation_text(i: Indentation) -> Seq<char> {
    match i {
        Indentation::Spaces(n) => crate::json::repeat(" "@, n as nat),
        Indentation::Custom(s) => s@,
    }
}

impl Indentation {
    /// The indentation as text (what its `Display` wrote).
    pub fn to_indent_string(&self) -> (r: String)
        ensures
            r@ == indentation_text(*self),
    {
        match self {
            Indentation::Spaces(n) => {
                let mut v: Vec<char> = Vec::new();
                let mut i: usize = 0;
                while i < *n
                    invariant
                        i <= *n,
                        v@ == crate::json::repeat(" "@, i as nat),
                    decreases *n - i,
                {
                    let sp = chars_of(" ");
                    append_chars(&mut v, &sp);
                    i = i + 1;
                }
                string_of(&v)
            },
            Indentation::Custom(s) => s.clone(),
        }
    }
}

/// Settings for plural and context key generation.
#[derive(Debug, Clone)]
pub struct PluralConfig {
    pub separator: String,
    pub suffixes: Vec<String>,
    /// Whether to generate the base key alongside plural keys.
    pub generate_base: bool,
    pub context_separator: String,
}

impl PluralConfig {
    pub fn default() -> (r: PluralConfig)
        ensures
            r.separator@ == "_"@,
            views(r.suffixes@) == seq!["one"@, "other"@],
            !r.generate_base,
            r.context_separator@ == "_"@,
    {
        let suffixes = vec![owned("one"), owned("other")];
        assert(views(suffixes@) =~= seq!["one"@, "other"@]);
        PluralConfig {
            separator: owned("_"),
            suffixes,
            generate_base: false,
            context_separator: owned("_"),
        }
    }
}

/// `enableSelector`: a flag or a mode name.
#[derive(Debug, Clone)]
pub enum EnableSelector {
    Bool(bool),
    Mode(String),
}

impl EnableSelector {
    pub fn enabled(&self) -> (r: bool)
        ensures
            r == match *self {
                EnableSelector::Bool(v) => v,
                EnableSelector::Mode(m) => m@ == "optimize"@,
            },
    {
        match self {
            EnableSelector::Bool(v) => *v,
            EnableSelector::Mode(mode) => string_is(mode, &chars_of("optimize")),
        }
    }

    pub fn optimize(&self) -> (r: bool)
        ensures
            r == (*self matches EnableSelector::Mode(m) && m@ == "optimize"@),
    {
        match self {
            EnableSelector::Bool(_) => false,
            EnableSelector::Mode(mode) => string_is(mode, &chars_of("optimize")),
        }
    }
}

/// Type generation settings.
#[derive(Debug, Clone)]
pub struct TypesConfig {
    pub input: Option<Vec<String>>,
    pub output: Option<String>,
    pub resources_file: Option<String>,
    pub enable_selector: Option<EnableSelector>,
    pub default_locale: Option<String>,
    pub locales_dir: Option<String>,
    pub indentation: Option<Indentation>,
}

impl TypesConfig {
    pub fn default() -> (r: TypesConfig)
        ensures
            r.input is None && r.output is None && r.resources_file is None,
            r.enable_selector is None && r.default_locale is None,
            r.locales_dir is None && r.indentation is None,
    {
        TypesConfig {
            input: None,
            output: None,
            resources_file: None,
            enable_selector: None,
            default_locale: None,
            locales_dir: None,
            indentation: None,
        }
    }
}

/// Lint settings.
#[derive(Debug, Clone)]
pub struct LintConfig {
    pub ignored_attributes: Vec<String>,
    pub ignored_tags: Vec<String>,
    pub accepted_attributes: Vec<String>,
    pub accepted_tags: Vec<String>,
    pub ignore: Vec<String>,
}

impl LintConfig {
    pub fn default() -> (r: LintConfig)
        ensures
            r.ignored_attributes@.len() == 0,
            views(r.ignored_tags@) == seq!["script"@, "style"@, "code"@, "pre"@],
            views(r.accepted_attributes@) == seq![
                "alt"@,
                "title"@,
                "placeholder"@,
                "aria-label"@,
                "aria-description"@,
            ],
            views(r.accepted_tags@) == seq!["p"@, "span"@, "div"@, "button"@, "label"@, "img"@],
            r.ignore@.len() == 0,
    {
        LintConfig {
            ignored_attributes: default_lint_ignored_attributes(),
            ignored_tags: default_lint_ignored_tags(),
            accepted_attributes: default_lint_accepted_attributes(),
            accepted_tags: default_lint_accepted_tags(),
            ignore: Vec::new(),
        }
    }
}

/// Locize integration settings.
#[derive(Debug, Clone)]
pub struct LocizeConfig {
    pub project_id: String,
    pub api_key: Option<String>,
    pub version: Option<String>,
    pub source_language: Option<String>,
    pub namespaces: Option<Vec<String>>,
    pub update_values: Option<bool>,
    pub source_language_only: Option<bool>,
    pub compare_modification_time: Option<bool>,
    pub cdn_type: Option<String>,
    pub dry_run: Option<bool>,
}

pub fn default_input() -> (r: Vec<String>)
    ensures
        views(r@) == seq!["src/**/*.{ts,tsx,js,jsx}"@],
{
    let r = vec![owned("src/**/*.{ts,tsx,js,jsx}")];
    assert(views(r@) =~= seq!["src/**/*.{ts,tsx,js,jsx}"@]);
    r
}

pub fn default_output() -> (r: String)
    ensures
        r@ == "locales"@,
{
    owned("locales")
}

pub fn default_locales() -> (r: Vec<String>)
    ensures
        views(r@) == seq!["en"@],
{
    let r = vec![owned("en")];
    assert(views(r@) =~= seq!["en"@]);
    r
}

pub fn default_namespace() -> (r: String)
    ensures
        r@ == "translation"@,
{
    owned("translation")
}

pub fn default_functions() -> (r: Vec<String>)
    ensures
        views(r@) == seq!["t"@],
{
    let r = vec![owned("t")];
    assert(views(r@) =~= seq!["t"@]);
    r
}

/// The hook names recognised by default.
pub open spec fn default_hooks(r: Seq<UseTranslationName>) -> bool {
    &&& r.len() == 3
    &&& r[0] matches UseTranslationName::Name(n) && n@ == "useTranslation"@
    &&& r[1] matches UseTranslationName::Name(n) && n@ == "getT"@
    &&& r[2] matches UseTranslationName::Name(n) && n@ == "useT"@
}

pub fn default_use_translation_names() -> (r: Vec<UseTranslationName>)
    ensures
        default_hooks(r@),
{
    vec![
        UseTranslationName::Name(owned("useTranslation")),
        UseTranslationName::Name(owned("getT")),
        UseTranslationName::Name(owned("useT")),
    ]
}

pub fn default_ns_arg() -> (r: usize)
    ensures
        r == 0,
{
    0
}

pub fn default_key_prefix_arg() -> (r: usize)
    ensures
        r == 1,
{
    1
}

pub fn default_key_separator() -> (r: String)
    ensures
        r@ == "."@,
{
    owned(".")
}

pub fn default_ns_separator() -> (r: String)
    ensures
        r@ == ":"@,
{
    owned(":")
}

pub fn default_context_separator() -> (r: String)
    ensures
        r@ == "_"@,
{
    owned("_")
}

pub fn default_plural_separator() -> (r: String)
    ensures
        r@ == "_"@,
{
    owned("_")
}

pub fn default_plural_suffixes() -> (r: Vec<String>)
    ensures
        views(r@) == seq!["one"@, "other"@],
{
    let r = vec![owned("one"), owned("other")];
    assert(views(r@) =~= seq!["one"@, "other"@]);
    r
}

pub fn default_extract_from_comments() -> (r: bool)
    ensures
        r,
{
    true
}

pub fn default_use_locale_plural_rules() -> (r: bool)
    ensures
        r,
{
    true
}

pub fn default_remove_unused_keys() -> (r: bool)
    ensures
        r,
{
    true
}

pub fn default_trans_components() -> (r: Vec<String>)
    ensures
        views(r@) == seq!["Trans"@],
{
    let r = vec![owned("Trans")];
    assert(views(r@) =~= seq!["Trans"@]);
    r
}

pub fn default_trans_keep_nodes() -> (r: Vec<String>)
    ensures
        views(r@) == seq!["br"@, "strong"@, "i"@],
{
    let r = vec![owned("br"), owned("strong"), owned("i")];
    assert(views(r@) =~= seq!["br"@, "strong"@, "i"@]);
    r
}

pub fn default_nesting_prefix() -> (r: String)
    ensures
        r@ == "$t("@,
{
    owned("$t(")
}

pub fn default_nesting_suffix() -> (r: String)
    ensures
        r@ == ")"@,
{
    owned(")")
}

pub fn default_nesting_options_separator() -> (r: String)
    ensures
        r@ == ","@,
{
    owned(",")
}

pub fn default_interpolation_prefix() -> (r: String)
    ensures
        r@ == "{{"@,
{
    owned("{{")
}

pub fn default_interpolation_suffix() -> (r: String)
    ensures
        r@ == "}}"@,
{
    owned("}}")
}

pub fn default_types_output() -> (r: String)
    ensures
        r@ == "src/@types/i18next.d.ts"@,
{
    owned("src/@types/i18next.d.ts")
}

pub fn default_lint_ignored_attributes() -> (r: Vec<String>)
    ensures
        r@.len() == 0,
{
    Vec::new()
}

pub fn default_lint_ignored_tags() -> (r: Vec<String>)
    ensures
        views(r@) == seq!["script"@, "style"@, "code"@, "pre"@],
{
    let r = vec![owned("script"), owned("style"), owned("code"), owned("pre")];
    assert(views(r@) =~= seq!["script"@, "style"@, "code"@, "pre"@]);
    r
}

pub fn default_lint_accepted_attributes() -> (r: Vec<String>)
    ensures
        views(r@) == seq!["alt"@, "title"@, "placeholder"@, "aria-label"@, "aria-description"@],
{
    let r = vec![
        owned("alt"),
        owned("title"),
        owned("placeholder"),
        owned("aria-label"),
        owned("aria-description"),
    ];
    assert(views(r@) =~= seq![
        "alt"@,
        "title"@,
        "placeholder"@,
        "aria-label"@,
        "aria-description"@,
    ]);
    r
}

pub fn default_lint_accepted_tags() -> (r: Vec<String>)
    ensures
        views(r@) == seq!["p"@, "span"@, "div"@, "button"@, "label"@, "img"@],
{
    let r = vec![owned("p"), owned("span"), owned("div"), owned("button"), owned("label"), owned("img")];
    assert(views(r@) =~= seq!["p"@, "span"@, "div"@, "button"@, "label"@, "img"@]);
    r
}

pub fn default_log_level() -> (r: String)
    ensures
        r@ == "info"@,
{
    owned("info")
}

} // verus!

verus! {

/// Configuration for i18next-turbo.
#[derive(Debug, Clone)]
pub struct Config {
    /// Glob patterns for input files.
    pub input: Vec<String>,
    /// Output directory for translation files, or a path template naming `$LOCALE` and
    /// `$NAMESPACE` (see [`crate::locale::locale_file_path`]).
    pub output: String,
    pub output_format: OutputFormat,
    pub locales: Vec<String>,
    /// Default namespace (empty in namespace-less mode).
    pub default_namespace: String,
    pub functions: Vec<String>,
    pub use_translation_names: Vec<UseTranslationName>,
    pub key_separator: String,
    /// Namespace separator (empty when disabled).
    pub ns_separator: String,
    pub context_separator: String,
    pub plural_separator: String,
    pub plural_suffixes: Vec<String>,
    pub disable_plurals: bool,
    pub generate_base_plural_forms: bool,
    pub extract_from_comments: bool,
    pub use_locale_plural_rules: bool,
    pub ignore: Vec<String>,
    pub preserve_patterns: Vec<String>,
    pub preserve_context_variants: bool,
    pub remove_unused_keys: bool,
    pub merge_namespaces: bool,
    /// The name of the one file per locale that merged namespaces are written to (without
    /// its extension); the default namespace when not set.
    pub merged_namespace_filename: Option<String>,
    pub default_value: Option<String>,
    pub trans_components: Vec<String>,
    pub trans_keep_basic_html_nodes_for: Vec<String>,
    pub nesting_prefix: String,
    pub nesting_suffix: String,
    pub nesting_options_separator: String,
    pub interpolation_prefix: String,
    pub interpolation_suffix: String,
    pub types: TypesConfig,
    pub locize: Option<LocizeConfig>,
    pub primary_language: Option<String>,
    pub secondary_languages: Option<Vec<String>>,
    pub indentation: Option<Indentation>,
    pub lint: LintConfig,
    pub log_level: String,
}

/// Whether a configuration holds the default value of every field.
pub open spec fn is_default_config(c: Config) -> bool {
    &&& views(c.input@) == seq!["src/**/*.{ts,tsx,js,jsx}"@]
    &&& c.output@ == "locales"@
    &&& c.output_format == OutputFormat::Json
    &&& views(c.locales@) == seq!["en"@]
    &&& c.default_namespace@ == "translation"@
    &&& views(c.functions@) == seq!["t"@]
    &&& default_hooks(c.use_translation_names@)
    &&& c.key_separator@ == "."@
    &&& c.ns_separator@ == ":"@
    &&& c.context_separator@ == "_"@
    &&& c.plural_separator@ == "_"@
    &&& views(c.plural_suffixes@) == seq!["one"@, "other"@]
    &&& !c.disable_plurals
    &&& !c.generate_base_plural_forms
    &&& c.extract_from_comments
    &&& c.use_locale_plural_rules
    &&& c.ignore@.len() == 0
    &&& c.preserve_patterns@.len() == 0
    &&& !c.preserve_context_variants
    &&& c.remove_unused_keys
    &&& !c.merge_namespaces
    &&& c.merged_namespace_filename is None
    &&& c.default_value is None
    &&& views(c.trans_components@) == seq!["Trans"@]
    &&& views(c.trans_keep_basic_html_nodes_for@) == seq!["br"@, "strong"@, "i"@]
    &&& c.nesting_prefix@ == "$t("@
    &&& c.nesting_suffix@ == ")"@
    &&& c.nesting_options_separator@ == ","@
    &&& c.interpolation_prefix@ == "{{"@
    &&& c.interpolation_suffix@ == "}}"@
    &&& c.types.input is None && c.types.output is None && c.types.resources_file is None
    &&& c.types.enable_selector is None && c.types.default_locale is None
    &&& c.types.locales_dir is None && c.types.indentation is None
    &&& c.locize is None
    &&& c.primary_language is None
    &&& c.secondary_languages is None
    &&& c.indentation is None
    &&& c.lint.ignored_attributes@.len() == 0
    &&& views(c.lint.ignored_tags@) == seq!["script"@, "style"@, "code"@, "pre"@]
    &&& views(c.lint.accepted_attributes@) == seq!["alt"@, "title"@, "placeholder"@, "aria-label"@, "aria-description"@]
    &&& views(c.lint.accepted_tags@) == seq!["p"@, "span"@, "div"@, "button"@, "label"@, "img"@]
    &&& c.lint.ignore@.len() == 0
    &&& c.log_level@ == "info"@
}

impl Default for Config {
    fn default() -> (r: Self)
        ensures
            is_default_config(r),
    {
        Config {
            input: default_input(),
            output: default_output(),
            output_format: OutputFormat::Json,
            locales: default_locales(),
            default_namespace: default_namespace(),
            functions: default_functions(),
            use_translation_names: default_use_translation_names(),
            key_separator: default_key_separator(),
            ns_separator: default_ns_separator(),
            context_separator: default_context_separator(),
            plural_separator: default_plural_separator(),
            plural_suffixes: default_plural_suffixes(),
            disable_plurals: false,
            generate_base_plural_forms: false,
            extract_from_comments: default_extract_from_comments(),
            use_locale_plural_rules: default_use_locale_plural_rules(),
            ignore: Vec::new(),
            preserve_patterns: Vec::new(),
            preserve_context_variants: false,
            remove_unused_keys: default_remove_unused_keys(),
            merge_namespaces: false,
            merged_namespace_filename: None,
            default_value: None,
            trans_components: default_trans_components(),
            trans_keep_basic_html_nodes_for: default_trans_keep_nodes(),
            nesting_prefix: default_nesting_prefix(),
            nesting_suffix: default_nesting_suffix(),
            nesting_options_separator: default_nesting_options_separator(),
            interpolation_prefix: default_interpolation_prefix(),
            interpolation_suffix: default_interpolation_suffix(),
            types: TypesConfig::default(),
            locize: None,
            primary_language: None,
            secondary_languages: None,
            indentation: None,
            lint: LintConfig::default(),
            log_level: default_log_level(),
        }
    }
}

/// The characters of an optional string.
pub open spec fn ostr(o: Option<String>) -> Option<Seq<char>> {
    match o {
        Some(s) => Some(s@),
        None => None,
    }
}

/// The language that comes first: the configured primary language, else the first locale,
/// else `en`.
pub open spec fn primary_of(c: Config) -> Seq<char> {
    match c.primary_language {
        Some(p) => p@,
        None => if c.locales@.len() > 0 {
            c.locales@[0]@
        } else {
            "en"@
        },
    }
}

/// The strings of a list other than `x`, in order.
pub open spec fn without(s: Seq<Seq<char>>, x: Seq<char>) -> Seq<Seq<char>>
    decreases s.len(),
{
    if s.len() == 0 {
        Seq::empty()
    } else if s.last() == x {
        without(s.drop_last(), x)
    } else {
        without(s.drop_last(), x).push(s.last())
    }
}

/// The languages other than the primary one: from the explicit list when given, else from
/// the locales.
pub open spec fn secondaries_of(c: Config) -> Seq<Seq<char>> {
    match c.secondary_languages {
        Some(explicit) => without(views(explicit@), primary_of(c)),
        None => without(views(c.locales@), primary_of(c)),
    }
}

/// The strings of a list other than `x`, in order.
fn strings_without(s: &Vec<String>, x: &[char]) -> (r: Vec<String>)
    ensures
        views(r@) == without(views(s@), x@),
{
    let mut out: Vec<String> = Vec::new();
    let mut i: usize = 0;
    while i < s.len()
        invariant
            i <= s@.len(),
            views(out@) == without(views(s@).take(i as int), x@),
        decreases s.len() - i,
    {
        let ghost t = views(s@).take(i as int + 1);
        assert(t.drop_last() =~= views(s@).take(i as int));
        assert(t.last() == s@[i as int]@);
        if !string_is(&s[i], x) {
            let ghost prev = views(out@);
            out.push(s[i].clone());
            assert(views(out@) =~= prev.push(s@[i as int]@));
        }
        i = i + 1;
    }
    assert(views(s@).take(s@.len() as int) =~= views(s@));
    out
}

/// A copy of an optional list of strings.
fn clone_opt_strings(o: &Option<Vec<String>>) -> (r: Option<Vec<String>>)
    ensures
        match (r, *o) {
            (Some(a), Some(b)) => a@ == b@,
            (None, None) => true,
            _ => false,
        },
{
    match o {
        Some(v) => Some(crate::text::clone_strings(v)),
        None => None,
    }
}

impl Config {
    pub fn output_format(&self) -> (r: OutputFormat)
        ensures
            r == self.output_format,
    {
        self.output_format
    }

    pub fn output_extension(&self) -> (r: &'static str)
        ensures
            r@ == spec_extension(self.output_format),
    {
        self.output_format.extension()
    }

    /// Where type definitions are written: the configured path, else the default one.
    pub fn types_output_path(&self) -> (r: String)
        ensures
            r@ == match self.types.output {
                Some(o) => o@,
                None => "src/@types/i18next.d.ts"@,
            },
    {
        match &self.types.output {
            Some(o) => o.clone(),
            None => default_types_output(),
        }
    }

    pub fn types_input_patterns(&self) -> (r: Option<Vec<String>>)
        ensures
            match (r, self.types.input) {
                (Some(a), Some(b)) => a@ == b@,
                (None, None) => true,
                _ => false,
            },
    {
        clone_opt_strings(&self.types.input)
    }

    pub fn types_resources_file(&self) -> (r: Option<String>)
        ensures
            ostr(r) == ostr(self.types.resources_file),
    {
        crate::keys::clone_opt(&self.types.resources_file)
    }

    pub fn types_enable_selector(&self) -> (r: Option<EnableSelector>)
        ensures
            match (r, self.types.enable_selector) {
                (Some(EnableSelector::Bool(a)), Some(EnableSelector::Bool(b))) => a == b,
                (Some(EnableSelector::Mode(a)), Some(EnableSelector::Mode(b))) => a@ == b@,
                (None, None) => true,
                _ => false,
            },
    {
        match &self.types.enable_selector {
            Some(EnableSelector::Bool(b)) => Some(EnableSelector::Bool(*b)),
            Some(EnableSelector::Mode(m)) => Some(EnableSelector::Mode(m.clone())),
            None => None,
        }
    }

    pub fn types_default_locale(&self) -> (r: Option<String>)
        ensures
            ostr(r) == ostr(self.types.default_locale),
    {
        crate::keys::clone_opt(&self.types.default_locale)
    }

    pub fn types_locales_dir(&self) -> (r: Option<String>)
        ensures
            ostr(r) == ostr(self.types.locales_dir),
    {
        crate::keys::clone_opt(&self.types.locales_dir)
    }

    /// The indentation of generated types as text, when configured.
    pub fn types_indentation_string(&self) -> (r: Option<String>)
        ensures
            ostr(r) == match self.types.indentation {
                Some(i) => Some(indentation_text(i)),
                None => None,
            },
    {
        match &self.types.indentation {
            Some(i) => Some(i.to_indent_string()),
            None => None,
        }
    }

    /// The default path of generated type definitions.
    pub fn default_types_output() -> (r: String)
        ensures
            r@ == "src/@types/i18next.d.ts"@,
    {
        default_types_output()
    }

    /// The primary language: the configured one, else the first locale, else `en`.
    pub fn primary_language(&self) -> (r: &str)
        ensures
            r@ == primary_of(*self),
    {
        match &self.primary_language {
            Some(p) => p.as_str(),
            None => if self.locales.len() > 0 {
                self.locales[0].as_str()
            } else {
                "en"
            },
        }
    }

    /// The languages other than the primary one, from the explicit list when given, else
    /// from the locales, in order.
    pub fn secondary_languages(&self) -> (r: Vec<String>)
        ensures
            views(r@) == secondaries_of(*self),
    {
        let primary = chars_of(self.primary_language());
        match &self.secondary_languages {
            Some(explicit) => strings_without(explicit, &primary),
            None => strings_without(&self.locales, &primary),
        }
    }

    /// Whether keys live without namespaces (an empty default namespace).
    pub fn namespace_less_mode(&self) -> (r: bool)
        ensures
            r == (self.default_namespace@.len() == 0),
    {
        self.default_namespace.as_str().is_empty()
    }

    /// The default namespace, `translation` in namespace-less mode.
    pub fn effective_default_namespace(&self) -> (r: &str)
        ensures
            r@ == if self.default_namespace@.len() == 0 {
                "translation"@
            } else {
                self.default_namespace@
            },
    {
        if self.default_namespace.as_str().is_empty() {
            "translation"
        } else {
            self.default_namespace.as_str()
        }
    }

    /// The JSON indentation as text, when configured.
    pub fn indentation_string(&self) -> (r: Option<String>)
        ensures
            ostr(r) == match self.indentation {
                Some(i) => Some(indentation_text(i)),
                None => None,
            },
    {
        match &self.indentation {
            Some(i) => Some(i.to_indent_string()),
            None => None,
        }
    }
}

} // verus!

verus! {

/// The plural categories `icu_plurals` gives a locale's cardinal rules (names of the
/// `PluralCategory` values, in the order `PluralRules::categories` yields them): `None` when
/// the text is no locale or no rules are available for it.
pub uninterp spec fn icu_cardinal_categories(locale: Seq<char>) -> Option<Seq<Seq<char>>>;

/// The cardinal plural categories of a locale: parses it (`icu_locid::Locale`), builds its
/// rules (`PluralRules::try_new_cardinal`) and lists `categories()` by name. The result is
/// named, not described.
#[verifier::external_body]
fn cardinal_categories(locale: &str) -> (r: Option<Vec<String>>)
    ensures
        match r {
            Some(v) => icu_cardinal_categories(locale@) == Some(views(v@)),
            None => icu_cardinal_categories(locale@) is None,
        },
{
    let parsed: icu_locid::Locale = locale.parse().ok()?;
    let rules = icu_plurals::PluralRules::try_new_cardinal(&parsed.into()).ok()?;
    Some(rules.categories().map(|c| match c {
        icu_plurals::PluralCategory::Zero => "zero".to_string(),
        icu_plurals::PluralCategory::One => "one".to_string(),
        icu_plurals::PluralCategory::Two => "two".to_string(),
        icu_plurals::PluralCategory::Few => "few".to_string(),
        icu_plurals::PluralCategory::Many => "many".to_string(),
        icu_plurals::PluralCategory::Other => "other".to_string(),
    }).collect())
}

/// The categories of a locale (trimmed), as far as the rules know them.
pub open spec fn locale_categories(locale: Seq<char>) -> Option<Seq<Seq<char>>> {
    let t = crate::text::trim(locale);
    if t.len() == 0 {
        None
    } else {
        icu_cardinal_categories(t)
    }
}

/// Whether some locale of the list has the category `name`.
pub open spec fn some_locale_has(locales: Seq<Seq<char>>, name: Seq<char>) -> bool {
    exists|i: int| #![trigger locales[i]] 0 <= i < locales.len() && (locale_categories(locales[i]) matches Some(c) && c.contains(name))
}

/// The six category names in the order a sorted set of strings keeps them.
pub open spec fn sorted_category_names() -> Seq<Seq<char>> {
    seq!["few"@, "many"@, "one"@, "other"@, "two"@, "zero"@]
}

/// The categories of all locales together, sorted, with `other` always among them;
/// `one` and `other` when no locale gives any.
pub open spec fn suffixes_from_locales(locales: Seq<Seq<char>>) -> Seq<Seq<char>> {
    if !(exists|k: int| 0 <= k < 6 && some_locale_has(locales, #[trigger] sorted_category_names()[k])) {
        seq!["one"@, "other"@]
    } else {
        sorted_category_names().filter(|n: Seq<char>| n == "other"@ || some_locale_has(locales, n))
    }
}

/// `other` is the fourth of the sorted category names and appears nowhere else.
proof fn lemma_other_is_fourth(k: int)
    requires
        0 <= k < 6,
    ensures
        (k == 3) == (sorted_category_names()[k] == "other"@),
{
    reveal_strlit("other");
    reveal_strlit("few");
    reveal_strlit("many");
    reveal_strlit("one");
    reveal_strlit("two");
    reveal_strlit("zero");
    let n = sorted_category_names();
    assert(n[0] == "few"@ && n[1] == "many"@ && n[2] == "one"@ && n[3] == "other"@ && n[4] == "two"@ && n[5] == "zero"@);
    assert("few"@[0] != "other"@[0]);
    assert("many"@[0] != "other"@[0]);
    assert("one"@.len() != "other"@.len());
    assert("two"@[0] != "other"@[0]);
    assert("zero"@[0] != "other"@[0]);
}

/// The categories of all locales together (see [`suffixes_from_locales`]).
fn compute_plural_suffixes_from_locales(locales: &Vec<String>) -> (r: Vec<String>)
    ensures
        views(r@) == suffixes_from_locales(views(locales@)),
{
    let ghost ls = views(locales@);
    let names = vec![owned("few"), owned("many"), owned("one"), owned("other"), owned("two"), owned("zero")];
    assert(views(names@) =~= sorted_category_names());
    let mut found: Vec<bool> = vec![false, false, false, false, false, false];
    let mut i: usize = 0;
    while i < locales.len()
        invariant
            i <= locales@.len(),
            ls == views(locales@),
            views(names@) == sorted_category_names(),
            names@.len() == 6,
            found@.len() == 6,
            forall|k: int| 0 <= k < 6 ==> #[trigger] found@[k] == some_locale_has(ls.take(i as int), sorted_category_names()[k]),
        decreases locales.len() - i,
    {
        let t = crate::text::trim_exec(&chars_of(locales[i].as_str()));
        let cats = if t.len() == 0 {
            None
        } else {
            cardinal_categories(string_of(&t).as_str())
        };
        proof {
            assert(ls[i as int] == locales@[i as int]@);
            assert(ls.take(i as int + 1)[i as int] == ls[i as int]);
        }
        let mut k: usize = 0;
        while k < 6
            invariant
                k <= 6,
                i < locales@.len(),
                ls == views(locales@),
                views(names@) == sorted_category_names(),
                names@.len() == 6,
                found@.len() == 6,
                forall|q: int| 0 <= q < k ==> #[trigger] found@[q] == some_locale_has(ls.take(i as int + 1), sorted_category_names()[q]),
                forall|q: int| k <= q < 6 ==> #[trigger] found@[q] == some_locale_has(ls.take(i as int), sorted_category_names()[q]),
                match cats {
                    Some(c) => locale_categories(ls[i as int]) == Some(views(c@)),
                    None => locale_categories(ls[i as int]) is None,
                },
            decreases 6 - k,
        {
            let has = match &cats {
                Some(c) => crate::text::strings_contain(c, &chars_of(names[k].as_str())),
                None => false,
            };
            proof {
                let name = sorted_category_names()[k as int];
                assert(views(names@)[k as int] == names@[k as int]@);
                let here = locale_categories(ls[i as int]) matches Some(c) && c.contains(name);
                assert(has == here);
                let a = ls.take(i as int);
                let b = ls.take(i as int + 1);
                if some_locale_has(b, name) {
                    let j = choose|j: int| #![trigger b[j]] 0 <= j < b.len() && (locale_categories(b[j]) matches Some(c) && c.contains(name));
                    if j < i {
                        assert(a[j] == b[j]);
                    }
                }
                if some_locale_has(a, name) {
                    let j = choose|j: int| #![trigger a[j]] 0 <= j < a.len() && (locale_categories(a[j]) matches Some(c) && c.contains(name));
                    assert(a[j] == b[j]);
                }
                if here {
                    assert(b[i as int] == ls[i as int]);
                }
                assert(some_locale_has(b, name) == (some_locale_has(a, name) || here));
            }
            let f = found[k] || has;
            found.set(k, f);
            k = k + 1;
        }
        i = i + 1;
    }
    assert(ls.take(ls.len() as int) =~= ls);
    let mut any = false;
    let mut k: usize = 0;
    while k < 6
        invariant
            k <= 6,
            found@.len() == 6,
            any == exists|q: int| 0 <= q < k && #[trigger] found@[q],
        decreases 6 - k,
    {
        any = any || found[k];
        k = k + 1;
    }
    proof {
        assert forall|q: int| 0 <= q < 6 implies #[trigger] found@[q] == some_locale_has(ls, sorted_category_names()[q]) by {}
        if any {
            let q = choose|q: int| 0 <= q < 6 && #[trigger] found@[q];
            assert(some_locale_has(ls, sorted_category_names()[q]));
        }
        if exists|q: int| 0 <= q < 6 && some_locale_has(ls, #[trigger] sorted_category_names()[q]) {
            let q = choose|q: int| 0 <= q < 6 && some_locale_has(ls, #[trigger] sorted_category_names()[q]);
            assert(found@[q]);
        }
    }
    if !any {
        let r = vec![owned("one"), owned("other")];
        assert(views(r@) =~= seq!["one"@, "other"@]);
        return r;
    }
    let mut out: Vec<String> = Vec::new();
    let ghost pred = |n: Seq<char>| n == "other"@ || some_locale_has(ls, n);
    assert(sorted_category_names().len() == 6);
    assert(sorted_category_names().take(0) =~= Seq::<Seq<char>>::empty());
    assert(sorted_category_names().take(0).filter(pred) =~= Seq::<Seq<char>>::empty()) by {
        reveal(Seq::filter);
    }
    let mut k: usize = 0;
    while k < 6
        invariant
            k <= 6,
            found@.len() == 6,
            views(names@) == sorted_category_names(),
            names@.len() == 6,
            sorted_category_names().len() == 6,
            pred == (|n: Seq<char>| n == "other"@ || some_locale_has(ls, n)),
            forall|q: int| 0 <= q < 6 ==> #[trigger] found@[q] == some_locale_has(ls, sorted_category_names()[q]),
            views(out@) == sorted_category_names().take(k as int).filter(pred),
        decreases 6 - k,
    {
        proof {
            assert(views(names@)[k as int] == names@[k as int]@);
            assert(sorted_category_names().take(k as int + 1).drop_last() =~= sorted_category_names().take(k as int));
            reveal_strlit("other");
            reveal_strlit("few");
            reveal_strlit("many");
            reveal_strlit("one");
            reveal_strlit("two");
            reveal_strlit("zero");
            let t = sorted_category_names().take(k as int + 1);
            assert(t.last() == names@[k as int]@);
            assert(views(names@)[k as int] == sorted_category_names()[k as int]);
            lemma_other_is_fourth(k as int);
            assert((k == 3) == (names@[k as int]@ == "other"@));
            reveal(Seq::filter);
            assert(t.filter(pred) == (if pred(t.last()) {
                t.drop_last().filter(pred).push(t.last())
            } else {
                t.drop_last().filter(pred)
            }));
        }
        if k == 3 || found[k] {
            let ghost prev = views(out@);
            out.push(names[k].clone());
            assert(views(out@) =~= prev.push(names@[k as int]@));
        }
        k = k + 1;
    }
    assert(sorted_category_names().take(6) =~= sorted_category_names());
    out
}

/// The plural categories used for keys: none when plurals are disabled; otherwise those
/// of the locales' rules (or the configured list), `one` and `other` when empty, with
/// `other` added when missing.
pub open spec fn plural_suffixes_of(c: Config) -> Seq<Seq<char>> {
    if c.disable_plurals {
        Seq::empty()
    } else {
        let s = if c.use_locale_plural_rules {
            suffixes_from_locales(views(c.locales@))
        } else {
            views(c.plural_suffixes@)
        };
        let f = if s.len() == 0 {
            seq!["one"@, "other"@]
        } else {
            s
        };
        if f.contains("other"@) {
            f
        } else {
            f.push("other"@)
        }
    }
}

impl Config {
    /// The plural settings for key generation (see [`plural_suffixes_of`]).
    pub fn plural_config(&self) -> (r: PluralConfig)
        ensures
            r.separator@ == self.plural_separator@,
            views(r.suffixes@) == plural_suffixes_of(*self),
            r.generate_base == (!self.disable_plurals && self.generate_base_plural_forms),
            r.context_separator@ == self.context_separator@,
    {
        if self.disable_plurals {
            let suffixes: Vec<String> = Vec::new();
            assert(views(suffixes@) =~= Seq::<Seq<char>>::empty());
            return PluralConfig {
                separator: self.plural_separator.clone(),
                suffixes,
                generate_base: false,
                context_separator: self.context_separator.clone(),
            };
        }
        let suffixes = if self.use_locale_plural_rules {
            compute_plural_suffixes_from_locales(&self.locales)
        } else {
            crate::text::clone_strings(&self.plural_suffixes)
        };
        let mut fin = if suffixes.len() == 0 {
            let d = vec![owned("one"), owned("other")];
            assert(views(d@) =~= seq!["one"@, "other"@]);
            d
        } else {
            suffixes
        };
        if !crate::text::strings_contain(&fin, &chars_of("other")) {
            let ghost prev = views(fin@);
            fin.push(owned("other"));
            assert(views(fin@) =~= prev.push("other"@));
        }
        PluralConfig {
            separator: self.plural_separator.clone(),
            suffixes: fin,
            generate_base: self.generate_base_plural_forms,
            context_separator: self.context_separator.clone(),
        }
    }
}

} // verus!

verus! {

/// What `glob::Pattern::new` reports of a pattern: `None` when it compiles, otherwise the
/// text of its error.
pub uninterp spec fn glob_pattern_error(p: Seq<char>) -> Option<Seq<char>>;

/// Compiles a glob pattern (`glob::Pattern::new`) and returns the error's text when it
/// does not compile. The result is named, not described.
#[verifier::external_body]
pub(crate) fn glob_check(p: &str) -> (r: Option<String>)
    ensures
        ostr(r) == glob_pattern_error(p@),
{
    glob::Pattern::new(p).err().map(|e| e.to_string())
}

/// Which list of glob patterns a problem was found in.
#[derive(Debug, Clone, Copy, PartialEq, Eq, Structural)]
pub enum PatternList {
    Input,
    Ignore,
    LintIgnore,
    PreservePatterns,
}

/// Why a configuration is refused.
#[derive(Debug, Clone)]
pub enum ConfigError {
    EmptyLocales,
    BlankLocale(usize),
    BlankSecondaryLanguage(usize),
    EmptyInput,
    /// A blank entry in a pattern list.
    BlankPattern(PatternList),
    /// A pattern that does not compile, with the glob error's text.
    InvalidPattern { list: PatternList, pattern: String, message: String },
    BlankOutput,
    InvalidOutputChar(char),
    EmptyFunctions,
    BlankHookName(usize),
    EmptyDefaultNamespace,
    EmptyNesting,
    EmptyInterpolation,
    BlankTypesOutput,
    BlankTypesResourcesFile,
    BlankTypesInput(usize),
    InvalidEnableSelector,
    BlankLocizeProjectId,
    InvalidCdnType,
    InvalidLogLevel,
    /// An `outputFormat` that names no supported format (lower-cased).
    UnsupportedOutputFormat(String),
}

/// The mathematical content of a [`ConfigError`].
pub enum ConfigProblem {
    EmptyLocales,
    BlankLocale(int),
    BlankSecondaryLanguage(int),
    EmptyInput,
    BlankPattern(PatternList),
    InvalidPattern(PatternList, Seq<char>, Seq<char>),
    BlankOutput,
    InvalidOutputChar(char),
    EmptyFunctions,
    BlankHookName(int),
    EmptyDefaultNamespace,
    EmptyNesting,
    EmptyInterpolation,
    BlankTypesOutput,
    BlankTypesResourcesFile,
    BlankTypesInput(int),
    InvalidEnableSelector,
    BlankLocizeProjectId,
    InvalidCdnType,
    InvalidLogLevel,
    UnsupportedOutputFormat(Seq<char>),
}

pub open spec fn problem_of(e: ConfigError) -> ConfigProblem {
    match e {
        ConfigError::EmptyLocales => ConfigProblem::EmptyLocales,
        ConfigError::BlankLocale(i) => ConfigProblem::BlankLocale(i as int),
        ConfigError::BlankSecondaryLanguage(i) => ConfigProblem::BlankSecondaryLanguage(i as int),
        ConfigError::EmptyInput => ConfigProblem::EmptyInput,
        ConfigError::BlankPattern(l) => ConfigProblem::BlankPattern(l),
        ConfigError::InvalidPattern { list, pattern, message } => ConfigProblem::InvalidPattern(list, pattern@, message@),
        ConfigError::BlankOutput => ConfigProblem::BlankOutput,
        ConfigError::InvalidOutputChar(c) => ConfigProblem::InvalidOutputChar(c),
        ConfigError::EmptyFunctions => ConfigProblem::EmptyFunctions,
        ConfigError::BlankHookName(i) => ConfigProblem::BlankHookName(i as int),
        ConfigError::EmptyDefaultNamespace => ConfigProblem::EmptyDefaultNamespace,
        ConfigError::EmptyNesting => ConfigProblem::EmptyNesting,
        ConfigError::EmptyInterpolation => ConfigProblem::EmptyInterpolation,
        ConfigError::BlankTypesOutput => ConfigProblem::BlankTypesOutput,
        ConfigError::BlankTypesResourcesFile => ConfigProblem::BlankTypesResourcesFile,
        ConfigError::BlankTypesInput(i) => ConfigProblem::BlankTypesInput(i as int),
        ConfigError::InvalidEnableSelector => ConfigProblem::InvalidEnableSelector,
        ConfigError::BlankLocizeProjectId => ConfigProblem::BlankLocizeProjectId,
        ConfigError::InvalidCdnType => ConfigProblem::InvalidCdnType,
        ConfigError::InvalidLogLevel => ConfigProblem::InvalidLogLevel,
        ConfigError::UnsupportedOutputFormat(v) => ConfigProblem::UnsupportedOutputFormat(v@),
    }
}

/// The message that describes a configuration problem.
pub open spec fn problem_text(p: ConfigProblem) -> Seq<char> {
    match p {
        ConfigProblem::EmptyLocales => "Configuration error: 'locales' must contain at least one locale.\nExample: \"locales\": [\"en\", \"ja\"]"@,
        ConfigProblem::BlankLocale(i) => "Configuration error: 'locales["@ + crate::components::decimal(i as nat) + "]' is empty.\nEach locale must be a non-empty string like \"en\" or \"ja\"."@,
        ConfigProblem::BlankSecondaryLanguage(i) => "Configuration error: 'secondaryLanguages["@ + crate::components::decimal(i as nat) + "]' is empty.\nEach locale must be a non-empty string like \"ja\"."@,
        ConfigProblem::EmptyInput => "Configuration error: 'input' must contain at least one glob pattern.\nExample: \"input\": [\"src/**/*.tsx\", \"src/**/*.ts\"]"@,
        ConfigProblem::BlankPattern(l) => match l {
            PatternList::Input => "Configuration error: empty input pattern found.\nEach input pattern must be a non-empty glob like \"src/**/*.tsx\"."@,
            PatternList::Ignore => "Configuration error: empty pattern found in 'ignore'.\nRemove empty entries or provide a glob like \"**/*.test.tsx\"."@,
            PatternList::LintIgnore => "Configuration error: empty pattern found in 'lint.ignore'.\nRemove empty entries or provide a glob like \"**/*.stories.tsx\"."@,
            PatternList::PreservePatterns => "Configuration error: empty entry found in 'preservePatterns'.\nExample: \"common:*\" or \"auth.login.*\""@,
        },
        ConfigProblem::InvalidPattern(l, pattern, message) => match l {
            PatternList::Input => "Configuration error: invalid glob pattern '"@ + pattern + "'.\nGlob error: "@ + message + "\nExample of valid patterns: \"src/**/*.tsx\", \"lib/*.js\""@,
            PatternList::Ignore => "Configuration error: invalid glob in 'ignore': '"@ + pattern + "'.\nGlob error: "@ + message,
            PatternList::LintIgnore => "Configuration error: invalid glob in 'lint.ignore': '"@ + pattern + "'.\nGlob error: "@ + message,
            PatternList::PreservePatterns => "Configuration error: invalid glob in 'preservePatterns': '"@ + pattern + "'.\nGlob error: "@ + message,
        },
        ConfigProblem::BlankOutput => "Configuration error: 'output' must be a non-empty directory path.\nExample: \"output\": \"locales\""@,
        ConfigProblem::InvalidOutputChar(c) => "Configuration error: 'output' contains invalid character '"@ + seq![c] + "'.\nPlease use a valid directory path."@,
        ConfigProblem::EmptyFunctions => "Configuration error: 'functions' must contain at least one function name.\nExample: \"functions\": [\"t\", \"i18n.t\"]"@,
        ConfigProblem::BlankHookName(i) => "Configuration error: 'useTranslationNames["@ + crate::components::decimal(i as nat) + "]' must contain a non-empty function name."@,
        ConfigProblem::EmptyDefaultNamespace => "Configuration error: 'defaultNamespace' is empty but 'nsSeparator' is enabled.\nUse namespace-less mode with both: \"defaultNamespace\": false and \"nsSeparator\": false."@,
        ConfigProblem::EmptyNesting => "Configuration error: 'nestingPrefix' and 'nestingSuffix' must be non-empty strings."@,
        ConfigProblem::EmptyInterpolation => "Configuration error: 'interpolationPrefix' and 'interpolationSuffix' must be non-empty strings."@,
        ConfigProblem::BlankTypesOutput => "Configuration error: 'types.output' must be a non-empty string when specified."@,
        ConfigProblem::BlankTypesResourcesFile => "Configuration error: 'types.resourcesFile' must be a non-empty string when specified."@,
        ConfigProblem::BlankTypesInput(i) => "Configuration error: 'types.input["@ + crate::components::decimal(i as nat) + "]' must be a non-empty glob pattern."@,
        ConfigProblem::InvalidEnableSelector => "Configuration error: 'types.enableSelector' must be true, false, or 'optimize'."@,
        ConfigProblem::BlankLocizeProjectId => "Configuration error: 'locize.projectId' must be a non-empty string when Locize integration is configured."@,
        ConfigProblem::InvalidCdnType => "Configuration error: 'locize.cdnType' must be 'standard' or 'pro'."@,
        ConfigProblem::InvalidLogLevel => "Configuration error: 'logLevel' must be one of: error, warn, info, debug."@,
        ConfigProblem::UnsupportedOutputFormat(v) => "Configuration error: unsupported outputFormat '"@ + v + "'. Supported: json, json5, js, js-esm, js-cjs, ts"@,
    }
}

/// Text made of a literal, a number and another literal.
fn number_text(a: &str, n: usize, b: &str) -> (r: String)
    ensures
        r@ == a@ + crate::components::decimal(n as nat) + b@,
{
    let mut out = chars_of(a);
    append_chars(&mut out, &crate::components::decimal_exec(n));
    append_chars(&mut out, &chars_of(b));
    string_of(&out)
}

/// Text made of a literal, a text, and another literal.
fn text_between(a: &str, x: &str, b: &str) -> (r: String)
    ensures
        r@ == a@ + x@ + b@,
{
    let mut out = chars_of(a);
    append_chars(&mut out, &chars_of(x));
    append_chars(&mut out, &chars_of(b));
    string_of(&out)
}

impl ConfigError {
    /// The message that describes the error (see [`problem_text`]).
    pub fn message(&self) -> (r: String)
        ensures
            r@ == problem_text(problem_of(*self)),
    {
        match self {
            ConfigError::EmptyLocales => owned("Configuration error: 'locales' must contain at least one locale.\nExample: \"locales\": [\"en\", \"ja\"]"),
            ConfigError::BlankLocale(i) => number_text("Configuration error: 'locales[", *i, "]' is empty.\nEach locale must be a non-empty string like \"en\" or \"ja\"."),
            ConfigError::BlankSecondaryLanguage(i) => number_text("Configuration error: 'secondaryLanguages[", *i, "]' is empty.\nEach locale must be a non-empty string like \"ja\"."),
            ConfigError::EmptyInput => owned("Configuration error: 'input' must contain at least one glob pattern.\nExample: \"input\": [\"src/**/*.tsx\", \"src/**/*.ts\"]"),
            ConfigError::BlankPattern(l) => match l {
                PatternList::Input => owned("Configuration error: empty input pattern found.\nEach input pattern must be a non-empty glob like \"src/**/*.tsx\"."),
                PatternList::Ignore => owned("Configuration error: empty pattern found in 'ignore'.\nRemove empty entries or provide a glob like \"**/*.test.tsx\"."),
                PatternList::LintIgnore => owned("Configuration error: empty pattern found in 'lint.ignore'.\nRemove empty entries or provide a glob like \"**/*.stories.tsx\"."),
                PatternList::PreservePatterns => owned("Configuration error: empty entry found in 'preservePatterns'.\nExample: \"common:*\" or \"auth.login.*\""),
            },
            ConfigError::InvalidPattern { list, pattern, message } => {
                let head = match list {
                    PatternList::Input => text_between("Configuration error: invalid glob pattern '", pattern.as_str(), "'.\nGlob error: "),
                    PatternList::Ignore => text_between("Configuration error: invalid glob in 'ignore': '", pattern.as_str(), "'.\nGlob error: "),
                    PatternList::LintIgnore => text_between("Configuration error: invalid glob in 'lint.ignore': '", pattern.as_str(), "'.\nGlob error: "),
                    PatternList::PreservePatterns => text_between("Configuration error: invalid glob in 'preservePatterns': '", pattern.as_str(), "'.\nGlob error: "),
                };
                let tail = match list {
                    PatternList::Input => "\nExample of valid patterns: \"src/**/*.tsx\", \"lib/*.js\"",
                    _ => "",
                };
                let r = text_between(head.as_str(), message.as_str(), tail);
                proof {
                    reveal_strlit("");
                    assert(""@ =~= Seq::<char>::empty());
                }
                r
            },
            ConfigError::BlankOutput => owned("Configuration error: 'output' must be a non-empty directory path.\nExample: \"output\": \"locales\""),
            ConfigError::InvalidOutputChar(c) => {
                let mut out = chars_of("Configuration error: 'output' contains invalid character '");
                out.push(*c);
                append_chars(&mut out, &chars_of("'.\nPlease use a valid directory path."));
                string_of(&out)
            },
            ConfigError::EmptyFunctions => owned("Configuration error: 'functions' must contain at least one function name.\nExample: \"functions\": [\"t\", \"i18n.t\"]"),
            ConfigError::BlankHookName(i) => number_text("Configuration error: 'useTranslationNames[", *i, "]' must contain a non-empty function name."),
            ConfigError::EmptyDefaultNamespace => owned("Configuration error: 'defaultNamespace' is empty but 'nsSeparator' is enabled.\nUse namespace-less mode with both: \"defaultNamespace\": false and \"nsSeparator\": false."),
            ConfigError::EmptyNesting => owned("Configuration error: 'nestingPrefix' and 'nestingSuffix' must be non-empty strings."),
            ConfigError::EmptyInterpolation => owned("Configuration error: 'interpolationPrefix' and 'interpolationSuffix' must be non-empty strings."),
            ConfigError::BlankTypesOutput => owned("Configuration error: 'types.output' must be a non-empty string when specified."),
            ConfigError::BlankTypesResourcesFile => owned("Configuration error: 'types.resourcesFile' must be a non-empty string when specified."),
            ConfigError::BlankTypesInput(i) => number_text("Configuration error: 'types.input[", *i, "]' must be a non-empty glob pattern."),
            ConfigError::InvalidEnableSelector => owned("Configuration error: 'types.enableSelector' must be true, false, or 'optimize'."),
            ConfigError::BlankLocizeProjectId => owned("Configuration error: 'locize.projectId' must be a non-empty string when Locize integration is configured."),
            ConfigError::InvalidCdnType => owned("Configuration error: 'locize.cdnType' must be 'standard' or 'pro'."),
            ConfigError::InvalidLogLevel => owned("Configuration error: 'logLevel' must be one of: error, warn, info, debug."),
            ConfigError::UnsupportedOutputFormat(v) => text_between("Configuration error: unsupported outputFormat '", v.as_str(), "'. Supported: json, json5, js, js-esm, js-cjs, ts"),
        }
    }
}

/// The first index at or after `i` whose string is blank.
pub open spec fn first_blank(s: Seq<Seq<char>>, i: int) -> Option<int>
    decreases s.len() - i,
{
    if i < 0 || i >= s.len() {
        None
    } else if crate::text::is_blank(s[i]) {
        Some(i)
    } else {
        first_blank(s, i + 1)
    }
}

/// The first problem of a pattern list from the `i`-th pattern on: a blank pattern, or one
/// that does not compile.
pub open spec fn pattern_problem(list: PatternList, s: Seq<Seq<char>>, i: int) -> Option<ConfigProblem>
    decreases s.len() - i,
{
    if i < 0 || i >= s.len() {
        None
    } else if crate::text::is_blank(s[i]) {
        Some(ConfigProblem::BlankPattern(list))
    } else {
        match glob_pattern_error(s[i]) {
            Some(m) => Some(ConfigProblem::InvalidPattern(list, s[i], m)),
            None => pattern_problem(list, s, i + 1),
        }
    }
}

/// The first output character that paths may not hold (`<`, `>`, `|`, NUL, checked in that
/// order).
pub open spec fn bad_output_char(o: Seq<char>) -> Option<char> {
    if o.contains('<') {
        Some('<')
    } else if o.contains('>') {
        Some('>')
    } else if o.contains('|') {
        Some('|')
    } else if o.contains('\0') {
        Some('\0')
    } else {
        None
    }
}

/// The first hook index at or after `i` whose name is blank.
pub open spec fn first_blank_hook(hooks: Seq<UseTranslationName>, i: int) -> Option<int>
    decreases hooks.len() - i,
{
    if i < 0 || i >= hooks.len() {
        None
    } else if crate::text::is_blank(hook_name(hooks[i])) {
        Some(i)
    } else {
        first_blank_hook(hooks, i + 1)
    }
}

/// The first problem of a configuration, in the order the checks are made.
pub open spec fn config_problem(c: Config) -> Option<ConfigProblem> {
    if c.locales@.len() == 0 {
        Some(ConfigProblem::EmptyLocales)
    } else if first_blank(views(c.locales@), 0) is Some {
        Some(ConfigProblem::BlankLocale(first_blank(views(c.locales@), 0)->0))
    } else if c.secondary_languages is Some && first_blank(views(c.secondary_languages->0@), 0) is Some {
        Some(ConfigProblem::BlankSecondaryLanguage(first_blank(views(c.secondary_languages->0@), 0)->0))
    } else if c.input@.len() == 0 {
        Some(ConfigProblem::EmptyInput)
    } else if pattern_problem(PatternList::Input, views(c.input@), 0) is Some {
        pattern_problem(PatternList::Input, views(c.input@), 0)
    } else if pattern_problem(PatternList::Ignore, views(c.ignore@), 0) is Some {
        pattern_problem(PatternList::Ignore, views(c.ignore@), 0)
    } else if pattern_problem(PatternList::LintIgnore, views(c.lint.ignore@), 0) is Some {
        pattern_problem(PatternList::LintIgnore, views(c.lint.ignore@), 0)
    } else if pattern_problem(PatternList::PreservePatterns, views(c.preserve_patterns@), 0) is Some {
        pattern_problem(PatternList::PreservePatterns, views(c.preserve_patterns@), 0)
    } else if crate::text::is_blank(c.output@) {
        Some(ConfigProblem::BlankOutput)
    } else if bad_output_char(c.output@) is Some {
        Some(ConfigProblem::InvalidOutputChar(bad_output_char(c.output@)->0))
    } else if c.functions@.len() == 0 {
        Some(ConfigProblem::EmptyFunctions)
    } else if first_blank_hook(c.use_translation_names@, 0) is Some {
        Some(ConfigProblem::BlankHookName(first_blank_hook(c.use_translation_names@, 0)->0))
    } else if crate::text::is_blank(c.default_namespace@) && c.ns_separator@.len() > 0 {
        Some(ConfigProblem::EmptyDefaultNamespace)
    } else if c.nesting_prefix@.len() == 0 || c.nesting_suffix@.len() == 0 {
        Some(ConfigProblem::EmptyNesting)
    } else if c.interpolation_prefix@.len() == 0 || c.interpolation_suffix@.len() == 0 {
        Some(ConfigProblem::EmptyInterpolation)
    } else if c.types.output is Some && crate::text::is_blank(c.types.output->0@) {
        Some(ConfigProblem::BlankTypesOutput)
    } else if c.types.resources_file is Some && crate::text::is_blank(c.types.resources_file->0@) {
        Some(ConfigProblem::BlankTypesResourcesFile)
    } else if c.types.input is Some && first_blank(views(c.types.input->0@), 0) is Some {
        Some(ConfigProblem::BlankTypesInput(first_blank(views(c.types.input->0@), 0)->0))
    } else if c.types.enable_selector matches Some(EnableSelector::Mode(m)) && m@ != "optimize"@ {
        Some(ConfigProblem::InvalidEnableSelector)
    } else if c.locize is Some && crate::text::is_blank(c.locize->0.project_id@) {
        Some(ConfigProblem::BlankLocizeProjectId)
    } else if c.locize is Some && (c.locize->0.cdn_type matches Some(t) && t@ != "standard"@ && t@ != "pro"@) {
        Some(ConfigProblem::InvalidCdnType)
    } else if !(c.log_level@ == "error"@ || c.log_level@ == "warn"@ || c.log_level@ == "info"@ || c.log_level@ == "debug"@) {
        Some(ConfigProblem::InvalidLogLevel)
    } else {
        None
    }
}

/// No string of a list from the `i`-th on is blank exactly when none is found there.
pub proof fn lemma_first_blank_none(s: Seq<Seq<char>>, i: int)
    requires
        0 <= i <= s.len(),
    ensures
        first_blank(s, i) is None <==> forall|j: int| i <= j < s.len() ==> !crate::text::is_blank(#[trigger] s[j]),
    decreases s.len() - i,
{
    if i < s.len() {
        lemma_first_blank_none(s, i + 1);
    }
}

/// A text that starts with a character other than white space is not blank.
proof fn lemma_not_blank(t: Seq<char>)
    requires
        t.len() > 0,
        !crate::text::is_ws(t[0]),
    ensures
        !crate::text::is_blank(t),
{
}

/// With every other setting at its default, the locales and the log level decide whether a
/// configuration is valid (once glob accepts the default input pattern): it is valid
/// exactly when it has a locale, none of its locales is blank, and its log level is
/// `error`, `warn`, `info` or `debug`.
pub proof fn lemma_locales_and_log_level_decide(d: Config, locales: Vec<String>, log_level: String)
    requires
        is_default_config(d),
    ensures
        glob_pattern_error("src/**/*.{ts,tsx,js,jsx}"@) is None ==> (config_problem((Config { locales, log_level, ..d })) is None <==> (
            locales@.len() > 0
            && (forall|j: int| 0 <= j < locales@.len() ==> !crate::text::is_blank(#[trigger] locales@[j]@))
            && (log_level@ == "error"@ || log_level@ == "warn"@ || log_level@ == "info"@ || log_level@ == "debug"@))),
{
    let c = Config { locales, log_level, ..d };
    reveal_strlit("src/**/*.{ts,tsx,js,jsx}");
    reveal_strlit("locales");
    reveal_strlit("translation");
    reveal_strlit("useTranslation");
    reveal_strlit("getT");
    reveal_strlit("useT");
    reveal_strlit("$t(");
    reveal_strlit(")");
    reveal_strlit("{{");
    reveal_strlit("}}");
    reveal_strlit("t");
    lemma_first_blank_none(views(locales@), 0);
    assert forall|j: int| 0 <= j < locales@.len() implies (!crate::text::is_blank(#[trigger] locales@[j]@) <==> !crate::text::is_blank(views(locales@)[j])) by {
        assert(views(locales@)[j] == locales@[j]@);
    }
    let input = views(c.input@);
    assert(input[0] == "src/**/*.{ts,tsx,js,jsx}"@);
    lemma_not_blank(input[0]);
    if glob_pattern_error("src/**/*.{ts,tsx,js,jsx}"@) is None {
        assert(pattern_problem(PatternList::Input, input, 1) is None);
        assert(pattern_problem(PatternList::Input, input, 0) is None);
    }
    assert(views(c.ignore@).len() == 0);
    assert(views(c.lint.ignore@).len() == 0);
    assert(views(c.preserve_patterns@).len() == 0);
    lemma_not_blank(c.output@);
    assert(!c.output@.contains('<') && !c.output@.contains('>') && !c.output@.contains('|') && !c.output@.contains('\0')) by {
        assert forall|j: int| 0 <= j < c.output@.len() implies c.output@[j] != '<' && c.output@[j] != '>' && c.output@[j] != '|' && c.output@[j] != '\0' by {
            assert(c.output@ == seq!['l', 'o', 'c', 'a', 'l', 'e', 's']);
        }
    }
    assert(views(c.functions@).len() == c.functions@.len());
    let hooks = c.use_translation_names@;
    lemma_not_blank(hook_name(hooks[0]));
    lemma_not_blank(hook_name(hooks[1]));
    lemma_not_blank(hook_name(hooks[2]));
    assert(first_blank_hook(hooks, 3) is None);
    assert(first_blank_hook(hooks, 2) is None);
    assert(first_blank_hook(hooks, 1) is None);
    assert(first_blank_hook(hooks, 0) is None);
    lemma_not_blank(c.default_namespace@);
}

/// With every other setting at its default and a Locize project named, the selector mode
/// and the CDN type decide whether a configuration is valid (once glob accepts the default
/// input pattern): it is valid exactly when the selector is no mode other than `optimize`
/// and the CDN type is unset, `standard` or `pro`.
pub proof fn lemma_selector_and_cdn_decide(d: Config, e: EnableSelector, z: LocizeConfig)
    requires
        is_default_config(d),
        !crate::text::is_blank(z.project_id@),
    ensures
        glob_pattern_error("src/**/*.{ts,tsx,js,jsx}"@) is None ==> (config_problem(
            (Config { types: TypesConfig { enable_selector: Some(e), ..d.types }, locize: Some(z), ..d }),
        ) is None <==> (!(e matches EnableSelector::Mode(m) && m@ != "optimize"@) && match z.cdn_type {
            Some(t) => t@ == "standard"@ || t@ == "pro"@,
            None => true,
        })),
{
    let c = Config { types: TypesConfig { enable_selector: Some(e), ..d.types }, locize: Some(z), ..d };
    reveal_strlit("src/**/*.{ts,tsx,js,jsx}");
    reveal_strlit("en");
    reveal_strlit("locales");
    reveal_strlit("translation");
    reveal_strlit("useTranslation");
    reveal_strlit("getT");
    reveal_strlit("useT");
    reveal_strlit("$t(");
    reveal_strlit(")");
    reveal_strlit("{{");
    reveal_strlit("}}");
    reveal_strlit("t");
    reveal_strlit("info");
    let ls = views(c.locales@);
    assert(ls[0] == "en"@);
    lemma_not_blank(ls[0]);
    assert(first_blank(ls, 1) is None);
    assert(first_blank(ls, 0) is None);
    let input = views(c.input@);
    assert(input[0] == "src/**/*.{ts,tsx,js,jsx}"@);
    lemma_not_blank(input[0]);
    if glob_pattern_error("src/**/*.{ts,tsx,js,jsx}"@) is None {
        assert(pattern_problem(PatternList::Input, input, 1) is None);
        assert(pattern_problem(PatternList::Input, input, 0) is None);
    }
    assert(views(c.ignore@).len() == 0);
    assert(views(c.lint.ignore@).len() == 0);
    assert(views(c.preserve_patterns@).len() == 0);
    lemma_not_blank(c.output@);
    assert(!c.output@.contains('<') && !c.output@.contains('>') && !c.output@.contains('|') && !c.output@.contains('\0')) by {
        assert forall|j: int| 0 <= j < c.output@.len() implies c.output@[j] != '<' && c.output@[j] != '>' && c.output@[j] != '|' && c.output@[j] != '\0' by {
            assert(c.output@ == seq!['l', 'o', 'c', 'a', 'l', 'e', 's']);
        }
    }
    assert(views(c.functions@).len() == c.functions@.len());
    let hooks = c.use_translation_names@;
    lemma_not_blank(hook_name(hooks[0]));
    lemma_not_blank(hook_name(hooks[1]));
    lemma_not_blank(hook_name(hooks[2]));
    assert(first_blank_hook(hooks, 3) is None);
    assert(first_blank_hook(hooks, 2) is None);
    assert(first_blank_hook(hooks, 1) is None);
    assert(first_blank_hook(hooks, 0) is None);
    lemma_not_blank(c.default_namespace@);
}

/// The first blank string of a list.
fn first_blank_exec(s: &Vec<String>) -> (r: Option<usize>)
    ensures
        match r {
            Some(i) => first_blank(views(s@), 0) == Some(i as int),
            None => first_blank(views(s@), 0) is None,
        },
{
    let mut i: usize = 0;
    while i < s.len()
        invariant
            i <= s@.len(),
            first_blank(views(s@), 0) == first_blank(views(s@), i as int),
        decreases s.len() - i,
    {
        assert(views(s@)[i as int] == s@[i as int]@);
        if crate::text::is_blank_exec(&chars_of(s[i].as_str())) {
            return Some(i);
        }
        i = i + 1;
    }
    None
}

/// The first problem of a pattern list (see [`pattern_problem`]).
fn pattern_problem_exec(list: PatternList, s: &Vec<String>) -> (r: Option<ConfigError>)
    ensures
        match r {
            Some(e) => pattern_problem(list, views(s@), 0) == Some(problem_of(e)),
            None => pattern_problem(list, views(s@), 0) is None,
        },
{
    let mut i: usize = 0;
    while i < s.len()
        invariant
            i <= s@.len(),
            pattern_problem(list, views(s@), 0) == pattern_problem(list, views(s@), i as int),
        decreases s.len() - i,
    {
        assert(views(s@)[i as int] == s@[i as int]@);
        if crate::text::is_blank_exec(&chars_of(s[i].as_str())) {
            return Some(ConfigError::BlankPattern(list));
        }
        match glob_check(s[i].as_str()) {
            Some(m) => {
                return Some(ConfigError::InvalidPattern { list, pattern: s[i].clone(), message: m });
            },
            None => {},
        }
        i = i + 1;
    }
    None
}

/// The first hook whose name is blank.
fn first_blank_hook_exec(hooks: &Vec<UseTranslationName>) -> (r: Option<usize>)
    ensures
        match r {
            Some(i) => first_blank_hook(hooks@, 0) == Some(i as int),
            None => first_blank_hook(hooks@, 0) is None,
        },
{
    let mut i: usize = 0;
    while i < hooks.len()
        invariant
            i <= hooks@.len(),
            first_blank_hook(hooks@, 0) == first_blank_hook(hooks@, i as int),
        decreases hooks.len() - i,
    {
        if crate::text::is_blank_exec(&chars_of(hooks[i].name())) {
            return Some(i);
        }
        i = i + 1;
    }
    None
}

impl Config {
    /// Checks the configuration: `Ok` when no check fails, else the first problem found
    /// (see [`config_problem`]).
    pub fn validate(&self) -> (r: Result<(), ConfigError>)
        ensures
            match r {
                Ok(()) => config_problem(*self) is None,
                Err(e) => config_problem(*self) == Some(problem_of(e)),
            },
    {
        if self.locales.len() == 0 {
            return Err(ConfigError::EmptyLocales);
        }
        match first_blank_exec(&self.locales) {
            Some(i) => {
                return Err(ConfigError::BlankLocale(i));
            },
            None => {},
        }
        match &self.secondary_languages {
            Some(sl) => match first_blank_exec(sl) {
                Some(i) => {
                    return Err(ConfigError::BlankSecondaryLanguage(i));
                },
                None => {},
            },
            None => {},
        }
        if self.input.len() == 0 {
            return Err(ConfigError::EmptyInput);
        }
        match pattern_problem_exec(PatternList::Input, &self.input) {
            Some(e) => {
                return Err(e);
            },
            None => {},
        }
        match pattern_problem_exec(PatternList::Ignore, &self.ignore) {
            Some(e) => {
                return Err(e);
            },
            None => {},
        }
        match pattern_problem_exec(PatternList::LintIgnore, &self.lint.ignore) {
            Some(e) => {
                return Err(e);
            },
            None => {},
        }
        match pattern_problem_exec(PatternList::PreservePatterns, &self.preserve_patterns) {
            Some(e) => {
                return Err(e);
            },
            None => {},
        }
        let out = chars_of(self.output.as_str());
        if crate::text::is_blank_exec(&out) {
            return Err(ConfigError::BlankOutput);
        }
        if crate::text::has_char(&out, '<') {
            return Err(ConfigError::InvalidOutputChar('<'));
        }
        if crate::text::has_char(&out, '>') {
            return Err(ConfigError::InvalidOutputChar('>'));
        }
        if crate::text::has_char(&out, '|') {
            return Err(ConfigError::InvalidOutputChar('|'));
        }
        if crate::text::has_char(&out, '\0') {
            return Err(ConfigError::InvalidOutputChar('\0'));
        }
        if self.functions.len() == 0 {
            return Err(ConfigError::EmptyFunctions);
        }
        match first_blank_hook_exec(&self.use_translation_names) {
            Some(i) => {
                return Err(ConfigError::BlankHookName(i));
            },
            None => {},
        }
        if crate::text::is_blank_exec(&chars_of(self.default_namespace.as_str())) && !self.ns_separator.as_str().is_empty() {
            return Err(ConfigError::EmptyDefaultNamespace);
        }
        if self.nesting_prefix.as_str().is_empty() || self.nesting_suffix.as_str().is_empty() {
            return Err(ConfigError::EmptyNesting);
        }
        if self.interpolation_prefix.as_str().is_empty() || self.interpolation_suffix.as_str().is_empty() {
            return Err(ConfigError::EmptyInterpolation);
        }
        match &self.types.output {
            Some(o) => {
                if crate::text::is_blank_exec(&chars_of(o.as_str())) {
                    return Err(ConfigError::BlankTypesOutput);
                }
            },
            None => {},
        }
        match &self.types.resources_file {
            Some(o) => {
                if crate::text::is_blank_exec(&chars_of(o.as_str())) {
                    return Err(ConfigError::BlankTypesResourcesFile);
                }
            },
            None => {},
        }
        match &self.types.input {
            Some(inp) => match first_blank_exec(inp) {
                Some(i) => {
                    return Err(ConfigError::BlankTypesInput(i));
                },
                None => {},
            },
            None => {},
        }
        match &self.types.enable_selector {
            Some(EnableSelector::Mode(m)) => {
                if !string_is(m, &chars_of("optimize")) {
                    return Err(ConfigError::InvalidEnableSelector);
                }
            },
            _ => {},
        }
        match &self.locize {
            Some(l) => {
                if crate::text::is_blank_exec(&chars_of(l.project_id.as_str())) {
                    return Err(ConfigError::BlankLocizeProjectId);
                }
                match &l.cdn_type {
                    Some(t) => {
                        if !string_is(t, &chars_of("standard")) && !string_is(t, &chars_of("pro")) {
                            return Err(ConfigError::InvalidCdnType);
                        }
                    },
                    None => {},
                }
            },
            None => {},
        }
        let lv = &self.log_level;
        if !(string_is(lv, &chars_of("error")) || string_is(lv, &chars_of("warn")) || string_is(lv, &chars_of("info"))
            || string_is(lv, &chars_of("debug"))) {
            return Err(ConfigError::InvalidLogLevel);
        }
        Ok(())
    }
}

} // verus!

verus! {

/// Indentation as the Node binding passes it: a number of spaces or a custom string.
#[derive(Debug, Clone)]
pub struct NapiIndentation {
    /// Number of spaces (takes precedence over `custom`).
    pub spaces: Option<u32>,
    /// Custom indentation string.
    pub custom: Option<String>,
}

/// Type generation settings as the Node binding passes them.
#[derive(Debug, Clone)]
#[allow(non_snake_case)]
pub struct NapiTypesConfig {
    pub input: Option<Vec<String>>,
    pub output: Option<String>,
    pub resourcesFile: Option<String>,
    pub enableSelector: Option<String>,
    pub defaultLocale: Option<String>,
    pub localesDir: Option<String>,
    pub indentation: Option<NapiIndentation>,
}

/// Locize settings as the Node binding passes them.
#[derive(Debug, Clone)]
#[allow(non_snake_case)]
pub struct NapiLocizeConfig {
    pub projectId: Option<String>,
    pub apiKey: Option<String>,
    pub version: Option<String>,
    pub sourceLanguage: Option<String>,
    pub namespaces: Option<Vec<String>>,
    pub updateValues: Option<bool>,
    pub sourceLanguageOnly: Option<bool>,
    pub compareModificationTime: Option<bool>,
    pub cdnType: Option<String>,
    pub dryRun: Option<bool>,
}

/// The configuration as the Node binding passes it: every setting optional.
#[derive(Debug, Clone)]
#[allow(non_snake_case)]
pub struct NapiConfig {
    pub input: Option<Vec<String>>,
    pub output: Option<String>,
    pub outputFormat: Option<String>,
    pub locales: Option<Vec<String>>,
    pub defaultNamespace: Option<String>,
    pub functions: Option<Vec<String>>,
    pub useTranslationNames: Option<Vec<String>>,
    pub keySeparator: Option<String>,
    pub nsSeparator: Option<String>,
    pub contextSeparator: Option<String>,
    pub pluralSeparator: Option<String>,
    pub pluralSuffixes: Option<Vec<String>>,
    pub disablePlurals: Option<bool>,
    pub generateBasePluralForms: Option<bool>,
    pub extractFromComments: Option<bool>,
    pub useLocalePluralRules: Option<bool>,
    pub ignore: Option<Vec<String>>,
    pub preservePatterns: Option<Vec<String>>,
    pub preserveContextVariants: Option<bool>,
    pub removeUnusedKeys: Option<bool>,
    pub mergeNamespaces: Option<bool>,
    pub mergedNamespaceFilename: Option<String>,
    pub defaultValue: Option<String>,
    pub transComponents: Option<Vec<String>>,
    pub transKeepBasicHtmlNodesFor: Option<Vec<String>>,
    pub nestingPrefix: Option<String>,
    pub nestingSuffix: Option<String>,
    pub nestingOptionsSeparator: Option<String>,
    pub interpolationPrefix: Option<String>,
    pub interpolationSuffix: Option<String>,
    pub types: Option<NapiTypesConfig>,
    pub locize: Option<NapiLocizeConfig>,
    pub primaryLanguage: Option<String>,
    pub secondaryLanguages: Option<Vec<String>>,
    pub indentation: Option<NapiIndentation>,
    pub logLevel: Option<String>,
}

/// The indentation a binding value stands for: its spaces, else its custom text, else two
/// spaces.
pub open spec fn napi_indentation_text(n: NapiIndentation) -> Seq<char> {
    match n.spaces {
        Some(k) => crate::json::repeat(" "@, k as nat),
        None => match n.custom {
            Some(c) => c@,
            None => "  "@,
        },
    }
}

/// Whether an indentation is the one a binding value stands for: its spaces, else its
/// custom text, else two spaces.
pub open spec fn napi_indentation_is(r: Indentation, n: NapiIndentation) -> bool {
    match n.spaces {
        Some(k) => r matches Indentation::Spaces(m) && m == k,
        None => match n.custom {
            Some(c) => r matches Indentation::Custom(t) && t@ == c@,
            None => r matches Indentation::Spaces(m) && m == 2,
        },
    }
}

/// Whether an optional indentation is the one an optional binding value stands for.
pub open spec fn napi_opt_indentation_is(r: Option<Indentation>, n: Option<NapiIndentation>) -> bool {
    match n {
        Some(ni) => r matches Some(i) && napi_indentation_is(i, ni),
        None => r is None,
    }
}

impl NapiIndentation {
    /// The indentation a binding value stands for.
    pub fn to_indentation(self) -> (r: Indentation)
        ensures
            napi_indentation_is(r, self),
    {
        match self.spaces {
            Some(k) => Indentation::Spaces(k as usize),
            None => match self.custom {
                Some(c) => Indentation::Custom(c),
                None => Indentation::Spaces(2),
            },
        }
    }
}

/// What an `enableSelector` text stands for (trimmed, lower-cased): `true`, `false` or
/// `optimize`; anything else is dropped.
pub open spec fn selector_named(raw: Seq<char>) -> Option<EnableSelector> {
    let n = lowercase(crate::text::trim(raw));
    if n == "true"@ {
        Some(EnableSelector::Bool(true))
    } else if n == "false"@ {
        Some(EnableSelector::Bool(false))
    } else {
        None
    }
}

/// Whether an `enableSelector` setting is the one a binding text stands for (trimmed,
/// lower-cased): `true`, `false` or `optimize`; anything else is dropped.
pub open spec fn napi_selector_is(r: Option<EnableSelector>, raw: Option<String>) -> bool {
    match raw {
        Some(raw) => {
            let n = lowercase(crate::text::trim(raw@));
            if n == "true"@ {
                r == Some(EnableSelector::Bool(true))
            } else if n == "false"@ {
                r == Some(EnableSelector::Bool(false))
            } else if n == "optimize"@ {
                r matches Some(EnableSelector::Mode(m)) && m@ == "optimize"@
            } else {
                r is None
            }
        },
        None => r is None,
    }
}

/// Whether type generation settings are the ones a binding value stands for, field by
/// field.
pub open spec fn napi_types_is(r: TypesConfig, t: NapiTypesConfig) -> bool {
    &&& r.input == t.input
    &&& r.output == t.output
    &&& r.resources_file == t.resourcesFile
    &&& r.default_locale == t.defaultLocale
    &&& r.locales_dir == t.localesDir
    &&& napi_selector_is(r.enable_selector, t.enableSelector)
    &&& napi_opt_indentation_is(r.indentation, t.indentation)
}

impl NapiTypesConfig {
    /// The type generation settings a binding value stands for.
    pub fn to_types_config(self) -> (r: TypesConfig)
        ensures
            napi_types_is(r, self),
    {
        let enable_selector = match &self.enableSelector {
            Some(raw) => {
                let t = string_of(&crate::text::trim_exec(&chars_of(raw.as_str())));
                let n = to_lowercase(t.as_str());
                let nc = chars_of(n.as_str());
                if seq_eq(&nc, &chars_of("true")) {
                    Some(EnableSelector::Bool(true))
                } else if seq_eq(&nc, &chars_of("false")) {
                    Some(EnableSelector::Bool(false))
                } else if seq_eq(&nc, &chars_of("optimize")) {
                    Some(EnableSelector::Mode(owned("optimize")))
                } else {
                    None
                }
            },
            None => None,
        };
        let indentation = match self.indentation {
            Some(i) => Some(i.to_indentation()),
            None => None,
        };
        TypesConfig {
            input: self.input,
            output: self.output,
            resources_file: self.resourcesFile,
            enable_selector,
            default_locale: self.defaultLocale,
            locales_dir: self.localesDir,
            indentation,
        }
    }
}

/// A string setting, or its default.
fn str_or(o: Option<String>, d: String) -> (r: String)
    ensures
        r@ == match o {
            Some(s) => s@,
            None => d@,
        },
{
    match o {
        Some(s) => s,
        None => d,
    }
}

/// A list setting, or its default.
fn strings_or(o: Option<Vec<String>>, d: Vec<String>) -> (r: Vec<String>)
    ensures
        r@ == match o {
            Some(s) => s@,
            None => d@,
        },
{
    match o {
        Some(s) => s,
        None => d,
    }
}

/// Whether a Node configuration sets nothing.
pub open spec fn napi_is_empty(n: NapiConfig) -> bool {
    &&& n.input is None
    &&& n.output is None
    &&& n.outputFormat is None
    &&& n.locales is None
    &&& n.defaultNamespace is None
    &&& n.functions is None
    &&& n.useTranslationNames is None
    &&& n.keySeparator is None
    &&& n.nsSeparator is None
    &&& n.contextSeparator is None
    &&& n.pluralSeparator is None
    &&& n.pluralSuffixes is None
    &&& n.disablePlurals is None
    &&& n.generateBasePluralForms is None
    &&& n.extractFromComments is None
    &&& n.useLocalePluralRules is None
    &&& n.ignore is None
    &&& n.preservePatterns is None
    &&& n.preserveContextVariants is None
    &&& n.removeUnusedKeys is None
    &&& n.mergeNamespaces is None
    &&& n.mergedNamespaceFilename is None
    &&& n.defaultValue is None
    &&& n.transComponents is None
    &&& n.transKeepBasicHtmlNodesFor is None
    &&& n.nestingPrefix is None
    &&& n.nestingSuffix is None
    &&& n.nestingOptionsSeparator is None
    &&& n.interpolationPrefix is None
    &&& n.interpolationSuffix is None
    &&& n.types is None
    &&& n.locize is None
    &&& n.primaryLanguage is None
    &&& n.secondaryLanguages is None
    &&& n.indentation is None
    &&& n.logLevel is None
}

/// A Node configuration that sets nothing gives the default configuration: every field of
/// the configuration built from it (see [`Config::from_napi`], which gives JSON output when
/// no format is set) holds its default value.
pub proof fn lemma_empty_napi_gives_defaults(n: NapiConfig, c: Config)
    requires
        napi_is_empty(n),
        napi_applied(c, n),
        c.output_format == OutputFormat::Json,
    ensures
        is_default_config(c),
{
    assert(views(c.ignore@).len() == c.ignore@.len());
    assert(views(c.preserve_patterns@).len() == c.preserve_patterns@.len());
}

/// Whether a configuration is what a binding value gives over the defaults (the output
/// format aside, which is parsed).
pub open spec fn napi_applied(c: Config, n: NapiConfig) -> bool {
    &&& views(c.input@) == match n.input {
        Some(v) => views(v@),
        None => seq!["src/**/*.{ts,tsx,js,jsx}"@],
    }
    &&& c.output@ == match n.output {
        Some(v) => v@,
        None => "locales"@,
    }
    &&& views(c.locales@) == match n.locales {
        Some(v) => views(v@),
        None => seq!["en"@],
    }
    &&& c.default_namespace@ == match n.defaultNamespace {
        Some(v) => v@,
        None => "translation"@,
    }
    &&& views(c.functions@) == match n.functions {
        Some(v) => views(v@),
        None => seq!["t"@],
    }
    &&& match n.useTranslationNames {
        Some(v) => c.use_translation_names@.len() == v@.len() && forall|i: int| 0 <= i < v@.len() ==> (#[trigger] c.use_translation_names@[i] matches UseTranslationName::Name(x) && x@ == v@[i]@),
        None => default_hooks(c.use_translation_names@),
    }
    &&& c.key_separator@ == match n.keySeparator {
        Some(v) => v@,
        None => "."@,
    }
    &&& c.ns_separator@ == match n.nsSeparator {
        Some(v) => v@,
        None => ":"@,
    }
    &&& c.context_separator@ == match n.contextSeparator {
        Some(v) => v@,
        None => "_"@,
    }
    &&& c.plural_separator@ == match n.pluralSeparator {
        Some(v) => v@,
        None => "_"@,
    }
    &&& views(c.plural_suffixes@) == match n.pluralSuffixes {
        Some(v) => views(v@),
        None => seq!["one"@, "other"@],
    }
    &&& c.disable_plurals == (n.disablePlurals == Some(true))
    &&& c.generate_base_plural_forms == (n.generateBasePluralForms == Some(true))
    &&& c.extract_from_comments == (n.extractFromComments != Some(false))
    &&& c.use_locale_plural_rules == (n.useLocalePluralRules != Some(false))
    &&& views(c.ignore@) == match n.ignore {
        Some(v) => views(v@),
        None => Seq::empty(),
    }
    &&& views(c.preserve_patterns@) == match n.preservePatterns {
        Some(v) => views(v@),
        None => Seq::empty(),
    }
    &&& c.preserve_context_variants == (n.preserveContextVariants == Some(true))
    &&& c.remove_unused_keys == (n.removeUnusedKeys != Some(false))
    &&& c.merge_namespaces == (n.mergeNamespaces == Some(true))
    &&& c.merged_namespace_filename == n.mergedNamespaceFilename
    &&& c.default_value == n.defaultValue
    &&& views(c.trans_components@) == match n.transComponents {
        Some(v) => views(v@),
        None => seq!["Trans"@],
    }
    &&& views(c.trans_keep_basic_html_nodes_for@) == match n.transKeepBasicHtmlNodesFor {
        Some(v) => views(v@),
        None => seq!["br"@, "strong"@, "i"@],
    }
    &&& c.nesting_prefix@ == match n.nestingPrefix {
        Some(v) => v@,
        None => "$t("@,
    }
    &&& c.nesting_suffix@ == match n.nestingSuffix {
        Some(v) => v@,
        None => ")"@,
    }
    &&& c.nesting_options_separator@ == match n.nestingOptionsSeparator {
        Some(v) => v@,
        None => ","@,
    }
    &&& c.interpolation_prefix@ == match n.interpolationPrefix {
        Some(v) => v@,
        None => "{{"@,
    }
    &&& c.interpolation_suffix@ == match n.interpolationSuffix {
        Some(v) => v@,
        None => "}}"@,
    }
    &&& match n.types {
        Some(t) => napi_types_is(c.types, t),
        None => c.types.input is None && c.types.output is None && c.types.resources_file is None
            && c.types.enable_selector is None && c.types.default_locale is None
            && c.types.locales_dir is None && c.types.indentation is None,
    }
    &&& match n.locize {
        Some(l) => match l.projectId {
            Some(p) => c.locize matches Some(z) && z.project_id == p && z.api_key == l.apiKey && z.version == l.version
                && z.source_language == l.sourceLanguage && z.namespaces == l.namespaces && z.update_values == l.updateValues
                && z.source_language_only == l.sourceLanguageOnly && z.compare_modification_time == l.compareModificationTime
                && z.cdn_type == l.cdnType && z.dry_run == l.dryRun,
            None => c.locize is None,
        },
        None => c.locize is None,
    }
    &&& c.primary_language == n.primaryLanguage
    &&& c.secondary_languages == n.secondaryLanguages
    &&& napi_opt_indentation_is(c.indentation, n.indentation)
    &&& c.lint.ignored_attributes@.len() == 0
    &&& views(c.lint.ignored_tags@) == seq!["script"@, "style"@, "code"@, "pre"@]
    &&& views(c.lint.accepted_attributes@) == seq!["alt"@, "title"@, "placeholder"@, "aria-label"@, "aria-description"@]
    &&& views(c.lint.accepted_tags@) == seq!["p"@, "span"@, "div"@, "button"@, "label"@, "img"@]
    &&& c.lint.ignore@.len() == 0
    &&& c.log_level@ == match n.logLevel {
        Some(v) => v@,
        None => "info"@,
    }
}

impl Config {
    /// A configuration from the binding's settings, each over its default, validated.
    pub fn from_napi(config: NapiConfig) -> (r: Result<Config, ConfigError>)
        ensures
            match r {
                Ok(c) => napi_applied(c, config) && config_problem(c) is None
                    && match config.outputFormat {
                        Some(f) => format_named(lowercase(f@)) == Some(c.output_format),
                        None => c.output_format == OutputFormat::Json,
                    },
                Err(e) => match config.outputFormat {
                    Some(f) => if format_named(lowercase(f@)) is None {
                        problem_of(e) == ConfigProblem::UnsupportedOutputFormat(lowercase(f@))
                    } else {
                        exists|c: Config| napi_applied(c, config) && config_problem(c) == Some(problem_of(e))
                    },
                    None => exists|c: Config| napi_applied(c, config) && config_problem(c) == Some(problem_of(e)),
                },
            },
    {
        let output_format = match &config.outputFormat {
            Some(f) => match OutputFormat::parse_str(f.as_str()) {
                Ok(v) => v,
                Err(e) => {
                    return Err(ConfigError::UnsupportedOutputFormat(e.value));
                },
            },
            None => OutputFormat::Json,
        };
        let c = Config::napi_unchecked(config, output_format);
        match c.validate() {
            Ok(()) => Ok(c),
            Err(e) => Err(e),
        }
    }

    /// A configuration from the binding's settings, each over its default, with the given
    /// output format, not yet validated.
    fn napi_unchecked(config: NapiConfig, output_format: OutputFormat) -> (c: Config)
        ensures
            napi_applied(c, config),
            c.output_format == output_format,
    {
        let ghost n = config;
        let use_translation_names = match config.useTranslationNames {
            Some(names) => {
                let mut out: Vec<UseTranslationName> = Vec::new();
                let mut i: usize = 0;
                while i < names.len()
                    invariant
                        i <= names@.len(),
                        out@.len() == i,
                        forall|j: int| 0 <= j < i ==> (#[trigger] out@[j] matches UseTranslationName::Name(x) && x@ == names@[j]@),
                    decreases names.len() - i,
                {
                    out.push(UseTranslationName::Name(names[i].clone()));
                    i = i + 1;
                }
                out
            },
            None => default_use_translation_names(),
        };
        let types = match config.types {
            Some(t) => t.to_types_config(),
            None => TypesConfig::default(),
        };
        let locize = match config.locize {
            Some(l) => match l.projectId {
                Some(project_id) => Some(LocizeConfig {
                    project_id,
                    api_key: l.apiKey,
                    version: l.version,
                    source_language: l.sourceLanguage,
                    namespaces: l.namespaces,
                    update_values: l.updateValues,
                    source_language_only: l.sourceLanguageOnly,
                    compare_modification_time: l.compareModificationTime,
                    cdn_type: l.cdnType,
                    dry_run: l.dryRun,
                }),
                None => None,
            },
            None => None,
        };
        let indentation = match config.indentation {
            Some(i) => Some(i.to_indentation()),
            None => None,
        };
        let c = Config {
            input: strings_or(config.input, default_input()),
            output: str_or(config.output, default_output()),
            output_format,
            locales: strings_or(config.locales, default_locales()),
            default_namespace: str_or(config.defaultNamespace, default_namespace()),
            functions: strings_or(config.functions, default_functions()),
            use_translation_names,
            key_separator: str_or(config.keySeparator, default_key_separator()),
            ns_separator: str_or(config.nsSeparator, default_ns_separator()),
            context_separator: str_or(config.contextSeparator, default_context_separator()),
            plural_separator: str_or(config.pluralSeparator, default_plural_separator()),
            plural_suffixes: strings_or(config.pluralSuffixes, default_plural_suffixes()),
            disable_plurals: match config.disablePlurals {
                Some(b) => b,
                None => false,
            },
            generate_base_plural_forms: match config.generateBasePluralForms {
                Some(b) => b,
                None => false,
            },
            extract_from_comments: match config.extractFromComments {
                Some(b) => b,
                None => default_extract_from_comments(),
            },
            use_locale_plural_rules: match config.useLocalePluralRules {
                Some(b) => b,
                None => default_use_locale_plural_rules(),
            },
            ignore: strings_or(config.ignore, Vec::new()),
            preserve_patterns: strings_or(config.preservePatterns, Vec::new()),
            preserve_context_variants: match config.preserveContextVariants {
                Some(b) => b,
                None => false,
            },
            remove_unused_keys: match config.removeUnusedKeys {
                Some(b) => b,
                None => default_remove_unused_keys(),
            },
            merge_namespaces: match config.mergeNamespaces {
                Some(b) => b,
                None => false,
            },
            merged_namespace_filename: config.mergedNamespaceFilename,
            default_value: config.defaultValue,
            trans_components: strings_or(config.transComponents, default_trans_components()),
            trans_keep_basic_html_nodes_for: strings_or(config.transKeepBasicHtmlNodesFor, default_trans_keep_nodes()),
            nesting_prefix: str_or(config.nestingPrefix, default_nesting_prefix()),
            nesting_suffix: str_or(config.nestingSuffix, default_nesting_suffix()),
            nesting_options_separator: str_or(config.nestingOptionsSeparator, default_nesting_options_separator()),
            interpolation_prefix: str_or(config.interpolationPrefix, default_interpolation_prefix()),
            interpolation_suffix: str_or(config.interpolationSuffix, default_interpolation_suffix()),
            types,
            locize,
            primary_language: config.primaryLanguage,
            secondary_languages: config.secondaryLanguages,
            indentation,
            lint: LintConfig::default(),
            log_level: str_or(config.logLevel, default_log_level()),
        };
        assert(views(c.ignore@) =~= match n.ignore {
            Some(v) => views(v@),
            None => Seq::empty(),
        });
        assert(views(c.preserve_patterns@) =~= match n.preservePatterns {
            Some(v) => views(v@),
            None => Seq::empty(),
        });
        assert(napi_applied(c, n));
        c
    }

    /// The configuration read from a file when one was found (already parsed), validated;
    /// the defaults otherwise.
    pub fn load_or_default(loaded: Option<Config>) -> (r: Result<Config, ConfigError>)
        ensures
            match loaded {
                Some(c) => match r {
                    Ok(x) => x == c && config_problem(c) is None,
                    Err(e) => config_problem(c) == Some(problem_of(e)),
                },
                None => r matches Ok(x) && is_default_config(x),
            },
    {
        match loaded {
            Some(c) => match c.validate() {
                Ok(()) => Ok(c),
                Err(e) => Err(e),
            },
            None => Ok(Config::default()),
        }
    }
}

} // verus!
