//! The Locize commands' decisions: which locales, namespaces and URLs, and what to upload.
use crate::cleanup::file_stem;
use crate::components::{ascii_lower, ascii_lower_exec};
use crate::config::{primary_of, Config, LocizeConfig, OutputFormat};
use crate::extractor::{extension_of, file_name, path_extension};
use crate::json::{
    clone_json, entries_of, json5_parse, lemma_entries_of, obj_get, obj_get_exec, parse_json5_text, parse_json_text,
    serde_json_parse, tree_of, JsonTree, JsonValue,
};
use crate::locale::{locale_file_path, locale_file_path_exec};
use crate::text::{chars_of, concat3, is_blank, is_blank_exec, seq_eq, split, split_exec, string_of, trim, trim_exec, views};
use crate::typegen::{insert_unique, strictly_sorted};
use vstd::prelude::*;

verus! {

/// The non-empty trimmed entries of a comma-separated list.
pub open spec fn csv_entries(parts: Seq<Seq<char>>) -> Seq<Seq<char>>
    decreases parts.len(),
{
    if parts.len() == 0 {
        Seq::empty()
    } else if trim(parts.last()).len() == 0 {
        csv_entries(parts.drop_last())
    } else {
        csv_entries(parts.drop_last()).push(trim(parts.last()))
    }
}

/// Splits a comma-separated list: each entry trimmed, empty ones dropped.
pub fn parse_csv_list(input: &str) -> (r: Vec<String>)
    ensures
        views(r@) == csv_entries(split(input@, ","@)),
{
    let comma = chars_of(",");
    proof {
        reveal_strlit(",");
    }
    let parts = split_exec(&chars_of(input), &comma);
    let ghost pv = parts@.map_values(|v: Vec<char>| v@);
    let mut out: Vec<String> = Vec::new();
    let mut i: usize = 0;
    while i < parts.len()
        invariant
            i <= parts@.len(),
            pv == parts@.map_values(|v: Vec<char>| v@),
            pv == split(input@, ","@),
            views(out@) == csv_entries(pv.take(i as int)),
        decreases parts.len() - i,
    {
        let ghost t = pv.take(i as int + 1);
        assert(t.drop_last() =~= pv.take(i as int));
        assert(t.last() == parts@[i as int]@);
        let e = trim_exec(&parts[i]);
        if e.len() > 0 {
            let ghost before = views(out@);
            out.push(string_of(&e));
            assert(views(out@) =~= before.push(e@));
        }
        i = i + 1;
    }
    assert(pv.take(parts@.len() as int) =~= pv);
    out
}

/// An output format the Locize commands cannot upload or download.
#[derive(Debug, Clone, Copy)]
pub struct UnsupportedLocizeFormat {
    pub format: OutputFormat,
}

/// The name of an output format as `Debug` writes it.
pub open spec fn format_name(f: OutputFormat) -> Seq<char> {
    match f {
        OutputFormat::Json => "Json"@,
        OutputFormat::Json5 => "Json5"@,
        OutputFormat::JsEsm => "JsEsm"@,
        OutputFormat::JsCjs => "JsCjs"@,
        OutputFormat::Ts => "Ts"@,
    }
}

impl UnsupportedLocizeFormat {
    /// The message that describes the error.
    pub fn message(&self) -> (r: String)
        ensures
            r@ == "Locize コマンドは JSON/JSON5 出力のみサポートしています (現在: "@ + format_name(self.format) + ")"@,
    {
        let name = match self.format {
            OutputFormat::Json => "Json",
            OutputFormat::Json5 => "Json5",
            OutputFormat::JsEsm => "JsEsm",
            OutputFormat::JsCjs => "JsCjs",
            OutputFormat::Ts => "Ts",
        };
        string_of(&concat3(&chars_of("Locize コマンドは JSON/JSON5 出力のみサポートしています (現在: "), &chars_of(name), &chars_of(")")))
    }
}

/// Checks that the output format is JSON or JSON5, the only ones Locize syncs.
pub fn ensure_supported_format(config: &Config) -> (r: Result<(), UnsupportedLocizeFormat>)
    ensures
        r is Ok <==> (config.output_format == OutputFormat::Json || config.output_format == OutputFormat::Json5),
        r matches Err(e) ==> e.format == config.output_format,
{
    match config.output_format {
        OutputFormat::Json | OutputFormat::Json5 => Ok(()),
        other => Err(UnsupportedLocizeFormat { format: other }),
    }
}

/// No Locize API key in the configuration nor in the environment.
#[derive(Debug, Clone, Copy)]
pub struct MissingApiKey;

impl MissingApiKey {
    /// The message that describes the error.
    pub fn message(&self) -> (r: String)
        ensures
            r@ == "Locize API キーが設定されていません。config.locize.apiKey か LOCIZE_API_KEY を指定してください。"@,
    {
        string_of(&chars_of("Locize API キーが設定されていません。config.locize.apiKey か LOCIZE_API_KEY を指定してください。"))
    }
}

/// The API key to use: the configured one unless blank, else the one from the environment
/// (`LOCIZE_API_KEY`) unless blank.
pub fn resolve_api_key(locize: &LocizeConfig, env_key: Option<String>) -> (r: Result<String, MissingApiKey>)
    ensures
        match r {
            Ok(k) => match locize.api_key {
                Some(c) => if !is_blank(c@) {
                    k@ == c@
                } else {
                    env_key matches Some(e) && !is_blank(e@) && k@ == e@
                },
                None => env_key matches Some(e) && !is_blank(e@) && k@ == e@,
            },
            Err(_) => (locize.api_key is None || is_blank(locize.api_key->Some_0@))
                && (env_key is None || is_blank(env_key->Some_0@)),
        },
{
    if let Some(key) = &locize.api_key {
        if !crate::text::is_blank_exec(&chars_of(key.as_str())) {
            return Ok(key.clone());
        }
    }
    if let Some(key) = env_key {
        if !crate::text::is_blank_exec(&chars_of(key.as_str())) {
            return Ok(key);
        }
    }
    Err(MissingApiKey)
}

/// The locales to transfer: the one given, else the configured ones.
pub fn resolve_locales(config: &Config, override_locale: Option<String>) -> (r: Vec<String>)
    ensures
        views(r@) == match override_locale {
            Some(l) => seq![l@],
            None => views(config.locales@),
        },
{
    match override_locale {
        Some(l) => {
            let r = vec![l];
            assert(views(r@) =~= seq![r@[0]@]);
            r
        },
        None => crate::text::clone_strings(&config.locales),
    }
}

/// The source locale: the configured Locize source language, else the primary language.
pub fn resolve_source_locale(config: &Config, locize: &LocizeConfig) -> (r: String)
    ensures
        r@ == match locize.source_language {
            Some(s) => s@,
            None => primary_of(*config),
        },
{
    match &locize.source_language {
        Some(s) => s.clone(),
        None => string_of(&chars_of(config.primary_language())),
    }
}

/// The locales a transfer covers: the source locale alone with `sourceLanguageOnly`, else
/// those [`resolve_locales`] gives.
pub fn transfer_locales(config: &Config, locize: &LocizeConfig, override_locale: Option<String>) -> (r: Vec<String>)
    ensures
        views(r@) == if locize.source_language_only == Some(true) {
            seq![match locize.source_language {
                Some(s) => s@,
                None => primary_of(*config),
            }]
        } else {
            match override_locale {
                Some(l) => seq![l@],
                None => views(config.locales@),
            }
        },
{
    let locales = resolve_locales(config, override_locale);
    if locize.source_language_only == Some(true) {
        let r = vec![resolve_source_locale(config, locize)];
        assert(views(r@) =~= seq![r@[0]@]);
        r
    } else {
        locales
    }
}

/// The version to transfer: the configured one, else `latest`.
pub fn resolve_version(locize: &LocizeConfig) -> (r: String)
    ensures
        r@ == match locize.version {
            Some(v) => v@,
            None => "latest"@,
        },
{
    match &locize.version {
        Some(v) => v.clone(),
        None => string_of(&chars_of("latest")),
    }
}

/// The host downloads come from: `api.locize.pro` for the pro CDN, else `api.locize.app`.
pub fn download_base_host(locize: &LocizeConfig) -> (r: &'static str)
    ensures
        r@ == if locize.cdn_type matches Some(c) && c@ == "pro"@ {
            "api.locize.pro"@
        } else {
            "api.locize.app"@
        },
{
    match &locize.cdn_type {
        Some(c) => if crate::json::string_is(c, &chars_of("pro")) {
            "api.locize.pro"
        } else {
            "api.locize.app"
        },
        None => "api.locize.app",
    }
}

/// The URL a namespace of a locale is uploaded to.
pub fn upload_url(locize: &LocizeConfig, version: &str, locale: &str, namespace: &str) -> (r: String)
    ensures
        r@ == "https://api.locize.io/"@ + locize.project_id@ + "/"@ + version@ + "/"@ + locale@ + "/"@ + namespace@,
{
    let mut out = chars_of("https://api.locize.io/");
    crate::text::append_chars(&mut out, &chars_of(locize.project_id.as_str()));
    crate::text::append_chars(&mut out, &chars_of("/"));
    crate::text::append_chars(&mut out, &chars_of(version));
    crate::text::append_chars(&mut out, &chars_of("/"));
    crate::text::append_chars(&mut out, &chars_of(locale));
    crate::text::append_chars(&mut out, &chars_of("/"));
    crate::text::append_chars(&mut out, &chars_of(namespace));
    string_of(&out)
}

/// The URL a namespace of a locale is downloaded from (on the host [`download_base_host`]
/// gives).
pub fn download_url(locize: &LocizeConfig, version: &str, locale: &str, namespace: &str) -> (r: String)
    ensures
        r@ == "https://"@ + (if locize.cdn_type matches Some(c) && c@ == "pro"@ {
            "api.locize.pro"@
        } else {
            "api.locize.app"@
        }) + "/"@ + locize.project_id@ + "/"@ + version@ + "/"@ + locale@ + "/"@ + namespace@,
{
    let mut out = chars_of("https://");
    crate::text::append_chars(&mut out, &chars_of(download_base_host(locize)));
    crate::text::append_chars(&mut out, &chars_of("/"));
    crate::text::append_chars(&mut out, &chars_of(locize.project_id.as_str()));
    crate::text::append_chars(&mut out, &chars_of("/"));
    crate::text::append_chars(&mut out, &chars_of(version));
    crate::text::append_chars(&mut out, &chars_of("/"));
    crate::text::append_chars(&mut out, &chars_of(locale));
    crate::text::append_chars(&mut out, &chars_of("/"));
    crate::text::append_chars(&mut out, &chars_of(namespace));
    string_of(&out)
}

/// The path of a namespace's file for a locale under the output directory.
pub fn locale_namespace_path(config: &Config, locale: &str, namespace: &str, extension: &str) -> (r: String)
    ensures
        r@ == locale_file_path(config.output@, locale@, namespace@, extension@),
{
    string_of(&locale_file_path_exec(&chars_of(config.output.as_str()), &chars_of(locale), &chars_of(namespace), &chars_of(extension)))
}

/// Where `setup` saves the configuration: the path given, else the source configuration
/// when it is a `.json` file (any case), else `i18next-turbo.json`.
pub open spec fn setup_output_path(source: Option<Seq<char>>, output: Option<Seq<char>>) -> Seq<char> {
    match output {
        Some(o) => o,
        None => match source {
            Some(p) => if extension_of(file_name(p)) matches Some(e) && ascii_lower(e) == "json"@ {
                p
            } else {
                "i18next-turbo.json"@
            },
            None => "i18next-turbo.json"@,
        },
    }
}

/// Where `setup` saves the configuration (see [`setup_output_path`]).
pub fn resolve_setup_output_path(source_config_path: Option<&str>, output: Option<String>) -> (r: String)
    ensures
        r@ == setup_output_path(
            match source_config_path {
                Some(p) => Some(p@),
                None => None,
            },
            match output {
                Some(o) => Some(o@),
                None => None,
            },
        ),
{
    if let Some(o) = output {
        return o;
    }
    if let Some(p) = source_config_path {
        if let Some(e) = path_extension(&chars_of(p)) {
            if seq_eq(&ascii_lower_exec(&e), &chars_of("json")) {
                return string_of(&chars_of(p));
            }
        }
    }
    string_of(&chars_of("i18next-turbo.json"))
}

/// What of a local value Locize does not have yet: for two objects, the members missing
/// remotely, and, for members present on both sides, what is new inside them (kept unless
/// nothing is); where the remote side is `null`, the local value; otherwise nothing
/// (`null`).
pub open spec fn new_keys(local: JsonTree, remote: JsonTree) -> JsonTree
    decreases local, 0nat,
{
    match (local, remote) {
        (JsonTree::Object(l), JsonTree::Object(r)) => JsonTree::Object(new_members(l, r)),
        (_, JsonTree::Null) => local,
        (_, _) => JsonTree::Null,
    }
}

/// The members of `l` that are new with respect to the object `r` (see [`new_keys`]).
pub open spec fn new_members(l: Seq<(Seq<char>, JsonTree)>, r: Seq<(Seq<char>, JsonTree)>) -> Seq<(Seq<char>, JsonTree)>
    decreases l, l.len(),
{
    if l.len() == 0 {
        Seq::empty()
    } else {
        let (k, v) = l.last();
        let before = new_members(l.drop_last(), r);
        match obj_get(r, k) {
            None => crate::json::obj_set(before, k, v),
            Some(rv) => {
                let d = new_keys(v, rv);
                if d is Null {
                    before
                } else {
                    crate::json::obj_set(before, k, d)
                }
            },
        }
    }
}

/// What of a local value Locize does not have yet (see [`new_keys`]).
pub fn filter_new_keys(local: &JsonValue, remote: &JsonValue) -> (r: JsonValue)
    ensures
        r@ == new_keys(local@, remote@),
    decreases local,
{
    match (local, remote) {
        (JsonValue::Object(l), JsonValue::Object(rm)) => {
            proof {
                lemma_entries_of(l@);
            }
            let ghost le = entries_of(l@);
            let ghost re = entries_of(rm@);
            let mut out: Vec<(String, JsonValue)> = Vec::new();
            assert(entries_of(out@) =~= new_members(le.take(0), re));
            let mut i: usize = 0;
            while i < l.len()
                invariant
                    i <= l@.len(),
                    le == entries_of(l@),
                    re == entries_of(rm@),
                    le.len() == l@.len(),
                    forall|j: int| 0 <= j < l@.len() ==> #[trigger] le[j] == (l@[j].0@, tree_of(l@[j].1)),
                    *local == JsonValue::Object(*l),
                    entries_of(out@) == new_members(le.take(i as int), re),
                decreases l.len() - i,
            {
                let ghost t = le.take(i as int + 1);
                assert(t.drop_last() =~= le.take(i as int));
                assert(t.last() == le[i as int]);
                let k = &l[i].0;
                match obj_get_exec(rm, &chars_of(k.as_str())) {
                    None => {
                        crate::json::obj_set_exec(&mut out, k.clone(), clone_json(&l[i].1));
                    },
                    Some(rv) => {
                        proof {
                            assert(decreases_to!(*local => local->Object_0));
                            assert(decreases_to!(local->Object_0 => local->Object_0@));
                            assert(decreases_to!(local->Object_0@ => local->Object_0@[i as int]));
                            assert(decreases_to!(local->Object_0@[i as int] => local->Object_0@[i as int].1));
                        }
                        let d = filter_new_keys(&l[i].1, rv);
                        let is_null = match &d {
                            JsonValue::Null => true,
                            _ => false,
                        };
                        if !is_null {
                            crate::json::obj_set_exec(&mut out, k.clone(), d);
                        }
                    },
                }
                i = i + 1;
            }
            assert(le.take(l@.len() as int) =~= le);
            JsonValue::Object(out)
        },
        (_, JsonValue::Null) => clone_json(local),
        (_, _) => JsonValue::Null,
    }
}

/// A translation file's text that cannot be uploaded: not JSON (or JSON5), or a format
/// Locize does not take.
#[derive(Debug, Clone, Copy, PartialEq, Eq, Structural)]
pub enum PayloadError {
    Json,
    Json5,
    UnsupportedFormat,
}

/// Reads a translation file's text for upload in the configured format.
pub fn parse_payload(content: &str, format: OutputFormat) -> (r: Result<JsonValue, PayloadError>)
    ensures
        match r {
            Ok(v) => match format {
                OutputFormat::Json => serde_json_parse(content@) == Some(v@),
                OutputFormat::Json5 => json5_parse(content@) == Some(v@),
                _ => false,
            },
            Err(PayloadError::Json) => format == OutputFormat::Json && serde_json_parse(content@) is None,
            Err(PayloadError::Json5) => format == OutputFormat::Json5 && json5_parse(content@) is None,
            Err(PayloadError::UnsupportedFormat) => format != OutputFormat::Json && format != OutputFormat::Json5,
        },
{
    match format {
        OutputFormat::Json => match parse_json_text(content) {
            Some(v) => Ok(v),
            None => Err(PayloadError::Json),
        },
        OutputFormat::Json5 => match parse_json5_text(content) {
            Some(v) => Ok(v),
            None => Err(PayloadError::Json5),
        },
        _ => Err(PayloadError::UnsupportedFormat),
    }
}

/// The namespaces of one locale's files: the names of the files with the given extension
/// (any case), without it, sorted and each once.
pub open spec fn file_namespaces(paths: Seq<Seq<char>>, extension: Seq<char>, n: int) -> Seq<Seq<char>>
    decreases n,
{
    if n <= 0 || n > paths.len() {
        Seq::empty()
    } else if extension_of(file_name(paths[n - 1])) matches Some(e) && ascii_lower(e) == ascii_lower(extension) {
        file_namespaces(paths, extension, n - 1).push(file_stem(paths[n - 1]))
    } else {
        file_namespaces(paths, extension, n - 1)
    }
}

/// The files of one locale's directory, when that directory exists.
#[derive(Debug, Clone)]
pub struct LocaleListing {
    pub files: Vec<String>,
}

/// The namespaces the files of the first `n` listed locales give: those of the first
/// locale with any, else none.
pub open spec fn detected_from(listings: Seq<LocaleListing>, extension: Seq<char>, n: int) -> Option<Set<Seq<char>>>
    decreases n,
{
    if n <= 0 || n > listings.len() {
        None
    } else {
        match detected_from(listings, extension, n - 1) {
            Some(s) => Some(s),
            None => {
                let f = views(listings[n - 1].files@);
                let found = file_namespaces(f, extension, f.len() as int);
                if found.len() > 0 {
                    Some(found.to_set())
                } else {
                    None
                }
            },
        }
    }
}

/// Once a locale gives namespaces, longer prefixes give the same.
proof fn lemma_detected_persists(listings: Seq<LocaleListing>, extension: Seq<char>, n: int, s: Set<Seq<char>>)
    requires
        0 <= n <= listings.len(),
        detected_from(listings, extension, n) == Some(s),
    ensures
        detected_from(listings, extension, listings.len() as int) == Some(s),
    decreases listings.len() - n,
{
    if n < listings.len() {
        lemma_detected_persists(listings, extension, n + 1, s);
    }
}

/// The namespaces found in the locales' files: those of the first locale (in the order
/// listed) whose directory holds files with the given extension, sorted and each once;
/// else the effective default namespace.
pub fn detect_namespaces(config: &Config, listings: &[LocaleListing], extension: &str) -> (r: Vec<String>)
    ensures
        match detected_from(listings@, extension@, listings@.len() as int) {
            Some(s) => strictly_sorted(views(r@)) && views(r@).to_set() == s,
            None => views(r@) == seq![if config.default_namespace@.len() == 0 {
                "translation"@
            } else {
                config.default_namespace@
            }],
        },
{
    let ext = ascii_lower_exec(&chars_of(extension));
    let mut l: usize = 0;
    while l < listings.len()
        invariant
            l <= listings@.len(),
            ext@ == ascii_lower(extension@),
            detected_from(listings@, extension@, l as int) is None,
        decreases listings.len() - l,
    {
        let files = &listings[l].files;
        let ghost fv = views(files@);
        let mut found: Vec<Vec<char>> = Vec::new();
        let mut count: usize = 0;
        let mut i: usize = 0;
        assert(Seq::<Seq<char>>::empty().to_set() =~= Set::<Seq<char>>::empty());
        while i < files.len()
            invariant
                i <= files@.len(),
                fv == views(files@),
                ext@ == ascii_lower(extension@),
                strictly_sorted(crate::text::cviews(found@)),
                crate::text::cviews(found@).to_set() == file_namespaces(fv, extension@, i as int).to_set(),
                count == file_namespaces(fv, extension@, i as int).len(),
                count <= i,
            decreases files.len() - i,
        {
            let p = chars_of(files[i].as_str());
            assert(fv[i as int] == p@);
            let ghost before = file_namespaces(fv, extension@, i as int);
            match path_extension(&p) {
                Some(e) => {
                    if seq_eq(&ascii_lower_exec(&e), &ext) {
                        let stem = crate::cleanup::file_stem_of(files[i].as_str());
                        let ghost sv = stem@;
                        insert_unique(&mut found, chars_of(stem.as_str()));
                        count = count + 1;
                        assert(file_namespaces(fv, extension@, i as int + 1) == before.push(sv));
                        assert(before.push(sv).to_set() =~= before.to_set().insert(sv)) by {
                            assert forall|y: Seq<char>| before.push(sv).contains(y) <==> before.to_set().insert(sv).contains(y) by {
                                if before.push(sv).contains(y) {
                                    let k = choose|k: int| 0 <= k < before.len() + 1 && before.push(sv)[k] == y;
                                    if k < before.len() {
                                        assert(before[k] == y);
                                    }
                                }
                                if before.contains(y) {
                                    let k = choose|k: int| 0 <= k < before.len() && before[k] == y;
                                    assert(before.push(sv)[k] == y);
                                }
                                if y == sv {
                                    assert(before.push(sv)[before.len() as int] == y);
                                }
                            }
                        }
                    }
                },
                None => {},
            }
            i = i + 1;
        }
        if count > 0 {
            let mut out: Vec<String> = Vec::new();
            let mut j: usize = 0;
            while j < found.len()
                invariant
                    j <= found@.len(),
                    views(out@) == crate::text::cviews(found@).take(j as int),
                decreases found.len() - j,
            {
                let ghost before = views(out@);
                out.push(string_of(&found[j]));
                assert(views(out@) =~= before.push(found@[j as int]@));
                assert(crate::text::cviews(found@).take(j as int + 1) =~= crate::text::cviews(found@).take(j as int).push(found@[j as int]@));
                j = j + 1;
            }
            assert(crate::text::cviews(found@).take(found@.len() as int) =~= crate::text::cviews(found@));
            assert(fv == views(listings@[l as int].files@));
            proof {
                let fs = file_namespaces(fv, extension@, fv.len() as int);
                assert(fs.len() > 0);
                assert(detected_from(listings@, extension@, l as int + 1) == Some(fs.to_set()));
                lemma_detected_persists(listings@, extension@, l as int + 1, fs.to_set());
            }
            return out;
        }
        l = l + 1;
    }
    let r = vec![string_of(&chars_of(config.effective_default_namespace()))];
    assert(views(r@) =~= seq![r@[0]@]);
    r
}

/// The namespaces to transfer: the one given, else the configured Locize namespaces when
/// there are any, else those found in the locales' files (see [`detect_namespaces`]).
pub fn resolve_namespaces(
    config: &Config,
    locize: &LocizeConfig,
    override_namespace: Option<&str>,
    extension: &str,
    listings: &[LocaleListing],
) -> (r: Vec<String>)
    ensures
        match override_namespace {
            Some(ns) => views(r@) == seq![ns@],
            None => match locize.namespaces {
                Some(list) if list@.len() > 0 => r@ == list@,
                _ => match detected_from(listings@, extension@, listings@.len() as int) {
                    Some(s) => strictly_sorted(views(r@)) && views(r@).to_set() == s,
                    None => views(r@) == seq![if config.default_namespace@.len() == 0 {
                        "translation"@
                    } else {
                        config.default_namespace@
                    }],
                },
            },
        },
{
    if let Some(ns) = override_namespace {
        let r = vec![string_of(&chars_of(ns))];
        assert(views(r@) =~= seq![r@[0]@]);
        return r;
    }
    if let Some(list) = &locize.namespaces {
        if list.len() > 0 {
            return crate::text::clone_strings(list);
        }
    }
    detect_namespaces(config, listings, extension)
}

/// What an answer to a prompt gives: the trimmed answer, or the default when it is blank.
pub open spec fn answer_or_default(entered: Seq<char>, default: Option<Seq<char>>) -> Option<Seq<char>> {
    if trim(entered).len() == 0 {
        default
    } else {
        Some(trim(entered))
    }
}

/// What an answer to a prompt gives (see [`answer_or_default`]).
pub fn prompt_answer(entered: &str, default: Option<String>) -> (r: Option<String>)
    ensures
        match r {
            Some(a) => answer_or_default(entered@, match default { Some(d) => Some(d@), None => None }) == Some(a@),
            None => answer_or_default(entered@, match default { Some(d) => Some(d@), None => None }) is None,
        },
{
    let t = trim_exec(&chars_of(entered));
    if t.len() == 0 {
        default
    } else {
        Some(string_of(&t))
    }
}

/// `setup` was given no project id.
#[derive(Debug, Clone, Copy, PartialEq, Eq, Structural)]
pub struct MissingProjectId;

impl MissingProjectId {
    /// The message that describes the error.
    pub fn message(&self) -> (r: String)
        ensures
            r@ == "locize.projectId は必須です。--project-id で指定するか、対話入力を行ってください。"@,
    {
        string_of(&chars_of("locize.projectId は必須です。--project-id で指定するか、対話入力を行ってください。"))
    }
}

/// An optional setting, kept when given and not blank.
pub open spec fn kept(v: Option<Seq<char>>) -> Option<Seq<char>> {
    match v {
        Some(x) => if is_blank(x) {
            None
        } else {
            Some(x)
        },
        None => None,
    }
}

/// The members `setup` writes under `locize`: the trimmed project id, then the API key,
/// version and source language when given and not blank, then the namespaces of the
/// comma-separated list when it names any.
pub open spec fn setup_members(
    project_id: Seq<char>,
    api_key: Option<Seq<char>>,
    version: Option<Seq<char>>,
    source_language: Option<Seq<char>>,
    namespaces: Option<Seq<char>>,
) -> Seq<(Seq<char>, JsonTree)> {
    let a = seq![("projectId"@, JsonTree::Str(trim(project_id)))];
    let b = match kept(api_key) {
        Some(v) => a.push(("apiKey"@, JsonTree::Str(v))),
        None => a,
    };
    let c = match kept(version) {
        Some(v) => b.push(("version"@, JsonTree::Str(v))),
        None => b,
    };
    let d = match kept(source_language) {
        Some(v) => c.push(("sourceLanguage"@, JsonTree::Str(v))),
        None => c,
    };
    match namespaces {
        Some(raw) => {
            let list = csv_entries(split(raw, ","@));
            if list.len() > 0 {
                d.push(("namespaces"@, JsonTree::Array(list.map_values(|x: Seq<char>| JsonTree::Str(x)))))
            } else {
                d
            }
        },
        None => d,
    }
}

/// Adds an optional setting to the members when it is given and not blank.
fn push_kept(out: &mut Vec<(String, JsonValue)>, name: &str, v: &Option<String>)
    ensures
        entries_of(final(out)@) == match kept(crate::keys::opt_view(*v)) {
            Some(x) => entries_of(old(out)@).push((name@, JsonTree::Str(x))),
            None => entries_of(old(out)@),
        },
{
    match v {
        Some(x) => {
            if !is_blank_exec(&chars_of(x.as_str())) {
                let ghost before = entries_of(out@);
                out.push((string_of(&chars_of(name)), JsonValue::Str(x.clone())));
                proof {
                    lemma_entries_of(out@);
                    lemma_entries_of(old(out)@);
                    assert(entries_of(out@) =~= before.push((name@, JsonTree::Str(x@))));
                }
            }
        },
        None => {},
    }
}

/// The `locize` entry `setup` writes (see [`setup_members`]); an error when the project id
/// is missing or blank.
pub fn locize_setup_entry(
    project_id: Option<String>,
    api_key: Option<String>,
    version: Option<String>,
    source_language: Option<String>,
    namespaces: Option<String>,
) -> (r: Result<JsonValue, MissingProjectId>)
    ensures
        match project_id {
            Some(p) => if trim(p@).len() == 0 {
                r is Err
            } else {
                r matches Ok(v) && v@ == JsonTree::Object(setup_members(p@, crate::keys::opt_view(api_key), crate::keys::opt_view(version), crate::keys::opt_view(source_language), crate::keys::opt_view(namespaces)))
            },
            None => r is Err,
        },
{
    let p = match &project_id {
        Some(p) => trim_exec(&chars_of(p.as_str())),
        None => {
            return Err(MissingProjectId);
        },
    };
    if p.len() == 0 {
        return Err(MissingProjectId);
    }
    let mut out: Vec<(String, JsonValue)> = Vec::new();
    out.push((string_of(&chars_of("projectId")), JsonValue::Str(string_of(&p))));
    proof {
        lemma_entries_of(out@);
        assert(entries_of(out@) =~= seq![("projectId"@, JsonTree::Str(p@))]);
    }
    push_kept(&mut out, "apiKey", &api_key);
    push_kept(&mut out, "version", &version);
    push_kept(&mut out, "sourceLanguage", &source_language);
    match &namespaces {
        Some(raw) => {
            let list = parse_csv_list(raw.as_str());
            if list.len() > 0 {
                let mut items: Vec<JsonValue> = Vec::new();
                let mut i: usize = 0;
                while i < list.len()
                    invariant
                        i <= list@.len(),
                        crate::json::trees_of(items@) == views(list@).take(i as int).map_values(|x: Seq<char>| JsonTree::Str(x)),
                    decreases list.len() - i,
                {
                    let ghost before = items@;
                    let x = list[i].clone();
                    assert(x@ == views(list@)[i as int]);
                    let ghost xv = x@;
                    let item = JsonValue::Str(x);
                    assert(tree_of(item) == JsonTree::Str(xv));
                    items.push(item);
                    proof {
                        assert(items@.drop_last() =~= before);
                        assert(tree_of(items@.last()) == JsonTree::Str(xv));
                        assert(crate::json::trees_of(items@) == crate::json::trees_of(before).push(JsonTree::Str(xv)));
                        assert(crate::json::trees_of(items@) =~= views(list@).take(i as int + 1).map_values(|x: Seq<char>| JsonTree::Str(x)));
                    }
                    i = i + 1;
                }
                proof {
                    assert(views(list@).take(list@.len() as int) =~= views(list@));
                }
                let ghost before = entries_of(out@);
                let ghost ov = out@;
                let ghost arr = crate::json::trees_of(items@);
                let entry = (string_of(&chars_of("namespaces")), JsonValue::Array(items));
                assert(entry.1@ == JsonTree::Array(arr));
                out.push(entry);
                proof {
                    assert(out@.drop_last() =~= ov);
                    assert(entries_of(out@) == before.push(("namespaces"@, JsonTree::Array(arr))));
                }
            }
        },
        None => {},
    }
    Ok(JsonValue::Object(out))
}

/// The configuration's root is not a JSON object.
#[derive(Debug, Clone, Copy, PartialEq, Eq, Structural)]
pub struct RootNotObject;

impl RootNotObject {
    /// The message that describes the error.
    pub fn message(&self) -> (r: String)
        ensures
            r@ == "設定ファイルのルートは JSON オブジェクトである必要があります"@,
    {
        string_of(&chars_of("設定ファイルのルートは JSON オブジェクトである必要があります"))
    }
}

/// A configuration with its `locize` entry set (in place when present, appended
/// otherwise); an error when its root is not an object.
pub fn with_locize_entry(root: JsonValue, entry: JsonValue) -> (r: Result<JsonValue, RootNotObject>)
    ensures
        match root@ {
            JsonTree::Object(ms) => r matches Ok(v) && v@ == JsonTree::Object(crate::json::obj_set(ms, "locize"@, entry@)),
            _ => r is Err,
        },
{
    match root {
        JsonValue::Object(mut ms) => {
            crate::json::obj_set_exec(&mut ms, string_of(&chars_of("locize")), entry);
            Ok(JsonValue::Object(ms))
        },
        _ => Err(RootNotObject),
    }
}

} // verus!
