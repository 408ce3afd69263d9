//! Translation-key extraction from one script source.
use crate::ast::{parse_script, swc_parse};
use crate::comments::{comments_fold, push_comments_keys};
use crate::config::{PluralConfig, UseTranslationName};
use crate::json::JsonTree;
pub use crate::keys::ExtractedKey;
use crate::keys::{key_views, KeyView, ScanSettings};
use crate::order::{flat_texts_exec, ordered_texts, sort_entries};
use crate::text::{chars_of, owned, views};
use crate::visit::{state_view, walk, walk_exec, CommentMaps, StateView, VisitState};
use vstd::prelude::*;

verus! {

/// Error encountered during extraction.
#[derive(Debug, Clone)]
pub struct ExtractionError {
    pub file_path: String,
    pub message: String,
}

/// Result of extraction from multiple files.
#[derive(Debug, Default)]
pub struct ExtractionResult {
    pub files: Vec<(String, Vec<ExtractedKey>)>,
    pub warning_count: usize,
    pub errors: Vec<ExtractionError>,
}

/// Where something worth a warning was found: 1-based line and column (in characters).
#[derive(Debug, Clone, Copy)]
pub struct SourcePosition {
    pub line: u64,
    pub column: u64,
}

/// A source that did not parse: where the parser stopped, and why.
#[derive(Debug, Clone)]
pub struct ParseFailure {
    pub position: SourcePosition,
    pub message: String,
}

/// What scanning one source gives: its keys, where template literals with substitutions
/// were met in key position, and the parse failure if the source did not parse.
#[derive(Debug)]
pub struct SourceScan {
    pub keys: Vec<ExtractedKey>,
    pub dynamic_templates: Vec<SourcePosition>,
    pub parse_error: Option<ParseFailure>,
}

/// The width in bytes of a character in UTF-8.
pub open spec fn utf8_width(c: char) -> int {
    if (c as u32) < 0x80 {
        1
    } else if (c as u32) < 0x800 {
        2
    } else if (c as u32) < 0x10000 {
        3
    } else {
        4
    }
}

/// Line and column reached from character `i` (at `line`, `col`) after `budget` more bytes.
pub open spec fn locate_from(src: Seq<char>, i: int, budget: int, line: int, col: int) -> (int, int)
    decreases src.len() - i,
{
    if i < 0 || i >= src.len() || budget <= 0 {
        (line, col)
    } else {
        let b = if budget - utf8_width(src[i]) < 0 {
            0
        } else {
            budget - utf8_width(src[i])
        };
        if src[i] == '\n' {
            locate_from(src, i + 1, b, line + 1, 1)
        } else {
            locate_from(src, i + 1, b, line, col + 1)
        }
    }
}

/// The 1-based line and column of the character at byte offset `off` of a source.
pub open spec fn locate(src: Seq<char>, off: int) -> (int, int) {
    locate_from(src, 0, off, 1, 1)
}

/// The line and column of the character at byte offset `off` (see [`locate`]).
pub fn locate_exec(src: &[char], off: u32) -> (r: SourcePosition)
    ensures
        (r.line as int, r.column as int) == locate(src@, off as int),
{
    let n = src.len();
    let mut i: usize = 0;
    let mut budget: u32 = off;
    let mut line: u64 = 1;
    let mut col: u64 = 1;
    while i < n && budget > 0
        invariant
            n == src@.len(),
            i <= n,
            budget <= off,
            1 <= line <= (off - budget) + 1,
            1 <= col <= (off - budget) + 1,
            locate(src@, off as int) == locate_from(src@, i as int, budget as int, line as int, col as int),
        decreases n - i,
    {
        let c = src[i];
        let w: u32 = if (c as u32) < 0x80 {
            1
        } else if (c as u32) < 0x800 {
            2
        } else if (c as u32) < 0x10000 {
            3
        } else {
            4
        };
        assert(w as int == utf8_width(c));
        budget = if budget < w {
            0
        } else {
            budget - w
        };
        if c == '\n' {
            line = line + 1;
            col = 1;
        } else {
            col = col + 1;
        }
        i = i + 1;
    }
    SourcePosition { line, column: col }
}

/// The state a walk starts from.
pub open spec fn initial_state() -> StateView {
    StateView { keys: Seq::empty(), scopes: Seq::empty(), warnings: Seq::empty() }
}

/// The comment texts of a script: leading comments, then trailing ones, each in position
/// order.
pub open spec fn comment_texts(lm: Map<int, Seq<Seq<char>>>, tm: Map<int, Seq<Seq<char>>>) -> Seq<Seq<char>> {
    ordered_texts(lm) + ordered_texts(tm)
}

/// The keys of a parsed script: those of the walk over its tree, then, when enabled, those
/// read from its comments.
pub open spec fn script_keys(cx: ScanSettings, module: JsonTree, lm: Map<int, Seq<Seq<char>>>, tm: Map<int, Seq<Seq<char>>>) -> Seq<KeyView> {
    let st = walk(cx, CommentMaps { leading: lm, trailing: tm }, initial_state(), module);
    if cx.extract_from_comments {
        let texts = comment_texts(lm, tm);
        comments_fold(cx, st.keys, texts, texts.len() as int)
    } else {
        st.keys
    }
}

/// The positions, as byte offsets into the source, of the template literals with
/// substitutions met in key position.
pub open spec fn script_warnings(cx: ScanSettings, module: JsonTree, lm: Map<int, Seq<Seq<char>>>, tm: Map<int, Seq<Seq<char>>>) -> Seq<int> {
    walk(cx, CommentMaps { leading: lm, trailing: tm }, initial_state(), module).warnings
}

/// The keys of a source: none when it does not parse.
pub open spec fn source_keys(cx: ScanSettings, source: Seq<char>, tsx: bool) -> Seq<KeyView> {
    match swc_parse(source, tsx) {
        Ok((module, _start, lm, tm)) => script_keys(cx, module, lm, tm),
        Err(_) => Seq::empty(),
    }
}

/// How many template literals with substitutions a source has in key position.
pub open spec fn source_warning_count(cx: ScanSettings, source: Seq<char>, tsx: bool) -> nat {
    match swc_parse(source, tsx) {
        Ok((module, _start, lm, tm)) => script_warnings(cx, module, lm, tm).len(),
        Err(_) => 0,
    }
}

/// The last path component.
pub open spec fn file_name(path: Seq<char>) -> Seq<char>
    decreases path.len(),
{
    if path.len() == 0 {
        path
    } else if path.last() == '/' {
        Seq::empty()
    } else {
        file_name(path.drop_last()).push(path.last())
    }
}

/// The extension of a file name: what follows its last dot, unless that dot starts the name.
pub open spec fn extension_of(name: Seq<char>) -> Option<Seq<char>>
    decreases name.len(),
{
    if name.len() <= 1 {
        None
    } else if name.last() == '.' {
        Some(Seq::empty())
    } else {
        match extension_of(name.drop_last()) {
            Some(e) => Some(e.push(name.last())),
            None => None,
        }
    }
}

/// Whether a path names a file parsed with JSX enabled (`.tsx` or `.jsx`).
pub open spec fn is_tsx_path(path: Seq<char>) -> bool {
    extension_of(file_name(path)) == Some("tsx"@) || extension_of(file_name(path)) == Some("jsx"@)
}

/// The extension of the file a path names.
pub fn path_extension(path: &[char]) -> (r: Option<Vec<char>>)
    ensures
        match r {
            Some(e) => extension_of(file_name(path@)) == Some(e@),
            None => extension_of(file_name(path@)) is None,
        },
{
    let n = path.len();
    let mut start: usize = n;
    assert(path@.take(n as int) =~= path@);
    assert(file_name(path@) =~= file_name(path@.take(n as int)) + path@.subrange(n as int, n as int));
    while start > 0 && path[start - 1] != '/'
        invariant
            start <= n,
            n == path@.len(),
            file_name(path@) == file_name(path@.take(start as int)) + path@.subrange(start as int, n as int),
        decreases start,
    {
        proof {
            let t = path@.take(start as int);
            assert(t.drop_last() =~= path@.take(start as int - 1));
            assert(path@.subrange(start as int - 1, n as int) =~= seq![t.last()] + path@.subrange(start as int, n as int));
            assert(file_name(t) == file_name(t.drop_last()).push(t.last()));
            assert(file_name(t.drop_last()).push(t.last()) + path@.subrange(start as int, n as int) =~= file_name(t.drop_last()) + path@.subrange(start as int - 1, n as int));
        }
        start = start - 1;
    }
    proof {
        let t = path@.take(start as int);
        if start > 0 {
            assert(t.last() == '/');
        }
        assert(file_name(t) =~= Seq::<char>::empty());
    }
    let name = crate::text::slice_vec(path, start, n);
    assert(file_name(path@) =~= name@);
    let m = name.len();
    let mut dot: usize = m;
    assert(name@.take(m as int) =~= name@);
    proof {
        match extension_of(name@) {
            Some(e) => {
                assert(e + name@.subrange(m as int, m as int) =~= e);
            },
            None => {},
        }
    }
    while dot > 1 && name[dot - 1] != '.'
        invariant
            dot <= m,
            m == name@.len(),
            extension_of(name@) == match extension_of(name@.take(dot as int)) {
                Some(e) => Some(e + name@.subrange(dot as int, m as int)),
                None => None,
            },
        decreases dot,
    {
        proof {
            let t = name@.take(dot as int);
            assert(t.drop_last() =~= name@.take(dot as int - 1));
            assert(name@.subrange(dot as int - 1, m as int) =~= seq![t.last()] + name@.subrange(dot as int, m as int));
            match extension_of(t.drop_last()) {
                Some(e) => {
                    assert(e.push(t.last()) + name@.subrange(dot as int, m as int) =~= e + name@.subrange(dot as int - 1, m as int));
                },
                None => {},
            }
        }
        dot = dot - 1;
    }
    if dot <= 1 {
        proof {
            assert(extension_of(name@.take(dot as int)) is None);
        }
        return None;
    }
    proof {
        let t = name@.take(dot as int);
        assert(t.last() == '.');
        assert(extension_of(t) == Some(Seq::<char>::empty()));
        assert(Seq::<char>::empty() + name@.subrange(dot as int, m as int) =~= name@.subrange(dot as int, m as int));
    }
    Some(crate::text::slice_vec(&name, dot, m))
}

/// Whether a path names a file parsed with JSX enabled.
pub fn is_tsx_path_exec(path: &str) -> (r: bool)
    ensures
        r == is_tsx_path(path@),
{
    match path_extension(&chars_of(path)) {
        Some(e) => crate::text::seq_eq(&e, &chars_of("tsx")) || crate::text::seq_eq(&e, &chars_of("jsx")),
        None => false,
    }
}

/// The byte offset of a position reported by the parser (0 before the start; offsets past
/// the range of `u32` are capped).
fn offset_of(pos: u64, start: u32) -> (r: u32)
    ensures
        pos >= start && pos - start <= u32::MAX ==> r as int == pos - start,
{
    if pos >= start as u64 {
        let d = pos - start as u64;
        if d <= u32::MAX as u64 {
            d as u32
        } else {
            u32::MAX
        }
    } else {
        0
    }
}

/// Scans a source for translation keys: parses it (JSX enabled for `.tsx` and `.jsx`
/// paths), walks its tree and, when enabled, reads its comments.
pub fn scan_source(source: &str, path: &str, cx: &ScanSettings) -> (r: SourceScan)
    requires
        cx.nesting_prefix@.len() + cx.nesting_suffix@.len() > 0,
    ensures
        key_views(r.keys@) == source_keys(*cx, source@, is_tsx_path(path@)),
        r.dynamic_templates@.len() == source_warning_count(*cx, source@, is_tsx_path(path@)),
        r.parse_error is Some <==> swc_parse(source@, is_tsx_path(path@)) is Err,
{
    let tsx = is_tsx_path_exec(path);
    let src = chars_of(source);
    match parse_script(source, tsx) {
        Err(e) => {
            let position = locate_exec(&src, offset_of(e.pos as u64, e.start));
            let keys: Vec<ExtractedKey> = Vec::new();
            assert(key_views(keys@) =~= Seq::<KeyView>::empty());
            SourceScan { keys, dynamic_templates: Vec::new(), parse_error: Some(ParseFailure { position, message: e.message }) }
        },
        Ok(p) => {
            let mut st = VisitState { keys: Vec::new(), scopes: Vec::new(), warnings: Vec::new() };
            assert(state_view(st) == initial_state()) by {
                assert(key_views(st.keys@) =~= Seq::<KeyView>::empty());
                assert(crate::scope::scopes_view(st.scopes@) =~= initial_state().scopes);
                assert(st.warnings@.map_values(|w: u64| w as int) =~= Seq::<int>::empty());
            }
            walk_exec(cx, &p.leading, &p.trailing, &mut st, &p.module);
            if cx.extract_from_comments {
                let lead = sort_entries(&p.leading);
                let trail = sort_entries(&p.trailing);
                let mut texts = flat_texts_exec(&lead);
                let mut more = flat_texts_exec(&trail);
                let ghost a = views(texts@);
                let ghost b = views(more@);
                texts.append(&mut more);
                assert(views(texts@) =~= a + b);
                push_comments_keys(&mut st.keys, cx, &texts);
            }
            let mut dynamic_templates: Vec<SourcePosition> = Vec::new();
            let mut i: usize = 0;
            while i < st.warnings.len()
                invariant
                    i <= st.warnings@.len(),
                    dynamic_templates@.len() == i,
                decreases st.warnings.len() - i,
            {
                dynamic_templates.push(locate_exec(&src, offset_of(st.warnings[i], p.start)));
                i = i + 1;
            }
            SourceScan { keys: st.keys, dynamic_templates, parse_error: None }
        },
    }
}

/// Whether plural settings are the defaults: `_` separators, `one` and `other`, no base key.
pub open spec fn is_default_plural(pc: PluralConfig) -> bool {
    &&& pc.separator@ == "_"@
    &&& views(pc.suffixes@) == seq!["one"@, "other"@]
    &&& !pc.generate_base
    &&& pc.context_separator@ == "_"@
}

/// Whether scan settings are the defaults for the given functions: `<Trans>`,
/// `useTranslation`, and `$t(key, options)` nesting.
pub open spec fn default_settings_for(cx: ScanSettings, functions: Seq<String>, comments: bool) -> bool {
    &&& cx.functions@ == functions
    &&& views(cx.trans_components@) == seq!["Trans"@]
    &&& cx.use_translation_names@.len() == 1
    &&& cx.use_translation_names@[0] matches UseTranslationName::Name(n) && n@ == "useTranslation"@
    &&& cx.extract_from_comments == comments
    &&& cx.nesting_prefix@ == "$t("@
    &&& cx.nesting_suffix@ == ")"@
    &&& cx.nesting_options_separator@ == ","@
}

/// The default scan settings: `<Trans>`, `useTranslation`, and `$t(key, options)`
/// nesting.
pub fn default_settings(functions: &[String], extract_from_comments: bool, plural_config: &PluralConfig) -> (r: ScanSettings)
    ensures
        default_settings_for(r, functions@, extract_from_comments),
        r.plural.separator@ == plural_config.separator@,
        r.plural.suffixes@ == plural_config.suffixes@,
        r.plural.generate_base == plural_config.generate_base,
        r.plural.context_separator@ == plural_config.context_separator@,
{
    let mut fs: Vec<String> = Vec::new();
    let mut i: usize = 0;
    while i < functions.len()
        invariant
            i <= functions@.len(),
            fs@ == functions@.take(i as int),
        decreases functions.len() - i,
    {
        fs.push(functions[i].clone());
        assert(fs@ =~= functions@.take(i as int + 1));
        i = i + 1;
    }
    assert(functions@.take(functions@.len() as int) =~= functions@);
    let tc = vec![owned("Trans")];
    assert(views(tc@) =~= seq!["Trans"@]);
    ScanSettings {
        functions: fs,
        trans_components: tc,
        use_translation_names: vec![UseTranslationName::Name(owned("useTranslation"))],
        extract_from_comments,
        plural: PluralConfig {
            separator: plural_config.separator.clone(),
            suffixes: crate::text::clone_strings(&plural_config.suffixes),
            generate_base: plural_config.generate_base,
            context_separator: plural_config.context_separator.clone(),
        },
        nesting_prefix: owned("$t("),
        nesting_suffix: owned(")"),
        nesting_options_separator: owned(","),
    }
}

/// Extracts translation keys from a source string, comments included, with the default
/// plural settings.
pub fn extract_from_source(source: &str, path: &str, functions: &[String]) -> (r: Result<Vec<ExtractedKey>, ExtractionError>)
    ensures
        r matches Ok(keys) && exists|cx: ScanSettings| default_settings_for(cx, functions@, true) && is_default_plural(cx.plural)
            && key_views(keys@) == #[trigger] source_keys(cx, source@, is_tsx_path(path@)),
{
    let pc = PluralConfig::default();
    let cx = default_settings(functions, true, &pc);
    proof {
        reveal_strlit("$t(");
    }
    let scan = scan_source(source, path, &cx);
    let keys = scan.keys;
    assert(default_settings_for(cx, functions@, true) && is_default_plural(cx.plural) && key_views(keys@) == source_keys(cx, source@, is_tsx_path(path@)));
    Ok(keys)
}

/// A copy of a list of strings.
fn strings_copy(v: &[String]) -> (r: Vec<String>)
    ensures
        r@ == v@,
{
    let mut out: Vec<String> = Vec::new();
    let mut i: usize = 0;
    while i < v.len()
        invariant
            i <= v@.len(),
            out@ == v@.take(i as int),
        decreases v.len() - i,
    {
        out.push(v[i].clone());
        assert(out@ =~= v@.take(i as int + 1));
        i = i + 1;
    }
    assert(v@.take(v@.len() as int) =~= v@);
    out
}

/// A copy of a list of hooks.
fn hooks_copy(v: &[UseTranslationName]) -> (r: Vec<UseTranslationName>)
    ensures
        r@.len() == v@.len(),
        forall|i: int| 0 <= i < v@.len() ==> crate::config::hook_name(#[trigger] r@[i]) == crate::config::hook_name(v@[i])
            && crate::config::hook_ns_arg(r@[i]) == crate::config::hook_ns_arg(v@[i])
            && crate::config::hook_key_prefix_arg(r@[i]) == crate::config::hook_key_prefix_arg(v@[i]),
{
    let mut out: Vec<UseTranslationName> = Vec::new();
    let mut i: usize = 0;
    while i < v.len()
        invariant
            i <= v@.len(),
            out@.len() == i,
            forall|j: int| 0 <= j < i ==> crate::config::hook_name(#[trigger] out@[j]) == crate::config::hook_name(v@[j])
                && crate::config::hook_ns_arg(out@[j]) == crate::config::hook_ns_arg(v@[j])
                && crate::config::hook_key_prefix_arg(out@[j]) == crate::config::hook_key_prefix_arg(v@[j]),
        decreases v.len() - i,
    {
        let h = match &v[i] {
            UseTranslationName::Name(n) => UseTranslationName::Name(n.clone()),
            UseTranslationName::Detailed(d) => UseTranslationName::Detailed(crate::config::UseTranslationNameDetails {
                name: d.name.clone(),
                ns_arg: d.ns_arg,
                key_prefix_arg: d.key_prefix_arg,
            }),
        };
        out.push(h);
        i = i + 1;
    }
    out
}

/// Whether scan settings are made of the given parts (hooks compared by name and argument
/// positions, the plural settings by their texts).
pub open spec fn settings_from(
    cx: ScanSettings,
    functions: Seq<String>,
    trans_components: Seq<String>,
    hooks: Seq<UseTranslationName>,
    comments: bool,
    pc: PluralConfig,
    nesting_prefix: Seq<char>,
    nesting_suffix: Seq<char>,
    nesting_options_separator: Seq<char>,
) -> bool {
    &&& cx.functions@ == functions
    &&& cx.trans_components@ == trans_components
    &&& cx.use_translation_names@.len() == hooks.len()
    &&& forall|i: int| 0 <= i < hooks.len() ==> crate::config::hook_name(#[trigger] cx.use_translation_names@[i]) == crate::config::hook_name(hooks[i])
        && crate::config::hook_ns_arg(cx.use_translation_names@[i]) == crate::config::hook_ns_arg(hooks[i])
        && crate::config::hook_key_prefix_arg(cx.use_translation_names@[i]) == crate::config::hook_key_prefix_arg(hooks[i])
    &&& cx.extract_from_comments == comments
    &&& cx.plural.separator@ == pc.separator@
    &&& cx.plural.suffixes@ == pc.suffixes@
    &&& cx.plural.generate_base == pc.generate_base
    &&& cx.plural.context_separator@ == pc.context_separator@
    &&& cx.nesting_prefix@ == nesting_prefix
    &&& cx.nesting_suffix@ == nesting_suffix
    &&& cx.nesting_options_separator@ == nesting_options_separator
}

/// Scan settings made of the given parts.
pub fn settings_exec(
    functions: &[String],
    trans_components: &[String],
    use_translation_names: &[UseTranslationName],
    extract_from_comments: bool,
    plural_config: &PluralConfig,
    nesting_prefix: &str,
    nesting_suffix: &str,
    nesting_options_separator: &str,
) -> (cx: ScanSettings)
    ensures
        settings_from(cx, functions@, trans_components@, use_translation_names@, extract_from_comments, *plural_config, nesting_prefix@, nesting_suffix@, nesting_options_separator@),
{
    ScanSettings {
        functions: strings_copy(functions),
        trans_components: strings_copy(trans_components),
        use_translation_names: hooks_copy(use_translation_names),
        extract_from_comments,
        plural: PluralConfig {
            separator: plural_config.separator.clone(),
            suffixes: crate::text::clone_strings(&plural_config.suffixes),
            generate_base: plural_config.generate_base,
            context_separator: plural_config.context_separator.clone(),
        },
        nesting_prefix: owned(nesting_prefix),
        nesting_suffix: owned(nesting_suffix),
        nesting_options_separator: owned(nesting_options_separator),
    }
}

/// Extracts translation keys from a source string, with all settings given; also counts
/// the template literals with substitutions met in key position (each one is reported
/// as a warning).
pub fn extract_from_source_with_warnings(
    source: &str,
    path: &str,
    functions: &[String],
    trans_components: &[String],
    use_translation_names: &[UseTranslationName],
    should_extract_from_comments: bool,
    plural_config: &PluralConfig,
    nesting_prefix: &str,
    nesting_suffix: &str,
    nesting_options_separator: &str,
) -> (r: Result<(Vec<ExtractedKey>, usize), ExtractionError>)
    requires
        nesting_prefix@.len() + nesting_suffix@.len() > 0,
    ensures
        r matches Ok((keys, count)) && exists|cx: ScanSettings|
            settings_from(cx, functions@, trans_components@, use_translation_names@, should_extract_from_comments, *plural_config, nesting_prefix@, nesting_suffix@, nesting_options_separator@)
            && key_views(keys@) == #[trigger] source_keys(cx, source@, is_tsx_path(path@))
            && count == source_warning_count(cx, source@, is_tsx_path(path@)),
{
    let cx = settings_exec(
        functions,
        trans_components,
        use_translation_names,
        should_extract_from_comments,
        plural_config,
        nesting_prefix,
        nesting_suffix,
        nesting_options_separator,
    );
    let scan = scan_source(source, path, &cx);
    let keys = scan.keys;
    let count = scan.dynamic_templates.len();
    assert(settings_from(cx, functions@, trans_components@, use_translation_names@, should_extract_from_comments, *plural_config, nesting_prefix@, nesting_suffix@, nesting_options_separator@)
        && key_views(keys@) == source_keys(cx, source@, is_tsx_path(path@))
        && count == source_warning_count(cx, source@, is_tsx_path(path@)));
    Ok((keys, count))
}

/// Extracts translation keys from a source string with the given comment and plural
/// settings.
pub fn extract_from_source_with_options(
    source: &str,
    path: &str,
    functions: &[String],
    extract_from_comments: bool,
    plural_config: &PluralConfig,
) -> (r: Result<Vec<ExtractedKey>, ExtractionError>)
    ensures
        r matches Ok(keys) && exists|cx: ScanSettings|
            default_settings_for(cx, functions@, extract_from_comments)
            && cx.plural.separator@ == plural_config.separator@ && cx.plural.suffixes@ == plural_config.suffixes@
            && cx.plural.generate_base == plural_config.generate_base
            && cx.plural.context_separator@ == plural_config.context_separator@
            && key_views(keys@) == #[trigger] source_keys(cx, source@, is_tsx_path(path@)),
{
    let cx = default_settings(functions, extract_from_comments, plural_config);
    proof {
        reveal_strlit("$t(");
    }
    let scan = scan_source(source, path, &cx);
    let keys = scan.keys;
    assert(default_settings_for(cx, functions@, extract_from_comments)
        && cx.plural.separator@ == plural_config.separator@ && cx.plural.suffixes@ == plural_config.suffixes@
        && cx.plural.generate_base == plural_config.generate_base
        && cx.plural.context_separator@ == plural_config.context_separator@
        && key_views(keys@) == source_keys(cx, source@, is_tsx_path(path@)));
    Ok(keys)
}

} // verus!

verus! {

/// Extracts translation keys from a file's contents, read by the strategy its path calls
/// for (Vue and Svelte components, scripts otherwise), comments included.
pub fn extract_from_file(path: &str, source: &str, functions: &[String], plural_config: &PluralConfig) -> (r: Result<Vec<ExtractedKey>, ExtractionError>)
    ensures
        r matches Ok(keys) && exists|cx: ScanSettings, tpl: ScanSettings|
            default_settings_for(cx, functions@, true)
            && cx.plural.separator@ == plural_config.separator@ && cx.plural.suffixes@ == plural_config.suffixes@
            && cx.plural.generate_base == plural_config.generate_base
            && cx.plural.context_separator@ == plural_config.context_separator@
            && crate::components::template_settings(cx, tpl)
            && key_views(keys@) == #[trigger] crate::components::file_result(cx, tpl, path@, source@).0,
{
    extract_from_file_with_options(path, source, functions, true, plural_config)
}

/// Extracts translation keys from a file's contents with the given comment and plural
/// settings.
pub fn extract_from_file_with_options(
    path: &str,
    source: &str,
    functions: &[String],
    extract_from_comments: bool,
    plural_config: &PluralConfig,
) -> (r: Result<Vec<ExtractedKey>, ExtractionError>)
    ensures
        r matches Ok(keys) && exists|cx: ScanSettings, tpl: ScanSettings|
            default_settings_for(cx, functions@, extract_from_comments)
            && cx.plural.separator@ == plural_config.separator@ && cx.plural.suffixes@ == plural_config.suffixes@
            && cx.plural.generate_base == plural_config.generate_base
            && cx.plural.context_separator@ == plural_config.context_separator@
            && crate::components::template_settings(cx, tpl)
            && key_views(keys@) == #[trigger] crate::components::file_result(cx, tpl, path@, source@).0,
{
    let cx = default_settings(functions, extract_from_comments, plural_config);
    proof {
        reveal_strlit("$t(");
    }
    let found = crate::components::scan_file(path, source, &cx);
    proof {
        let tpl = choose|tpl: ScanSettings| crate::components::template_settings(cx, tpl)
            && crate::components::gathered(found.0@, found.1@) == #[trigger] crate::components::file_result(cx, tpl, path@, source@);
        assert(key_views(found.0@) == crate::components::file_result(cx, tpl, path@, source@).0);
    }
    Ok(found.0)
}

} // verus!
