//! Vue and Svelte single-file components: their script blocks are scanned as scripts, and
//! each translation call in their markup is scanned as a small script of its own.
use crate::comments::all_matches;
use crate::extractor::{is_tsx_path, path_extension, scan_source, source_keys, source_warning_count, utf8_width};
use crate::keys::{key_views, ExtractedKey, KeyView, ScanSettings};
use crate::patterns::{all_groups_fit, group_at, group_exec, match_view, matches_view, regex_captures_all, regex_matches};
use crate::template::{calls_from, translation_calls};
use crate::text::{append_chars, chars_of, concat2, concat3, cviews, owned, string_of, strings_contain, views};
use vstd::prelude::*;

verus! {

/// The decimal digit `d` (`0` to `9`).
pub open spec fn digit_char(d: nat) -> char {
    if d == 0 {
        '0'
    } else if d == 1 {
        '1'
    } else if d == 2 {
        '2'
    } else if d == 3 {
        '3'
    } else if d == 4 {
        '4'
    } else if d == 5 {
        '5'
    } else if d == 6 {
        '6'
    } else if d == 7 {
        '7'
    } else if d == 8 {
        '8'
    } else {
        '9'
    }
}

/// A number written in decimal.
pub open spec fn decimal(n: nat) -> Seq<char>
    decreases n,
{
    if n < 10 {
        seq![digit_char(n)]
    } else {
        decimal(n / 10).push(digit_char(n % 10))
    }
}

/// A number written in decimal.
pub fn decimal_exec(n: usize) -> (r: Vec<char>)
    ensures
        r@ == decimal(n as nat),
    decreases n,
{
    let d = n % 10;
    let c = if d == 0 {
        '0'
    } else if d == 1 {
        '1'
    } else if d == 2 {
        '2'
    } else if d == 3 {
        '3'
    } else if d == 4 {
        '4'
    } else if d == 5 {
        '5'
    } else if d == 6 {
        '6'
    } else if d == 7 {
        '7'
    } else if d == 8 {
        '8'
    } else {
        '9'
    };
    if n < 10 {
        let v = vec![c];
        assert(v@ =~= seq![digit_char(n as nat)]);
        v
    } else {
        let mut v = decimal_exec(n / 10);
        v.push(c);
        v
    }
}

/// `<script ...>...</script>`, the inner text captured.
pub open spec fn script_pattern() -> Seq<char> {
    "(?is)<script\\b[^>]*>(.*?)</script>"@
}

/// `<template ...>...</template>`, the inner text captured.
pub open spec fn template_pattern() -> Seq<char> {
    "(?is)<template\\b[^>]*>(.*?)</template>"@
}

/// `<style ...>...</style>`.
pub open spec fn style_pattern() -> Seq<char> {
    "(?is)<style\\b[^>]*>.*?</style>"@
}

/// The contents of the blocks a tag pattern matched: the captured inner text, else the
/// whole match.
pub open spec fn block_contents(ms: Seq<Seq<Option<(Seq<char>, Seq<char>)>>>) -> Seq<Seq<char>>
    decreases ms.len(),
{
    if ms.len() == 0 {
        Seq::empty()
    } else {
        let rest = block_contents(ms.drop_last());
        match group_at(ms.last(), 0) {
            Some((full, _)) => rest.push(match group_at(ms.last(), 1) {
                Some((inner, _)) => inner,
                None => full,
            }),
            None => rest,
        }
    }
}

/// Where the whole matches lie, as character ranges of a text of `total` characters (a
/// match starts where the rest of the text from it begins).
pub open spec fn block_ranges(total: int, ms: Seq<Seq<Option<(Seq<char>, Seq<char>)>>>) -> Seq<(int, int)>
    decreases ms.len(),
{
    if ms.len() == 0 {
        Seq::empty()
    } else {
        let rest = block_ranges(total, ms.drop_last());
        match group_at(ms.last(), 0) {
            Some((full, tail)) => rest.push((total - tail.len(), total - tail.len() + full.len())),
            None => rest,
        }
    }
}

/// Whether a position lies in one of the ranges.
pub open spec fn in_ranges(rs: Seq<(int, int)>, i: int) -> bool {
    exists|k: int| 0 <= k < rs.len() && rs[k].0 <= i < #[trigger] rs[k].1
}

/// `n` spaces.
pub open spec fn spaces(n: int) -> Seq<char> {
    Seq::new(if n < 0 {
        0
    } else {
        n as nat
    }, |i: int| ' ')
}

/// The text from `i` on with every character inside the ranges replaced by as many spaces
/// as it has bytes (the byte offsets of the rest are kept).
pub open spec fn blank_from(s: Seq<char>, rs: Seq<(int, int)>, i: int) -> Seq<char>
    decreases s.len() - i,
{
    if i < 0 || i >= s.len() {
        Seq::empty()
    } else {
        (if in_ranges(rs, i) {
            spaces(utf8_width(s[i]))
        } else {
            seq![s[i]]
        }) + blank_from(s, rs, i + 1)
    }
}

/// The names a template may call: the configured functions and `$t`.
pub open spec fn template_names(functions: Seq<Seq<char>>) -> Seq<Seq<char>> {
    if functions.contains("$t"@) {
        functions
    } else {
        functions.push("$t"@)
    }
}

/// Whether `tpl` is `cx` with the template names as functions and comments not read.
pub open spec fn template_settings(cx: ScanSettings, tpl: ScanSettings) -> bool {
    &&& views(tpl.functions@) == template_names(views(cx.functions@))
    &&& !tpl.extract_from_comments
    &&& tpl.trans_components@ == cx.trans_components@
    &&& tpl.use_translation_names@ == cx.use_translation_names@
    &&& tpl.plural.separator@ == cx.plural.separator@
    &&& tpl.plural.suffixes@ == cx.plural.suffixes@
    &&& tpl.plural.generate_base == cx.plural.generate_base
    &&& tpl.plural.context_separator@ == cx.plural.context_separator@
    &&& tpl.nesting_prefix@ == cx.nesting_prefix@
    &&& tpl.nesting_suffix@ == cx.nesting_suffix@
    &&& tpl.nesting_options_separator@ == cx.nesting_options_separator@
}

/// The keys and the warning count of a source.
pub open spec fn source_result(cx: ScanSettings, source: Seq<char>, path: Seq<char>) -> (Seq<KeyView>, nat) {
    (source_keys(cx, source, is_tsx_path(path)), source_warning_count(cx, source, is_tsx_path(path)))
}

/// Keys and warnings added up.
pub open spec fn add_results(a: (Seq<KeyView>, nat), b: (Seq<KeyView>, nat)) -> (Seq<KeyView>, nat) {
    (a.0 + b.0, a.1 + b.1)
}

/// The first `n` script blocks of a component, each scanned as a script at
/// `path#script<k>`.
pub open spec fn scripts_result(cx: ScanSettings, path: Seq<char>, blocks: Seq<Seq<char>>, n: int) -> (Seq<KeyView>, nat)
    decreases n,
{
    if n <= 0 || n > blocks.len() {
        (Seq::empty(), 0)
    } else {
        add_results(
            scripts_result(cx, path, blocks, n - 1),
            source_result(cx, blocks[n - 1], path + "#script"@ + decimal(n as nat)),
        )
    }
}

/// The script standing for the `k`-th call of a Vue template.
pub open spec fn vue_call_source(k: nat, call: Seq<char>) -> Seq<char> {
    "function __i18n_tpl_"@ + decimal(k) + "() { return "@ + call + "; }"@
}

/// The script standing for the `k`-th call of a Svelte template.
pub open spec fn svelte_call_source(k: nat, call: Seq<char>) -> Seq<char> {
    "function __svelte_tpl_"@ + decimal(k) + "() { return "@ + call + "; }"@
}

/// The first `n` calls of the `b`-th Vue template block.
pub open spec fn vue_calls_result(tpl: ScanSettings, path: Seq<char>, b: nat, calls: Seq<Seq<char>>, n: int) -> (Seq<KeyView>, nat)
    decreases n,
{
    if n <= 0 || n > calls.len() {
        (Seq::empty(), 0)
    } else {
        add_results(
            vue_calls_result(tpl, path, b, calls, n - 1),
            source_result(
                tpl,
                vue_call_source(n as nat, calls[n - 1]),
                path + "#template"@ + decimal(b) + ":"@ + decimal(n as nat),
            ),
        )
    }
}

/// The first `n` template blocks of a Vue component.
pub open spec fn vue_templates_result(tpl: ScanSettings, path: Seq<char>, blocks: Seq<Seq<char>>, n: int) -> (Seq<KeyView>, nat)
    decreases n,
{
    if n <= 0 || n > blocks.len() {
        (Seq::empty(), 0)
    } else {
        let calls = calls_from(blocks[n - 1], views(tpl.functions@), 0);
        add_results(
            vue_templates_result(tpl, path, blocks, n - 1),
            vue_calls_result(tpl, path, n as nat, calls, calls.len() as int),
        )
    }
}

/// The keys and warnings of a Vue component: its script blocks, then the calls in its
/// template blocks; the whole file as a script when it has neither.
pub open spec fn vue_result(cx: ScanSettings, tpl: ScanSettings, path: Seq<char>, source: Seq<char>) -> (Seq<KeyView>, nat) {
    let scripts = block_contents(all_matches(regex_matches(script_pattern(), source)));
    let templates = block_contents(all_matches(regex_matches(template_pattern(), source)));
    if scripts.len() == 0 && templates.len() == 0 {
        source_result(cx, source, path)
    } else {
        add_results(
            scripts_result(cx, path, scripts, scripts.len() as int),
            vue_templates_result(tpl, path, templates, templates.len() as int),
        )
    }
}

/// The first `n` calls of a Svelte component's markup.
pub open spec fn svelte_calls_result(tpl: ScanSettings, path: Seq<char>, calls: Seq<Seq<char>>, n: int) -> (Seq<KeyView>, nat)
    decreases n,
{
    if n <= 0 || n > calls.len() {
        (Seq::empty(), 0)
    } else {
        add_results(
            svelte_calls_result(tpl, path, calls, n - 1),
            source_result(tpl, svelte_call_source(n as nat, calls[n - 1]), path + "#template:"@ + decimal(n as nat)),
        )
    }
}

/// The markup of a Svelte component: the source with its script and style blocks blanked.
pub open spec fn svelte_markup(source: Seq<char>) -> Seq<char> {
    let rs = block_ranges(source.len() as int, all_matches(regex_matches(script_pattern(), source)))
        + block_ranges(source.len() as int, all_matches(regex_matches(style_pattern(), source)));
    blank_from(source, rs, 0)
}

/// The keys and warnings of a Svelte component: its script blocks, then the calls in its
/// markup; the whole file as a script when it has neither.
pub open spec fn svelte_result(cx: ScanSettings, tpl: ScanSettings, path: Seq<char>, source: Seq<char>) -> (Seq<KeyView>, nat) {
    let scripts = block_contents(all_matches(regex_matches(script_pattern(), source)));
    let calls = calls_from(svelte_markup(source), views(tpl.functions@), 0);
    if scripts.len() == 0 && calls.len() == 0 {
        source_result(cx, source, path)
    } else {
        add_results(scripts_result(cx, path, scripts, scripts.len() as int), svelte_calls_result(tpl, path, calls, calls.len() as int))
    }
}

/// How a file is read, by its extension (compared ignoring ASCII case).
#[derive(Debug, Clone, Copy, PartialEq, Eq, Structural)]
pub enum ExtractorStrategy {
    JavaScript,
    Vue,
    Svelte,
}

/// A text with ASCII letters lower-cased.
pub open spec fn ascii_lower(s: Seq<char>) -> Seq<char> {
    s.map_values(|c: char| if 'A' <= c <= 'Z' {
        ((c as u32) + 32) as char
    } else {
        c
    })
}

/// The strategy for a path.
pub open spec fn strategy_for(path: Seq<char>) -> ExtractorStrategy {
    match crate::extractor::extension_of(crate::extractor::file_name(path)) {
        Some(e) => if ascii_lower(e) == "vue"@ {
            ExtractorStrategy::Vue
        } else if ascii_lower(e) == "svelte"@ {
            ExtractorStrategy::Svelte
        } else {
            ExtractorStrategy::JavaScript
        },
        None => ExtractorStrategy::JavaScript,
    }
}

/// The keys and warnings of a file's contents, read by the strategy of its path.
pub open spec fn file_result(cx: ScanSettings, tpl: ScanSettings, path: Seq<char>, source: Seq<char>) -> (Seq<KeyView>, nat) {
    match strategy_for(path) {
        ExtractorStrategy::Vue => vue_result(cx, tpl, path, source),
        ExtractorStrategy::Svelte => svelte_result(cx, tpl, path, source),
        ExtractorStrategy::JavaScript => source_result(cx, source, path),
    }
}

/// A text with ASCII letters lower-cased.
pub fn ascii_lower_exec(s: &[char]) -> (r: Vec<char>)
    ensures
        r@ == ascii_lower(s@),
{
    let mut out: Vec<char> = Vec::new();
    let mut i: usize = 0;
    while i < s.len()
        invariant
            i <= s@.len(),
            out@ == ascii_lower(s@).take(i as int),
        decreases s.len() - i,
    {
        let c = s[i];
        let l = if 'A' <= c && c <= 'Z' {
            ((c as u8) + 32) as char
        } else {
            c
        };
        out.push(l);
        assert(out@ =~= ascii_lower(s@).take(i as int + 1));
        i = i + 1;
    }
    assert(ascii_lower(s@).take(s@.len() as int) =~= ascii_lower(s@));
    out
}

impl ExtractorStrategy {
    /// The strategy for a path: `.vue` and `.svelte` files are components, the rest scripts.
    pub fn from_path(path: &str) -> (r: ExtractorStrategy)
        ensures
            r == strategy_for(path@),
    {
        match path_extension(&chars_of(path)) {
            Some(e) => {
                let l = ascii_lower_exec(&e);
                if crate::text::seq_eq(&l, &chars_of("vue")) {
                    ExtractorStrategy::Vue
                } else if crate::text::seq_eq(&l, &chars_of("svelte")) {
                    ExtractorStrategy::Svelte
                } else {
                    ExtractorStrategy::JavaScript
                }
            },
            None => ExtractorStrategy::JavaScript,
        }
    }
}

} // verus!

verus! {

/// The contents of the blocks a tag pattern matched (see [`block_contents`]).
fn block_contents_exec(ms: &Vec<Vec<Option<(String, String)>>>) -> (r: Vec<String>)
    ensures
        views(r@) == block_contents(matches_view(ms@)),
{
    let ghost mv = matches_view(ms@);
    let mut out: Vec<String> = Vec::new();
    let mut i: usize = 0;
    while i < ms.len()
        invariant
            i <= ms@.len(),
            mv == matches_view(ms@),
            views(out@) == block_contents(mv.take(i as int)),
        decreases ms.len() - i,
    {
        let m = &ms[i];
        proof {
            assert(mv[i as int] == match_view(*m));
            assert(mv.take(i as int + 1).drop_last() =~= mv.take(i as int));
            assert(mv.take(i as int + 1).last() == mv[i as int]);
        }
        match group_exec(m, 0) {
            Some((full, _)) => {
                let c = match group_exec(m, 1) {
                    Some((inner, _)) => inner.clone(),
                    None => full.clone(),
                };
                let ghost prev = views(out@);
                out.push(c);
                assert(views(out@) =~= prev.push(c@));
            },
            None => {},
        }
        i = i + 1;
    }
    assert(mv.take(mv.len() as int) =~= mv);
    out
}

/// The character ranges of a list of ranges.
pub open spec fn ranges_view(r: Seq<(usize, usize)>) -> Seq<(int, int)> {
    r.map_values(|x: (usize, usize)| (x.0 as int, x.1 as int))
}

/// Where the whole matches lie (see [`block_ranges`]).
fn block_ranges_exec(text: &str, ms: &Vec<Vec<Option<(String, String)>>>) -> (r: Vec<(usize, usize)>)
    requires
        all_groups_fit(text@, matches_view(ms@)),
    ensures
        ranges_view(r@) == block_ranges(text@.len() as int, matches_view(ms@)),
{
    let ghost mv = matches_view(ms@);
    let total = chars_of(text).len();
    let mut out: Vec<(usize, usize)> = Vec::new();
    let mut i: usize = 0;
    while i < ms.len()
        invariant
            i <= ms@.len(),
            mv == matches_view(ms@),
            total == text@.len(),
            all_groups_fit(text@, mv),
            ranges_view(out@) == block_ranges(total as int, mv.take(i as int)),
        decreases ms.len() - i,
    {
        let m = &ms[i];
        proof {
            assert(mv[i as int] == match_view(*m));
            assert(mv.take(i as int + 1).drop_last() =~= mv.take(i as int));
            assert(mv.take(i as int + 1).last() == mv[i as int]);
        }
        match group_exec(m, 0) {
            Some((full, tail)) => {
                proof {
                    assert(crate::patterns::group_fits(text@, mv[i as int][0]));
                }
                let fl = chars_of(full.as_str()).len();
                let tl = chars_of(tail.as_str()).len();
                let start = total - tl;
                let end = start + fl;
                let ghost prev = ranges_view(out@);
                out.push((start, end));
                assert(ranges_view(out@) =~= prev.push((start as int, end as int)));
            },
            None => {},
        }
        i = i + 1;
    }
    assert(mv.take(mv.len() as int) =~= mv);
    out
}

/// Whether a position lies in one of the ranges.
fn in_ranges_exec(rs: &Vec<(usize, usize)>, i: usize) -> (r: bool)
    ensures
        r == in_ranges(ranges_view(rs@), i as int),
{
    let ghost rv = ranges_view(rs@);
    let mut k: usize = 0;
    while k < rs.len()
        invariant
            k <= rs@.len(),
            rv == ranges_view(rs@),
            forall|q: int| 0 <= q < k ==> !(rv[q].0 <= i < #[trigger] rv[q].1),
        decreases rs.len() - k,
    {
        assert(rv[k as int] == (rs@[k as int].0 as int, rs@[k as int].1 as int));
        if rs[k].0 <= i && i < rs[k].1 {
            return true;
        }
        k = k + 1;
    }
    false
}

/// The text with every character inside the ranges replaced by as many spaces as it has
/// bytes (see [`blank_from`]).
fn blank_exec(s: &[char], rs: &Vec<(usize, usize)>) -> (r: Vec<char>)
    ensures
        r@ == blank_from(s@, ranges_view(rs@), 0),
{
    let n = s.len();
    let mut out: Vec<char> = Vec::new();
    let mut i: usize = n;
    assert(blank_from(s@, ranges_view(rs@), n as int) =~= Seq::<char>::empty());
    while i > 0
        invariant
            i <= n,
            n == s@.len(),
            out@ == blank_from(s@, ranges_view(rs@), i as int),
        decreases i,
    {
        let j = i - 1;
        let c = s[j];
        let mut piece: Vec<char> = Vec::new();
        if in_ranges_exec(rs, j) {
            let w: usize = if (c as u32) < 0x80 {
                1
            } else if (c as u32) < 0x800 {
                2
            } else if (c as u32) < 0x10000 {
                3
            } else {
                4
            };
            let mut k: usize = 0;
            while k < w
                invariant
                    k <= w,
                    piece@ == spaces(k as int),
                decreases w - k,
            {
                piece.push(' ');
                assert(piece@ =~= spaces(k as int + 1));
                k = k + 1;
            }
            assert(w as int == utf8_width(c));
        } else {
            piece.push(c);
        }
        append_chars(&mut piece, &out);
        out = piece;
        i = j;
    }
    out
}

/// The names a template may call (see [`template_names`]).
fn template_functions(functions: &Vec<String>) -> (r: Vec<String>)
    ensures
        views(r@) == template_names(views(functions@)),
{
    let mut names = crate::text::clone_strings(functions);
    if !strings_contain(&names, &chars_of("$t")) {
        let ghost prev = views(names@);
        names.push(owned("$t"));
        assert(views(names@) =~= prev.push("$t"@));
    }
    names
}

/// `cx` with the template names as functions and comments not read.
pub fn template_settings_exec(cx: &ScanSettings) -> (tpl: ScanSettings)
    ensures
        template_settings(*cx, tpl),
        tpl.nesting_prefix@.len() + tpl.nesting_suffix@.len() == cx.nesting_prefix@.len() + cx.nesting_suffix@.len(),
{
    let tc = crate::text::clone_strings(&cx.trans_components);
    let mut hooks: Vec<crate::config::UseTranslationName> = Vec::new();
    let mut i: usize = 0;
    while i < cx.use_translation_names.len()
        invariant
            i <= cx.use_translation_names@.len(),
            hooks@ == cx.use_translation_names@.take(i as int),
        decreases cx.use_translation_names.len() - i,
    {
        let h = match &cx.use_translation_names[i] {
            crate::config::UseTranslationName::Name(n) => crate::config::UseTranslationName::Name(n.clone()),
            crate::config::UseTranslationName::Detailed(d) => crate::config::UseTranslationName::Detailed(
                crate::config::UseTranslationNameDetails { name: d.name.clone(), ns_arg: d.ns_arg, key_prefix_arg: d.key_prefix_arg },
            ),
        };
        hooks.push(h);
        assert(hooks@ =~= cx.use_translation_names@.take(i as int + 1));
        i = i + 1;
    }
    assert(cx.use_translation_names@.take(cx.use_translation_names@.len() as int) =~= cx.use_translation_names@);
    ScanSettings {
        functions: template_functions(&cx.functions),
        trans_components: tc,
        use_translation_names: hooks,
        extract_from_comments: false,
        plural: crate::config::PluralConfig {
            separator: cx.plural.separator.clone(),
            suffixes: crate::text::clone_strings(&cx.plural.suffixes),
            generate_base: cx.plural.generate_base,
            context_separator: cx.plural.context_separator.clone(),
        },
        nesting_prefix: cx.nesting_prefix.clone(),
        nesting_suffix: cx.nesting_suffix.clone(),
        nesting_options_separator: cx.nesting_options_separator.clone(),
    }
}

} // verus!

verus! {

/// The keys and warnings gathered so far.
pub open spec fn gathered(keys: Seq<ExtractedKey>, warnings: Seq<crate::extractor::SourcePosition>) -> (Seq<KeyView>, nat) {
    (key_views(keys), warnings.len())
}

/// Scans one source and adds what it gives.
fn gather_source(
    cx: &ScanSettings,
    source: &[char],
    path: &[char],
    keys: &mut Vec<ExtractedKey>,
    warnings: &mut Vec<crate::extractor::SourcePosition>,
)
    requires
        cx.nesting_prefix@.len() + cx.nesting_suffix@.len() > 0,
    ensures
        gathered(final(keys)@, final(warnings)@) == add_results(gathered(old(keys)@, old(warnings)@), source_result(*cx, source@, path@)),
{
    let src = string_of(source);
    let p = string_of(path);
    let mut scan = scan_source(src.as_str(), p.as_str(), cx);
    let ghost k0 = key_views(keys@);
    let ghost w0 = warnings@.len();
    keys.append(&mut scan.keys);
    warnings.append(&mut scan.dynamic_templates);
    assert(key_views(keys@) =~= k0 + source_result(*cx, source@, path@).0);
}

/// The script blocks of a component (see [`scripts_result`]).
fn gather_scripts(
    cx: &ScanSettings,
    path: &[char],
    blocks: &Vec<String>,
    keys: &mut Vec<ExtractedKey>,
    warnings: &mut Vec<crate::extractor::SourcePosition>,
)
    requires
        cx.nesting_prefix@.len() + cx.nesting_suffix@.len() > 0,
    ensures
        gathered(final(keys)@, final(warnings)@) == add_results(
            gathered(old(keys)@, old(warnings)@),
            scripts_result(*cx, path@, views(blocks@), blocks@.len() as int),
        ),
{
    let ghost start = gathered(keys@, warnings@);
    let ghost bv = views(blocks@);
    let mut i: usize = 0;
    while i < blocks.len()
        invariant
            i <= blocks@.len(),
            bv == views(blocks@),
            cx.nesting_prefix@.len() + cx.nesting_suffix@.len() > 0,
            gathered(keys@, warnings@) == add_results(start, scripts_result(*cx, path@, bv, i as int)),
        decreases blocks.len() - i,
    {
        let mut vp = concat2(path, &chars_of("#script"));
        append_chars(&mut vp, &decimal_exec(i + 1));
        assert(bv[i as int] == blocks@[i as int]@);
        gather_source(cx, &chars_of(blocks[i].as_str()), &vp, keys, warnings);
        proof {
            let a = scripts_result(*cx, path@, bv, i as int);
            let b = source_result(*cx, bv[i as int], path@ + "#script"@ + decimal((i + 1) as nat));
            assert(add_results(add_results(start, a), b).0 =~= add_results(start, add_results(a, b)).0);
        }
        i = i + 1;
    }
}

/// The script standing for the `k`-th call of a template, with the given function name
/// stem.
fn call_source(stem: &str, k: usize, call: &[char]) -> (r: Vec<char>)
    ensures
        r@ == stem@ + decimal(k as nat) + "() { return "@ + call@ + "; }"@,
{
    let mut s = concat2(&chars_of(stem), &decimal_exec(k));
    append_chars(&mut s, &chars_of("() { return "));
    append_chars(&mut s, call);
    append_chars(&mut s, &chars_of("; }"));
    s
}

/// The calls of the `b`-th template block of a Vue component (see [`vue_calls_result`]).
fn gather_vue_calls(
    tpl: &ScanSettings,
    path: &[char],
    b: usize,
    calls: &Vec<Vec<char>>,
    keys: &mut Vec<ExtractedKey>,
    warnings: &mut Vec<crate::extractor::SourcePosition>,
)
    requires
        tpl.nesting_prefix@.len() + tpl.nesting_suffix@.len() > 0,
    ensures
        gathered(final(keys)@, final(warnings)@) == add_results(
            gathered(old(keys)@, old(warnings)@),
            vue_calls_result(*tpl, path@, b as nat, cviews(calls@), calls@.len() as int),
        ),
{
    let ghost start = gathered(keys@, warnings@);
    let ghost cv = cviews(calls@);
    let mut i: usize = 0;
    while i < calls.len()
        invariant
            i <= calls@.len(),
            cv == cviews(calls@),
            tpl.nesting_prefix@.len() + tpl.nesting_suffix@.len() > 0,
            gathered(keys@, warnings@) == add_results(start, vue_calls_result(*tpl, path@, b as nat, cv, i as int)),
        decreases calls.len() - i,
    {
        let src = call_source("function __i18n_tpl_", i + 1, &calls[i]);
        let mut vp = concat3(path, &chars_of("#template"), &decimal_exec(b));
        append_chars(&mut vp, &chars_of(":"));
        append_chars(&mut vp, &decimal_exec(i + 1));
        assert(cv[i as int] == calls@[i as int]@);
        gather_source(tpl, &src, &vp, keys, warnings);
        proof {
            let a = vue_calls_result(*tpl, path@, b as nat, cv, i as int);
            let c = source_result(*tpl, vue_call_source((i + 1) as nat, cv[i as int]), path@ + "#template"@ + decimal(b as nat) + ":"@ + decimal((i + 1) as nat));
            assert(src@ =~= vue_call_source((i + 1) as nat, cv[i as int]));
            assert(vp@ =~= path@ + "#template"@ + decimal(b as nat) + ":"@ + decimal((i + 1) as nat));
            assert(add_results(add_results(start, a), c).0 =~= add_results(start, add_results(a, c)).0);
        }
        i = i + 1;
    }
}

/// The keys and warnings of a Vue component (see [`vue_result`]).
pub fn extract_vue_component(
    cx: &ScanSettings,
    tpl: &ScanSettings,
    path: &str,
    source: &str,
) -> (r: (Vec<ExtractedKey>, Vec<crate::extractor::SourcePosition>))
    requires
        cx.nesting_prefix@.len() + cx.nesting_suffix@.len() > 0,
        template_settings(*cx, *tpl),
        tpl.nesting_prefix@.len() + tpl.nesting_suffix@.len() > 0,
    ensures
        gathered(r.0@, r.1@) == vue_result(*cx, *tpl, path@, source@),
{
    let mut keys: Vec<ExtractedKey> = Vec::new();
    let mut warnings: Vec<crate::extractor::SourcePosition> = Vec::new();
    let pc = chars_of(path);
    let sm = match regex_captures_all("(?is)<script\\b[^>]*>(.*?)</script>", source) {
        Some(v) => v,
        None => Vec::new(),
    };
    let tm = match regex_captures_all("(?is)<template\\b[^>]*>(.*?)</template>", source) {
        Some(v) => v,
        None => Vec::new(),
    };
    assert(matches_view(sm@) == all_matches(regex_matches(script_pattern(), source@)));
    assert(matches_view(tm@) == all_matches(regex_matches(template_pattern(), source@)));
    let scripts = block_contents_exec(&sm);
    let templates = block_contents_exec(&tm);
    if scripts.len() == 0 && templates.len() == 0 {
        gather_source(cx, &chars_of(source), &pc, &mut keys, &mut warnings);
        assert(key_views(keys@) =~= source_result(*cx, source@, path@).0);
        return (keys, warnings);
    }
    gather_scripts(cx, &pc, &scripts, &mut keys, &mut warnings);
    let ghost mid = gathered(keys@, warnings@);
    let ghost tv = views(templates@);
    let mut b: usize = 0;
    while b < templates.len()
        invariant
            b <= templates@.len(),
            tv == views(templates@),
            pc@ == path@,
            tpl.nesting_prefix@.len() + tpl.nesting_suffix@.len() > 0,
            gathered(keys@, warnings@) == add_results(mid, vue_templates_result(*tpl, path@, tv, b as int)),
        decreases templates.len() - b,
    {
        let names = cstrings(&tpl.functions);
        let calls = translation_calls(&chars_of(templates[b].as_str()), &names);
        assert(tv[b as int] == templates@[b as int]@);
        gather_vue_calls(tpl, &pc, b + 1, &calls, &mut keys, &mut warnings);
        proof {
            let cs = calls_from(tv[b as int], views(tpl.functions@), 0);
            let a = vue_templates_result(*tpl, path@, tv, b as int);
            let c = vue_calls_result(*tpl, path@, (b + 1) as nat, cs, cs.len() as int);
            assert(add_results(add_results(mid, a), c).0 =~= add_results(mid, add_results(a, c)).0);
        }
        b = b + 1;
    }
    proof {
        let s0 = gathered(Seq::empty(), Seq::empty());
        assert(key_views(Seq::<ExtractedKey>::empty()) =~= Seq::<KeyView>::empty());
        let sr = scripts_result(*cx, path@, views(scripts@), scripts@.len() as int);
        let tr = vue_templates_result(*tpl, path@, tv, tv.len() as int);
        assert(add_results(add_results(s0, sr), tr).0 =~= add_results(sr, tr).0);
    }
    (keys, warnings)
}

/// The characters of a list of strings.
fn cstrings(v: &Vec<String>) -> (r: Vec<Vec<char>>)
    ensures
        cviews(r@) == views(v@),
{
    let mut out: Vec<Vec<char>> = Vec::new();
    let mut i: usize = 0;
    while i < v.len()
        invariant
            i <= v@.len(),
            cviews(out@) == views(v@).take(i as int),
        decreases v.len() - i,
    {
        let ghost prev = cviews(out@);
        let c = chars_of(v[i].as_str());
        out.push(c);
        assert(cviews(out@) =~= prev.push(c@));
        assert(views(v@).take(i as int + 1) =~= views(v@).take(i as int).push(v@[i as int]@));
        i = i + 1;
    }
    assert(views(v@).take(v@.len() as int) =~= views(v@));
    out
}

} // verus!

verus! {

/// The calls of a Svelte component's markup (see [`svelte_calls_result`]).
fn gather_svelte_calls(
    tpl: &ScanSettings,
    path: &[char],
    calls: &Vec<Vec<char>>,
    keys: &mut Vec<ExtractedKey>,
    warnings: &mut Vec<crate::extractor::SourcePosition>,
)
    requires
        tpl.nesting_prefix@.len() + tpl.nesting_suffix@.len() > 0,
    ensures
        gathered(final(keys)@, final(warnings)@) == add_results(
            gathered(old(keys)@, old(warnings)@),
            svelte_calls_result(*tpl, path@, cviews(calls@), calls@.len() as int),
        ),
{
    let ghost start = gathered(keys@, warnings@);
    let ghost cv = cviews(calls@);
    let mut i: usize = 0;
    while i < calls.len()
        invariant
            i <= calls@.len(),
            cv == cviews(calls@),
            tpl.nesting_prefix@.len() + tpl.nesting_suffix@.len() > 0,
            gathered(keys@, warnings@) == add_results(start, svelte_calls_result(*tpl, path@, cv, i as int)),
        decreases calls.len() - i,
    {
        let src = call_source("function __svelte_tpl_", i + 1, &calls[i]);
        let mut vp = concat2(path, &chars_of("#template:"));
        append_chars(&mut vp, &decimal_exec(i + 1));
        assert(cv[i as int] == calls@[i as int]@);
        gather_source(tpl, &src, &vp, keys, warnings);
        proof {
            let a = svelte_calls_result(*tpl, path@, cv, i as int);
            let c = source_result(*tpl, svelte_call_source((i + 1) as nat, cv[i as int]), path@ + "#template:"@ + decimal((i + 1) as nat));
            assert(src@ =~= svelte_call_source((i + 1) as nat, cv[i as int]));
            assert(vp@ =~= path@ + "#template:"@ + decimal((i + 1) as nat));
            assert(add_results(add_results(start, a), c).0 =~= add_results(start, add_results(a, c)).0);
        }
        i = i + 1;
    }
}

/// The matches of a pattern (none when it does not compile), each group a slice of the
/// text.
fn matches_of(pattern: &str, text: &str) -> (r: Vec<Vec<Option<(String, String)>>>)
    ensures
        matches_view(r@) == all_matches(regex_matches(pattern@, text@)),
        all_groups_fit(text@, matches_view(r@)),
{
    match regex_captures_all(pattern, text) {
        Some(v) => v,
        None => {
            let v: Vec<Vec<Option<(String, String)>>> = Vec::new();
            assert(matches_view(v@) =~= Seq::<Seq<Option<(Seq<char>, Seq<char>)>>>::empty());
            v
        },
    }
}

/// The keys and warnings of a Svelte component (see [`svelte_result`]).
pub fn extract_svelte_component(
    cx: &ScanSettings,
    tpl: &ScanSettings,
    path: &str,
    source: &str,
) -> (r: (Vec<ExtractedKey>, Vec<crate::extractor::SourcePosition>))
    requires
        cx.nesting_prefix@.len() + cx.nesting_suffix@.len() > 0,
        template_settings(*cx, *tpl),
        tpl.nesting_prefix@.len() + tpl.nesting_suffix@.len() > 0,
    ensures
        gathered(r.0@, r.1@) == svelte_result(*cx, *tpl, path@, source@),
{
    let mut keys: Vec<ExtractedKey> = Vec::new();
    let mut warnings: Vec<crate::extractor::SourcePosition> = Vec::new();
    let pc = chars_of(path);
    let sm = matches_of("(?is)<script\\b[^>]*>(.*?)</script>", source);
    let stm = matches_of("(?is)<style\\b[^>]*>.*?</style>", source);
    let scripts = block_contents_exec(&sm);
    let mut ranges = block_ranges_exec(source, &sm);
    let mut more = block_ranges_exec(source, &stm);
    let ghost r1 = ranges_view(ranges@);
    let ghost r2 = ranges_view(more@);
    ranges.append(&mut more);
    assert(ranges_view(ranges@) =~= r1 + r2);
    let markup = blank_exec(&chars_of(source), &ranges);
    assert(markup@ == svelte_markup(source@));
    let names = cstrings(&tpl.functions);
    let calls = translation_calls(&markup, &names);
    if scripts.len() == 0 && calls.len() == 0 {
        gather_source(cx, &chars_of(source), &pc, &mut keys, &mut warnings);
        assert(key_views(keys@) =~= source_result(*cx, source@, path@).0);
        return (keys, warnings);
    }
    gather_scripts(cx, &pc, &scripts, &mut keys, &mut warnings);
    gather_svelte_calls(tpl, &pc, &calls, &mut keys, &mut warnings);
    proof {
        let s0 = gathered(Seq::empty(), Seq::empty());
        assert(key_views(Seq::<ExtractedKey>::empty()) =~= Seq::<KeyView>::empty());
        let sr = scripts_result(*cx, path@, views(scripts@), scripts@.len() as int);
        let cr = svelte_calls_result(*tpl, path@, cviews(calls@), calls@.len() as int);
        assert(add_results(add_results(s0, sr), cr).0 =~= add_results(sr, cr).0);
    }
    (keys, warnings)
}

/// The keys and warnings of a file's contents, read by the strategy of its path (see
/// [`file_result`]).
pub fn scan_file(path: &str, source: &str, cx: &ScanSettings) -> (r: (Vec<ExtractedKey>, Vec<crate::extractor::SourcePosition>))
    requires
        cx.nesting_prefix@.len() + cx.nesting_suffix@.len() > 0,
    ensures
        exists|tpl: ScanSettings| template_settings(*cx, tpl) && gathered(r.0@, r.1@) == #[trigger] file_result(*cx, tpl, path@, source@),
{
    let tpl = template_settings_exec(cx);
    let r = scan_file_with(path, source, cx, &tpl);
    assert(template_settings(*cx, tpl) && gathered(r.0@, r.1@) == file_result(*cx, tpl, path@, source@));
    r
}

/// Scans one file's contents by the strategy its path calls for, with the given settings
/// for the calls found in component templates.
pub fn scan_file_with(path: &str, source: &str, cx: &ScanSettings, tpl: &ScanSettings) -> (r: (Vec<ExtractedKey>, Vec<crate::extractor::SourcePosition>))
    requires
        cx.nesting_prefix@.len() + cx.nesting_suffix@.len() > 0,
        template_settings(*cx, *tpl),
    ensures
        gathered(r.0@, r.1@) == file_result(*cx, *tpl, path@, source@),
{
    match ExtractorStrategy::from_path(path) {
        ExtractorStrategy::Vue => extract_vue_component(cx, tpl, path, source),
        ExtractorStrategy::Svelte => extract_svelte_component(cx, tpl, path, source),
        ExtractorStrategy::JavaScript => {
            let mut keys: Vec<ExtractedKey> = Vec::new();
            let mut warnings: Vec<crate::extractor::SourcePosition> = Vec::new();
            gather_source(cx, &chars_of(source), &chars_of(path), &mut keys, &mut warnings);
            assert(key_views(keys@) =~= source_result(*cx, source@, path@).0);
            (keys, warnings)
        },
    }
}

} // verus!
