//! Project layout detection: which names look like locales, which directories hold
//! sources and locale files, and the configuration `init` writes.

use crate::extractor::{extension_of, file_name, path_extension};
use crate::json::{render, render_json, JsonTree, JsonValue, Layout};
use crate::locale::{text_lt, text_lt_exec};
use crate::locize::{csv_entries, parse_csv_list};
use crate::text::{chars_of, concat2, is_ascii_alnum, is_ascii_alphanumeric, seq_eq, split, starts_with, starts_with_exec, string_of, views};
use crate::typegen::{insert_unique, strictly_sorted};
use vstd::prelude::*;

verus! {

/// Splits a comma-separated list: each entry trimmed, empty ones dropped.
pub fn split_csv(raw: &str) -> (r: Vec<String>)
    ensures
        views(r@) == csv_entries(split(raw@, ","@)),
{
    parse_csv_list(raw)
}

/// Whether a name looks like a locale code: 2 to 12 characters, each an ASCII letter or
/// digit, `-` or `_`.
pub open spec fn locale_like(s: Seq<char>) -> bool {
    &&& 2 <= s.len() <= 12
    &&& forall|i: int| 0 <= i < s.len() ==> is_ascii_alnum(#[trigger] s[i]) || s[i] == '-' || s[i] == '_'
}

/// Whether a name looks like a locale code (see [`locale_like`]).
pub fn looks_like_locale(locale: &str) -> (r: bool)
    ensures
        r == locale_like(locale@),
{
    let c = chars_of(locale);
    if c.len() < 2 || c.len() > 12 {
        return false;
    }
    let mut i: usize = 0;
    while i < c.len()
        invariant
            i <= c@.len(),
            c@ == locale@,
            forall|j: int| 0 <= j < i ==> is_ascii_alnum(#[trigger] c@[j]) || c@[j] == '-' || c@[j] == '_',
        decreases c.len() - i,
    {
        if !(is_ascii_alphanumeric(c[i]) || c[i] == '-' || c[i] == '_') {
            return false;
        }
        i = i + 1;
    }
    true
}

/// Whether a file name's extension marks a locale file (`json`, `json5`, `js`, `ts`).
pub open spec fn locale_extension(path: Seq<char>) -> bool {
    match extension_of(file_name(path)) {
        Some(e) => e == "json"@ || e == "json5"@ || e == "js"@ || e == "ts"@,
        None => false,
    }
}

/// Whether a file's extension marks a locale file (see [`locale_extension`]).
pub fn has_locale_extension(path: &str) -> (r: bool)
    ensures
        r == locale_extension(path@),
{
    match path_extension(&chars_of(path)) {
        Some(e) => seq_eq(&e, &chars_of("json")) || seq_eq(&e, &chars_of("json5")) || seq_eq(&e, &chars_of("js")) || seq_eq(
            &e,
            &chars_of("ts"),
        ),
        None => false,
    }
}

/// Whether a directory is skipped when looking for locale directories.
pub open spec fn skipped_dir(name: Seq<char>) -> bool {
    name == "node_modules"@ || name == ".git"@ || name == "target"@ || name == ".next"@ || name == "dist"@ || name
        == "build"@
}

/// Whether a directory is skipped when looking for locale directories (see
/// [`skipped_dir`]).
pub fn is_skipped_dir(name: &str) -> (r: bool)
    ensures
        r == skipped_dir(name@),
{
    let c = chars_of(name);
    seq_eq(&c, &chars_of("node_modules")) || seq_eq(&c, &chars_of(".git")) || seq_eq(&c, &chars_of("target")) || seq_eq(
        &c,
        &chars_of(".next"),
    ) || seq_eq(&c, &chars_of("dist")) || seq_eq(&c, &chars_of("build"))
}

/// A path with backslashes turned into slashes.
pub open spec fn slashed(p: Seq<char>) -> Seq<char> {
    p.map_values(|c: char| if c == '\\' { '/' } else { c })
}

/// A path made relative-looking: slashes only, and a leading `./` dropped (`.` stays).
pub open spec fn relative_path(p: Seq<char>) -> Seq<char> {
    let raw = slashed(p);
    if raw == "."@ {
        raw
    } else if starts_with(raw, "./"@) {
        raw.skip(2)
    } else {
        raw
    }
}

/// A path with backslashes turned into slashes.
fn slashed_exec(p: &[char]) -> (r: Vec<char>)
    ensures
        r@ == slashed(p@),
{
    let mut out: Vec<char> = Vec::new();
    let mut i: usize = 0;
    while i < p.len()
        invariant
            i <= p@.len(),
            out@ == slashed(p@).take(i as int),
        decreases p.len() - i,
    {
        out.push(if p[i] == '\\' { '/' } else { p[i] });
        assert(slashed(p@).take(i as int + 1) =~= slashed(p@).take(i as int).push(slashed(p@)[i as int]));
        i = i + 1;
    }
    assert(slashed(p@).take(p@.len() as int) =~= slashed(p@));
    out
}

/// A path made relative-looking (see [`relative_path`]).
pub fn normalize_relative_path(path: &str) -> (r: String)
    ensures
        r@ == relative_path(path@),
{
    let raw = slashed_exec(&chars_of(path));
    if seq_eq(&raw, &chars_of(".")) {
        string_of(&raw)
    } else if starts_with_exec(&raw, &chars_of("./")) {
        proof {
            reveal_strlit("./");
        }
        string_of(&crate::text::slice_vec(&raw, 2, raw.len()))
    } else {
        string_of(&raw)
    }
}

/// The non-empty segments of a slashed path, counted.
pub open spec fn depth_of(p: Seq<char>) -> nat
    decreases p.len(),
{
    if p.len() == 0 {
        0
    } else if p.last() == '/' {
        depth_of(p.drop_last())
    } else if p.len() == 1 || p[p.len() - 2] == '/' {
        depth_of(p.drop_last()) + 1
    } else {
        depth_of(p.drop_last())
    }
}

/// Whether a slashed path has a `locales` segment.
pub open spec fn has_locales_segment(p: Seq<char>) -> bool {
    split(p, "/"@).contains("locales"@)
}

/// How a candidate locale directory ranks (lower first): one with a `locales` segment
/// first, then shallower ones, then by text.
pub open spec fn rank_lt(a: Seq<char>, b: Seq<char>) -> bool {
    let (sa, sb) = (slashed(a), slashed(b));
    let (la, lb) = (if has_locales_segment(sa) { 0int } else { 1int }, if has_locales_segment(sb) { 0int } else { 1int });
    la < lb || (la == lb && (depth_of(sa) < depth_of(sb) || (depth_of(sa) == depth_of(sb) && text_lt(sa, sb))))
}

/// The index of the best-ranked of the first `n` candidates, the earliest among equals.
pub open spec fn best_index(paths: Seq<Seq<char>>, n: int) -> int
    decreases n,
{
    if n <= 1 {
        0
    } else if rank_lt(paths[n - 1], paths[best_index(paths, n - 1)]) {
        n - 1
    } else {
        best_index(paths, n - 1)
    }
}

/// The number of non-empty segments of a slashed path.
fn depth_exec(p: &[char]) -> (r: usize)
    ensures
        r == depth_of(p@),
{
    let mut d: usize = 0;
    let mut i: usize = 0;
    while i < p.len()
        invariant
            i <= p@.len(),
            d == depth_of(p@.take(i as int)),
            d <= i,
        decreases p.len() - i,
    {
        let ghost t = p@.take(i as int + 1);
        assert(t.drop_last() =~= p@.take(i as int));
        if p[i] != '/' && (i == 0 || p[i - 1] == '/') {
            d = d + 1;
        }
        i = i + 1;
    }
    assert(p@.take(p@.len() as int) =~= p@);
    d
}

/// Whether a slashed path has a `locales` segment.
fn has_locales_segment_exec(p: &[char]) -> (r: bool)
    ensures
        r == has_locales_segment(p@),
{
    let slash = chars_of("/");
    proof {
        reveal_strlit("/");
    }
    let parts = crate::text::split_exec(p, &slash);
    let ghost pv = parts@.map_values(|v: Vec<char>| v@);
    let mut i: usize = 0;
    while i < parts.len()
        invariant
            i <= parts@.len(),
            pv == parts@.map_values(|v: Vec<char>| v@),
            pv == split(p@, "/"@),
            forall|j: int| 0 <= j < i ==> pv[j] != "locales"@,
        decreases parts.len() - i,
    {
        assert(pv[i as int] == parts@[i as int]@);
        if seq_eq(&parts[i], &chars_of("locales")) {
            assert(pv.contains(pv[i as int]));
            return true;
        }
        i = i + 1;
    }
    false
}

/// Whether candidate `a` ranks before `b` (see [`rank_lt`]).
fn rank_lt_exec(a: &str, b: &str) -> (r: bool)
    ensures
        r == rank_lt(a@, b@),
{
    let sa = slashed_exec(&chars_of(a));
    let sb = slashed_exec(&chars_of(b));
    let la: u8 = if has_locales_segment_exec(&sa) { 0 } else { 1 };
    let lb: u8 = if has_locales_segment_exec(&sb) { 0 } else { 1 };
    let da = depth_exec(&sa);
    let db = depth_exec(&sb);
    la < lb || (la == lb && (da < db || (da == db && text_lt_exec(&sa, &sb))))
}

/// The best of the candidate locale directories, made relative-looking (see
/// [`choose_best_locale_output`]).
pub open spec fn best_locale_output(paths: Seq<Seq<char>>) -> Option<Seq<char>> {
    if paths.len() == 0 {
        None
    } else {
        Some(relative_path(paths[best_index(paths, paths.len() as int)]))
    }
}

/// The best candidate locale directory, made relative-looking: one with a `locales`
/// segment before others, then the shallowest, then the first by text (the earliest among
/// equals); none without candidates.
pub fn choose_best_locale_output(paths: &[String]) -> (r: Option<String>)
    ensures
        match r {
            Some(p) => paths@.len() > 0 && p@ == relative_path(views(paths@)[best_index(views(paths@), paths@.len() as int)]),
            None => paths@.len() == 0,
        },
{
    if paths.len() == 0 {
        return None;
    }
    let ghost pv = views(paths@);
    let mut best: usize = 0;
    let mut i: usize = 1;
    while i < paths.len()
        invariant
            1 <= i <= paths@.len(),
            pv == views(paths@),
            best as int == best_index(pv, i as int),
            best < i,
        decreases paths.len() - i,
    {
        assert(pv[i as int] == paths@[i as int]@);
        assert(pv[best as int] == paths@[best as int]@);
        if rank_lt_exec(paths[i].as_str(), paths[best].as_str()) {
            best = i;
        }
        i = i + 1;
    }
    assert(pv[best as int] == paths@[best as int]@);
    Some(normalize_relative_path(paths[best].as_str()))
}

/// The names, sorted and each once.
pub fn sorted_names(names: &[String]) -> (r: Vec<String>)
    ensures
        strictly_sorted(views(r@)),
        views(r@).to_set() == views(names@).to_set(),
{
    let ghost nv = views(names@);
    let mut found: Vec<Vec<char>> = Vec::new();
    let mut i: usize = 0;
    assert(nv.take(0).to_set() =~= Set::<Seq<char>>::empty());
    assert(crate::text::cviews(found@).to_set() =~= Set::<Seq<char>>::empty());
    while i < names.len()
        invariant
            i <= names@.len(),
            nv == views(names@),
            strictly_sorted(crate::text::cviews(found@)),
            crate::text::cviews(found@).to_set() == nv.take(i as int).to_set(),
        decreases names.len() - i,
    {
        assert(nv[i as int] == names@[i as int]@);
        insert_unique(&mut found, chars_of(names[i].as_str()));
        proof {
            let t = nv.take(i as int + 1);
            let p = nv.take(i as int);
            assert forall|y: Seq<char>| t.to_set().contains(y) <==> p.to_set().insert(nv[i as int]).contains(y) by {
                if t.contains(y) {
                    let k = choose|k: int| 0 <= k < t.len() && t[k] == y;
                    if k < i {
                        assert(p[k] == y);
                    }
                }
                if p.contains(y) {
                    let k = choose|k: int| 0 <= k < p.len() && p[k] == y;
                    assert(t[k] == y);
                }
                if y == nv[i as int] {
                    assert(t[i as int] == y);
                }
            }
            assert(t.to_set() =~= p.to_set().insert(nv[i as int]));
        }
        i = i + 1;
    }
    assert(nv.take(names@.len() as int) =~= nv);
    let mut out: Vec<String> = Vec::new();
    let mut j: usize = 0;
    while j < found.len()
        invariant
            j <= found@.len(),
            views(out@) == crate::text::cviews(found@).take(j as int),
        decreases found.len() - j,
    {
        let ghost before = views(out@);
        out.push(string_of(&found[j]));
        assert(views(out@) =~= before.push(found@[j as int]@));
        assert(crate::text::cviews(found@).take(j as int + 1) =~= crate::text::cviews(found@).take(j as int).push(found@[j as int]@));
        j = j + 1;
    }
    assert(crate::text::cviews(found@).take(found@.len() as int) =~= crate::text::cviews(found@));
    out
}

/// The locale names to use, from the names of the directories that look like locales:
/// sorted and each once, joined with commas; none when there are none.
pub fn detect_locales_csv(dir_names: &[String]) -> (r: Option<String>)
    ensures
        match r {
            Some(csv) => exists|names: Seq<Seq<char>>|
                strictly_sorted(names) && names.len() > 0
                && names.to_set() == views(dir_names@).filter(|n: Seq<char>| locale_like(n)).to_set()
                && csv@ == #[trigger] crate::text::join(names, ","@),
            None => views(dir_names@).filter(|n: Seq<char>| locale_like(n)).len() == 0,
        },
{
    let ghost dv = views(dir_names@);
    let ghost f = |n: Seq<char>| locale_like(n);
    let mut keep: Vec<String> = Vec::new();
    let mut i: usize = 0;
    proof {
        reveal(Seq::filter);
    }
    assert(dv.take(0).filter(f) =~= Seq::<Seq<char>>::empty());
    while i < dir_names.len()
        invariant
            i <= dir_names@.len(),
            dv == views(dir_names@),
            f == (|n: Seq<char>| locale_like(n)),
            views(keep@) == dv.take(i as int).filter(f),
        decreases dir_names.len() - i,
    {
        let ghost t = dv.take(i as int + 1);
        assert(t.drop_last() =~= dv.take(i as int));
        assert(t.last() == dir_names@[i as int]@);
        proof {
            reveal(Seq::filter);
        }
        if looks_like_locale(dir_names[i].as_str()) {
            let ghost before = views(keep@);
            keep.push(dir_names[i].clone());
            assert(views(keep@) =~= before.push(dir_names@[i as int]@));
        }
        i = i + 1;
    }
    assert(dv.take(dir_names@.len() as int) =~= dv);
    if keep.len() == 0 {
        return None;
    }
    let names = sorted_names(&keep);
    let mut parts: Vec<Vec<char>> = Vec::new();
    let mut j: usize = 0;
    while j < names.len()
        invariant
            j <= names@.len(),
            crate::text::cviews(parts@) == views(names@).take(j as int),
        decreases names.len() - j,
    {
        let ghost before = crate::text::cviews(parts@);
        parts.push(chars_of(names[j].as_str()));
        assert(crate::text::cviews(parts@) =~= before.push(names@[j as int]@));
        assert(views(names@).take(j as int + 1) =~= views(names@).take(j as int).push(names@[j as int]@));
        j = j + 1;
    }
    assert(views(names@).take(names@.len() as int) =~= views(names@));
    proof {
        if views(names@).len() == 0 {
            assert(views(keep@).len() > 0);
            assert(views(keep@).to_set().contains(views(keep@)[0]));
        }
    }
    let csv = crate::text::join_exec(&parts, &chars_of(","));
    Some(string_of(&csv))
}

/// The source directories looked for, in order.
pub open spec fn source_candidates() -> Seq<Seq<char>> {
    seq!["src"@, "app"@, "components"@, "pages"@, "lib"@]
}

/// What precedes the first `/` of a path (all of it when it has none).
pub open spec fn first_segment(p: Seq<char>) -> Seq<char> {
    match crate::text::find_from(p, "/"@, 0) {
        Some(i) => p.take(i),
        None => p,
    }
}

/// The source globs of the first `n` candidate directories that exist and are not the
/// locale output's first segment.
pub open spec fn source_globs_from(existing: Seq<Seq<char>>, excluded: Seq<char>, n: int) -> Seq<Seq<char>>
    decreases n,
{
    if n <= 0 {
        Seq::empty()
    } else {
        let d = source_candidates()[n - 1];
        if existing.contains(d) && d != excluded {
            source_globs_from(existing, excluded, n - 1).push(d + "/**/*.{ts,tsx,js,jsx}"@)
        } else {
            source_globs_from(existing, excluded, n - 1)
        }
    }
}

/// The input globs to use: `dir/**/*.{ts,tsx,js,jsx}` for each of `src`, `app`,
/// `components`, `pages` and `lib` that exists (as given in `existing`) and is not where
/// the locale files live; else, when the working directory exists, the whole workspace.
pub fn detect_source_globs(locales_output: &str, existing: &[String], workspace_exists: bool) -> (r: Vec<String>)
    ensures
        ({
            let g = source_globs_from(views(existing@), first_segment(locales_output@), 5);
            views(r@) == if g.len() == 0 && workspace_exists {
                seq!["**/*.{ts,tsx,js,jsx}"@]
            } else {
                g
            }
        }),
{
    let out_c = chars_of(locales_output);
    let slash = chars_of("/");
    let excluded = match crate::text::find_from_exec(&out_c, &slash, 0) {
        Some(i) => {
            proof {
                crate::text::lemma_find_from_bounds(out_c@, slash@, 0);
            }
            crate::text::slice_vec(&out_c, 0, i)
        },
        None => out_c,
    };
    assert(excluded@ == first_segment(locales_output@));
    let candidates: [&str; 5] = ["src", "app", "components", "pages", "lib"];
    let ghost ev = views(existing@);
    let mut globs: Vec<String> = Vec::new();
    let mut k: usize = 0;
    while k < 5
        invariant
            k <= 5,
            ev == views(existing@),
            excluded@ == first_segment(locales_output@),
            candidates@ == seq!["src", "app", "components", "pages", "lib"],
            views(globs@) == source_globs_from(ev, excluded@, k as int),
        decreases 5 - k,
    {
        let d = chars_of(candidates[k]);
        assert(d@ == source_candidates()[k as int]);
        let mut present = false;
        let mut j: usize = 0;
        while j < existing.len()
            invariant
                j <= existing@.len(),
                ev == views(existing@),
                present == (exists|m: int| 0 <= m < j && ev[m] == d@),
            decreases existing.len() - j,
        {
            assert(ev[j as int] == existing@[j as int]@);
            if seq_eq(&chars_of(existing[j].as_str()), &d) {
                present = true;
            }
            j = j + 1;
        }
        assert(present == ev.contains(d@));
        if present && !seq_eq(&d, &excluded) {
            let ghost before = views(globs@);
            let g = concat2(&d, &chars_of("/**/*.{ts,tsx,js,jsx}"));
            globs.push(string_of(&g));
            assert(views(globs@) =~= before.push(g@));
        }
        k = k + 1;
    }
    if globs.len() == 0 && workspace_exists {
        let r = vec![string_of(&chars_of("**/*.{ts,tsx,js,jsx}"))];
        assert(views(r@) =~= seq![r@[0]@]);
        return r;
    }
    globs
}

/// The configuration `init` writes: the given values (lists split at commas, trimmed),
/// with `.` and `:` as key and namespace separators, as pretty JSON with a final line
/// break.
pub open spec fn init_config(input: Seq<char>, output: Seq<char>, locales: Seq<char>, namespace: Seq<char>, functions: Seq<char>) -> Seq<char> {
    let list = |s: Seq<char>| JsonTree::Array(str_trees(csv_entries(split(s, ","@))));
    render(
        JsonTree::Object(
            seq![
                ("input"@, list(input)),
                ("output"@, JsonTree::Str(output)),
                ("locales"@, list(locales)),
                ("defaultNamespace"@, JsonTree::Str(namespace)),
                ("functions"@, list(functions)),
                ("keySeparator"@, JsonTree::Str("."@)),
                ("nsSeparator"@, JsonTree::Str(":"@)),
            ],
        ),
        "  "@,
        "\n"@,
        true,
        0,
    ) + "\n"@
}

/// JSON strings, one per text.
pub open spec fn str_trees(s: Seq<Seq<char>>) -> Seq<JsonTree>
    decreases s.len(),
{
    if s.len() == 0 {
        Seq::empty()
    } else {
        str_trees(s.drop_last()).push(JsonTree::Str(s.last()))
    }
}

/// A JSON array of strings.
fn string_array(items: Vec<String>) -> (r: JsonValue)
    ensures
        r@ == JsonTree::Array(str_trees(views(items@))),
{
    let ghost iv = views(items@);
    let mut out: Vec<JsonValue> = Vec::new();
    let mut i: usize = 0;
    while i < items.len()
        invariant
            i <= items@.len(),
            iv == views(items@),
            crate::json::trees_of(out@) == str_trees(iv.take(i as int)),
        decreases items.len() - i,
    {
        let ghost before = out@;
        let item = JsonValue::Str(items[i].clone());
        assert(item@ == JsonTree::Str(items@[i as int]@));
        out.push(item);
        proof {
            assert(out@.drop_last() =~= before);
            assert(out@.last() == item);
            assert(crate::json::trees_of(out@) == crate::json::trees_of(before).push(item@));
            assert(iv.take(i as int + 1).drop_last() =~= iv.take(i as int));
            assert(iv.take(i as int + 1).last() == items@[i as int]@);
        }
        i = i + 1;
    }
    assert(iv.take(items@.len() as int) =~= iv);
    JsonValue::Array(out)
}

/// The configuration file `init` writes (see [`init_config`]).
pub fn init_config_text(input: &str, output: &str, locales: &str, namespace: &str, functions: &str) -> (r: String)
    ensures
        r@ == init_config(input@, output@, locales@, namespace@, functions@),
{
    let members: Vec<(String, JsonValue)> = vec![
        (string_of(&chars_of("input")), string_array(split_csv(input))),
        (string_of(&chars_of("output")), JsonValue::Str(string_of(&chars_of(output)))),
        (string_of(&chars_of("locales")), string_array(split_csv(locales))),
        (string_of(&chars_of("defaultNamespace")), JsonValue::Str(string_of(&chars_of(namespace)))),
        (string_of(&chars_of("functions")), string_array(split_csv(functions))),
        (string_of(&chars_of("keySeparator")), JsonValue::Str(string_of(&chars_of(".")))),
        (string_of(&chars_of("nsSeparator")), JsonValue::Str(string_of(&chars_of(":")))),
    ];
    let v = JsonValue::Object(members);
    let layout = Layout { indent: chars_of("  "), newline: chars_of("\n"), compact_empty: true };
    let text = render_json(&v, &layout);
    proof {
        crate::json::lemma_entries_of(members@);
        assert(crate::json::entries_of(members@) =~= seq![
            ("input"@, JsonTree::Array(str_trees(csv_entries(split(input@, ","@))))),
            ("output"@, JsonTree::Str(output@)),
            ("locales"@, JsonTree::Array(str_trees(csv_entries(split(locales@, ","@))))),
            ("defaultNamespace"@, JsonTree::Str(namespace@)),
            ("functions"@, JsonTree::Array(str_trees(csv_entries(split(functions@, ","@))))),
            ("keySeparator"@, JsonTree::Str("."@)),
            ("nsSeparator"@, JsonTree::Str(":"@)),
        ]);
    }
    string_of(&concat2(&text, &chars_of("\n")))
}

/// The first of the candidates (from `i` on) that is among the given ones.
pub open spec fn first_among(candidates: Seq<Seq<char>>, given: Seq<Seq<char>>, i: int) -> Option<Seq<char>>
    decreases candidates.len() - i,
{
    if i < 0 || i >= candidates.len() {
        None
    } else if given.contains(candidates[i]) {
        Some(candidates[i])
    } else {
        first_among(candidates, given, i + 1)
    }
}

/// The first of the candidates that is among the given ones (see [`first_among`]).
fn first_among_exec(candidates: &Vec<Vec<char>>, given: &[String]) -> (r: Option<String>)
    ensures
        match r {
            Some(c) => first_among(crate::text::cviews(candidates@), views(given@), 0) == Some(c@),
            None => first_among(crate::text::cviews(candidates@), views(given@), 0) is None,
        },
{
    let ghost cv = crate::text::cviews(candidates@);
    let mut i: usize = 0;
    while i < candidates.len()
        invariant
            i <= candidates@.len(),
            cv == crate::text::cviews(candidates@),
            first_among(cv, views(given@), 0) == first_among(cv, views(given@), i as int),
        decreases candidates.len() - i,
    {
        assert(cv[i as int] == candidates@[i as int]@);
        if crate::text::strings_contain(given, &candidates[i]) {
            return Some(string_of(&candidates[i]));
        }
        i = i + 1;
    }
    None
}

/// The output directories `init` looks for, in order.
pub open spec fn output_candidates() -> Seq<Seq<char>> {
    seq!["locales"@, "public/locales"@, "src/locales"@, "app/locales"@, "resources/locales"@]
}

/// The output directory `init` proposes: the first candidate (see [`output_candidates`])
/// among `qualifying`, the candidates that are directories with a locale subdirectory
/// holding a locale file.
pub fn detect_output_dir(qualifying: &[String]) -> (r: Option<String>)
    ensures
        match r {
            Some(d) => first_among(output_candidates(), views(qualifying@), 0) == Some(d@),
            None => first_among(output_candidates(), views(qualifying@), 0) is None,
        },
{
    let mut c: Vec<Vec<char>> = Vec::new();
    c.push(chars_of("locales"));
    c.push(chars_of("public/locales"));
    c.push(chars_of("src/locales"));
    c.push(chars_of("app/locales"));
    c.push(chars_of("resources/locales"));
    assert(crate::text::cviews(c@) =~= output_candidates());
    first_among_exec(&c, qualifying)
}

/// The input globs `init` looks for, in order, each under its own root directory.
pub open spec fn input_candidates() -> Seq<Seq<char>> {
    seq!["src"@, "app"@, "pages"@, "components"@]
}

/// The input glob `init` proposes: `root/**/*.{ts,tsx,js,jsx}` for the first root (see
/// [`input_candidates`]) among the existing directories.
pub fn detect_input_glob(existing: &[String]) -> (r: Option<String>)
    ensures
        match r {
            Some(g) => first_among(input_candidates(), views(existing@), 0) matches Some(d) && g@ == d + "/**/*.{ts,tsx,js,jsx}"@,
            None => first_among(input_candidates(), views(existing@), 0) is None,
        },
{
    let mut c: Vec<Vec<char>> = Vec::new();
    c.push(chars_of("src"));
    c.push(chars_of("app"));
    c.push(chars_of("pages"));
    c.push(chars_of("components"));
    assert(crate::text::cviews(c@) =~= input_candidates());
    match first_among_exec(&c, existing) {
        Some(d) => Some(string_of(&concat2(&chars_of(d.as_str()), &chars_of("/**/*.{ts,tsx,js,jsx}")))),
        None => None,
    }
}

/// The locale output directories looked for first, in order.
pub open spec fn locale_output_candidates() -> Seq<Seq<char>> {
    seq!["locales"@, "public/locales"@, "src/locales"@, "app/locales"@]
}

/// The locale output directory of a project: the first candidate (see
/// [`locale_output_candidates`]) among `qualifying` (those that are directories with a
/// locale subdirectory holding a locale file), else the best of the directories found by
/// walking the project (see [`choose_best_locale_output`]).
pub fn detect_locales_output_dir(qualifying: &[String], discovered: &[String]) -> (r: Option<String>)
    ensures
        first_among(locale_output_candidates(), views(qualifying@), 0) matches Some(d) ==> r matches Some(x) && x@ == d,
        first_among(locale_output_candidates(), views(qualifying@), 0) is None ==> match r {
            Some(p) => best_locale_output(views(discovered@)) == Some(p@),
            None => best_locale_output(views(discovered@)) is None,
        },
{
    let mut c: Vec<Vec<char>> = Vec::new();
    c.push(chars_of("locales"));
    c.push(chars_of("public/locales"));
    c.push(chars_of("src/locales"));
    c.push(chars_of("app/locales"));
    assert(crate::text::cviews(c@) =~= locale_output_candidates());
    match first_among_exec(&c, qualifying) {
        Some(d) => Some(d),
        None => choose_best_locale_output(discovered),
    }
}

} // verus!
