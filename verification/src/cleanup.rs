//! Dead keys: entries of locale files that no extracted key names, and their removal.
use crate::extractor::{extension_of, file_name, path_extension};
use crate::json::{
    entries_of, find_key, find_key_exec, lemma_entries_of, lemma_find_key, parse_json_text, render, render_json,
    serde_json_parse, tree_of, JsonTree, JsonValue, Layout,
};
use crate::keys::{key_views, ExtractedKey, KeyView};
use crate::json::{obj_get, obj_set};
use crate::locale::{obj_swap_remove, pretty};
use crate::text::{
    chars_of, concat2, concat3, ends_with, ends_with_exec, is_blank, is_blank_exec, matches_at, matches_at_exec,
    slice_vec, split, split_exec, starts_with, starts_with_exec, string_of, views,
};
use vstd::prelude::*;

verus! {

/// What a dead-key scan found.
#[derive(Debug, Default)]
pub struct CleanupResult {
    pub dead_keys: Vec<DeadKey>,
    pub removed_count: usize,
}

/// A key of a locale file that no extracted key names.
#[derive(Debug, Clone)]
pub struct DeadKey {
    pub file_path: String,
    pub key_path: String,
    pub namespace: String,
}

/// The mathematical content of a [`DeadKey`]: file, key path, namespace.
pub open spec fn dead_view(d: DeadKey) -> (Seq<char>, Seq<char>, Seq<char>) {
    (d.file_path@, d.key_path@, d.namespace@)
}

/// The contents of a list of dead keys.
pub open spec fn dead_views(s: Seq<DeadKey>) -> Seq<(Seq<char>, Seq<char>, Seq<char>)> {
    s.map_values(|d: DeadKey| dead_view(d))
}

/// How a key is identified across namespaces: `namespace:key`, or the key alone in
/// namespace-less mode.
pub open spec fn key_id(namespace: Seq<char>, key_path: Seq<char>, namespace_less: bool) -> Seq<char> {
    if namespace_less {
        key_path
    } else {
        namespace + ":"@ + key_path
    }
}

/// The identifier of a key (see [`key_id`]).
pub fn format_key_id(namespace: &str, key_path: &str, namespace_less_mode: bool) -> (r: String)
    ensures
        r@ == key_id(namespace@, key_path@, namespace_less_mode),
{
    if namespace_less_mode {
        string_of(&chars_of(key_path))
    } else {
        string_of(&concat3(&chars_of(namespace), &chars_of(":"), &chars_of(key_path)))
    }
}

/// The start of the last occurrence of `p` in `s` at or before index `j`.
pub open spec fn rfind_at(s: Seq<char>, p: Seq<char>, j: int) -> Option<int>
    decreases j + 1,
{
    if j < 0 {
        None
    } else if matches_at(s, p, j) {
        Some(j)
    } else {
        rfind_at(s, p, j - 1)
    }
}

/// The start of the last occurrence of `p` in `s` (`str::rfind`).
pub open spec fn rfind(s: Seq<char>, p: Seq<char>) -> Option<int> {
    rfind_at(s, p, s.len() - p.len())
}

/// Where `p` last occurs in `s`.
fn rfind_exec(s: &[char], p: &[char]) -> (r: Option<usize>)
    ensures
        match r {
            Some(i) => rfind(s@, p@) == Some(i as int),
            None => rfind(s@, p@) is None,
        },
{
    if p.len() > s.len() {
        assert(rfind_at(s@, p@, s@.len() - p@.len()) is None);
        return None;
    }
    let mut j: usize = s.len() - p.len();
    loop
        invariant
            j + p@.len() <= s@.len(),
            rfind(s@, p@) == rfind_at(s@, p@, j as int),
        decreases j,
    {
        if matches_at_exec(s, p, j) {
            return Some(j);
        }
        if j == 0 {
            assert(rfind_at(s@, p@, -1) is None);
            return None;
        }
        j = j - 1;
    }
}

/// Whether one of the bases of a key path (what precedes each occurrence of the context
/// separator, from the last one back) is an extracted key, starting from `cand`.
pub open spec fn covered_from(namespace: Seq<char>, cand: Seq<char>, extracted: Seq<Seq<char>>, namespace_less: bool, sep: Seq<char>) -> bool
    decreases cand.len(),
{
    if sep.len() == 0 {
        false
    } else {
        match rfind(cand, sep) {
            None => false,
            Some(i) => if 0 <= i < cand.len() {
                let base = cand.take(i);
                extracted.contains(key_id(namespace, base, namespace_less)) || covered_from(
                    namespace,
                    base,
                    extracted,
                    namespace_less,
                    sep,
                )
            } else {
                false
            },
        }
    }
}

/// rfind finds an occurrence within bounds.
proof fn lemma_rfind_at(s: Seq<char>, p: Seq<char>, j: int)
    ensures
        rfind_at(s, p, j) matches Some(i) ==> 0 <= i <= j && matches_at(s, p, i),
    decreases j + 1,
{
    if j >= 0 && !matches_at(s, p, j) {
        lemma_rfind_at(s, p, j - 1);
    }
}

/// Whether a key path is a context variant of an extracted key: some base of it, cut at
/// the context separator, is extracted (see [`covered_from`]).
pub fn is_covered_by_context_variant(
    namespace: &str,
    key_path: &str,
    extracted_set: &[String],
    namespace_less_mode: bool,
    context_separator: &str,
) -> (r: bool)
    ensures
        r == covered_from(namespace@, key_path@, views(extracted_set@), namespace_less_mode, context_separator@),
{
    let sep = chars_of(context_separator);
    if sep.len() == 0 {
        return false;
    }
    let mut cand = chars_of(key_path);
    loop
        invariant
            sep@ == context_separator@,
            sep@.len() > 0,
            covered_from(namespace@, key_path@, views(extracted_set@), namespace_less_mode, sep@)
                == covered_from(namespace@, cand@, views(extracted_set@), namespace_less_mode, sep@),
        decreases cand@.len(),
    {
        proof {
            lemma_rfind_at(cand@, sep@, cand@.len() - sep@.len());
        }
        match rfind_exec(&cand, &sep) {
            None => {
                return false;
            },
            Some(i) => {
                if i >= cand.len() {
                    return false;
                }
                let base = slice_vec(&cand, 0, i);
                let id = format_key_id(namespace, string_of(&base).as_str(), namespace_less_mode);
                if holds(extracted_set, &id) {
                    return true;
                }
                assert(base@ == cand@.take(i as int));
                cand = base;
            },
        }
    }
}

/// Whether a list of strings holds `s`.
fn holds(v: &[String], s: &String) -> (r: bool)
    ensures
        r == views(v@).contains(s@),
{
    let mut i: usize = 0;
    while i < v.len()
        invariant
            i <= v@.len(),
            forall|j: int| 0 <= j < i ==> views(v@)[j] != s@,
        decreases v.len() - i,
    {
        assert(views(v@)[i as int] == v@[i as int]@);
        if v[i] == *s {
            return true;
        }
        i = i + 1;
    }
    false
}

/// What a dead-key scan compares against: the identifiers of the extracted keys, those of
/// the object roots (keys written `root.*`), and the scan's settings.
pub struct DeadEnv {
    pub extracted: Seq<Seq<char>>,
    pub roots: Seq<Seq<char>>,
    pub namespace_less: bool,
    pub preserve_context_variants: bool,
    pub context_separator: Seq<char>,
    pub file_path: Seq<char>,
}

/// Whether an identifier falls under an object root: it is the root or starts with the
/// root and a dot.
pub open spec fn under_root(id: Seq<char>, roots: Seq<Seq<char>>) -> bool {
    exists|i: int| 0 <= i < roots.len() && (id == #[trigger] roots[i] || starts_with(id, roots[i] + "."@))
}

/// Whether a string leaf at `key_path` in `namespace` is dead: not extracted, not under an
/// object root, and (when context variants are preserved) not a context variant of an
/// extracted key.
pub open spec fn is_dead(env: DeadEnv, namespace: Seq<char>, key_path: Seq<char>) -> bool {
    let id = key_id(namespace, key_path, env.namespace_less);
    &&& !env.extracted.contains(id)
    &&& !under_root(id, env.roots)
    &&& !(env.preserve_context_variants && covered_from(namespace, key_path, env.extracted, env.namespace_less, env.context_separator))
}

/// An object root keeps only itself and the keys below it (the root, a dot, more): a leaf
/// whose id is not extracted, is no root, and continues no root with a dot is dead
/// (context variants not preserved), even when its id starts with a root's text; and a leaf
/// whose id is a root or continues one with a dot is never dead.
pub proof fn lemma_roots_cover_only_below(env: DeadEnv, namespace: Seq<char>, key_path: Seq<char>)
    ensures
        (!env.extracted.contains(key_id(namespace, key_path, env.namespace_less)) && !env.preserve_context_variants
            && forall|i: int| 0 <= i < env.roots.len() ==> key_id(namespace, key_path, env.namespace_less) != #[trigger] env.roots[i]
            && !(key_id(namespace, key_path, env.namespace_less).len() > env.roots[i].len()
            && key_id(namespace, key_path, env.namespace_less).take(env.roots[i].len() as int) == env.roots[i]
            && key_id(namespace, key_path, env.namespace_less)[env.roots[i].len() as int] == '.'))
            ==> is_dead(env, namespace, key_path),
        (exists|i: int| 0 <= i < env.roots.len() && (key_id(namespace, key_path, env.namespace_less) == #[trigger] env.roots[i]
            || (key_id(namespace, key_path, env.namespace_less).len() > env.roots[i].len()
            && key_id(namespace, key_path, env.namespace_less).take(env.roots[i].len() as int) == env.roots[i]
            && key_id(namespace, key_path, env.namespace_less)[env.roots[i].len() as int] == '.')))
            ==> !is_dead(env, namespace, key_path),
{
    let id = key_id(namespace, key_path, env.namespace_less);
    reveal_strlit(".");
    assert forall|i: int| 0 <= i < env.roots.len() && starts_with(id, #[trigger] env.roots[i] + "."@) implies
        id.len() > env.roots[i].len() && id.take(env.roots[i].len() as int) == env.roots[i] && id[env.roots[i].len() as int] == '.' by {
        let r = env.roots[i];
        let p = r + "."@;
        assert(id.subrange(0, p.len() as int) == p);
        assert(id.take(r.len() as int) =~= p.take(r.len() as int));
        assert(p.take(r.len() as int) =~= r);
        assert(id[r.len() as int] == id.subrange(0, p.len() as int)[r.len() as int]);
    }
    assert forall|i: int| 0 <= i < env.roots.len() && id.len() > (#[trigger] env.roots[i]).len() && id.take(env.roots[i].len() as int) == env.roots[i]
        && id[env.roots[i].len() as int] == '.' implies starts_with(id, env.roots[i] + "."@) by {
        let r = env.roots[i];
        let p = r + "."@;
        assert(id.subrange(0, p.len() as int) =~= p);
    }
}

/// The path of a member under a prefix: the key alone at the top, else prefix, dot, key.
pub open spec fn dotted(prefix: Seq<char>, key: Seq<char>) -> Seq<char> {
    if prefix.len() == 0 {
        key
    } else {
        prefix + "."@ + key
    }
}

/// The dead string leaves among the first `n` members, depth first, in member order.
pub open spec fn dead_scan(env: DeadEnv, ms: Seq<(Seq<char>, JsonTree)>, namespace: Seq<char>, prefix: Seq<char>, n: int) -> Seq<
    (Seq<char>, Seq<char>, Seq<char>),
>
    decreases ms, n,
{
    if n <= 0 || n > ms.len() {
        Seq::empty()
    } else {
        let before = dead_scan(env, ms, namespace, prefix, n - 1);
        let path = dotted(prefix, ms[n - 1].0);
        match ms[n - 1].1 {
            JsonTree::Object(o) => before + dead_in(env, o, namespace, path),
            JsonTree::Str(_) => if is_dead(env, namespace, path) {
                before.push((env.file_path, path, namespace))
            } else {
                before
            },
            _ => before,
        }
    }
}

/// The dead string leaves of an object.
pub open spec fn dead_in(env: DeadEnv, ms: Seq<(Seq<char>, JsonTree)>, namespace: Seq<char>, prefix: Seq<char>) -> Seq<
    (Seq<char>, Seq<char>, Seq<char>),
>
    decreases ms, ms.len() + 1,
{
    dead_scan(env, ms, namespace, prefix, ms.len() as int)
}

/// What a dead-key scan reads, held for the walk.
struct DeadCtx {
    extracted: Vec<String>,
    roots: Vec<String>,
    namespace_less: bool,
    preserve_context_variants: bool,
    context_separator: String,
    file_path: String,
}

/// The content of a scan context.
spec fn dead_env(c: DeadCtx) -> DeadEnv {
    DeadEnv {
        extracted: views(c.extracted@),
        roots: views(c.roots@),
        namespace_less: c.namespace_less,
        preserve_context_variants: c.preserve_context_variants,
        context_separator: c.context_separator@,
        file_path: c.file_path@,
    }
}

/// Whether an identifier falls under one of the roots.
fn under_root_exec(id: &[char], roots: &Vec<String>) -> (r: bool)
    ensures
        r == under_root(id@, views(roots@)),
{
    let mut i: usize = 0;
    while i < roots.len()
        invariant
            i <= roots@.len(),
            forall|j: int| 0 <= j < i ==> !(id@ == #[trigger] views(roots@)[j] || starts_with(id@, views(roots@)[j] + "."@)),
        decreases roots.len() - i,
    {
        let r = chars_of(roots[i].as_str());
        assert(views(roots@)[i as int] == r@);
        if crate::text::seq_eq(id, &r) || starts_with_exec(id, &concat2(&r, &chars_of("."))) {
            return true;
        }
        i = i + 1;
    }
    false
}

/// Adds the dead string leaves of an object to `out` (see [`dead_in`]).
fn find_dead_keys_in_object(
    ms: &Vec<(String, JsonValue)>,
    namespace: &str,
    prefix: &[char],
    cx: &DeadCtx,
    out: &mut Vec<DeadKey>,
)
    ensures
        dead_views(final(out)@) == dead_views(old(out)@) + dead_in(dead_env(*cx), entries_of(ms@), namespace@, prefix@),
    decreases ms,
{
    proof {
        lemma_entries_of(ms@);
    }
    let ghost es = entries_of(ms@);
    let ghost env = dead_env(*cx);
    let ghost start = dead_views(out@);
    assert(dead_views(out@) =~= start + dead_scan(env, es, namespace@, prefix@, 0));
    let mut i: usize = 0;
    while i < ms.len()
        invariant
            i <= ms@.len(),
            es == entries_of(ms@),
            es.len() == ms@.len(),
            env == dead_env(*cx),
            forall|j: int| 0 <= j < ms@.len() ==> #[trigger] es[j] == (ms@[j].0@, tree_of(ms@[j].1)),
            dead_views(out@) == start + dead_scan(env, es, namespace@, prefix@, i as int),
        decreases ms.len() - i,
    {
        let k = chars_of(ms[i].0.as_str());
        let path = if prefix.len() == 0 {
            k
        } else {
            concat3(prefix, &chars_of("."), &k)
        };
        assert(path@ == dotted(prefix@, es[i as int].0));
        let ghost before = dead_views(out@);
        match &ms[i].1 {
            JsonValue::Object(nested) => {
                proof {
                    assert(decreases_to!(*ms => ms@));
                    assert(decreases_to!(ms@ => ms@[i as int]));
                    assert(decreases_to!(ms@[i as int] => ms@[i as int].1));
                    assert(decreases_to!(ms@[i as int].1 => (ms@[i as int].1)->Object_0));
                }
                find_dead_keys_in_object(nested, namespace, &path, cx, out);
                assert(dead_views(out@) =~= start + dead_scan(env, es, namespace@, prefix@, i as int + 1));
            },
            JsonValue::Str(_) => {
                let path_s = string_of(&path);
                let id = format_key_id(namespace, path_s.as_str(), cx.namespace_less);
                let dead = !holds(&cx.extracted, &id) && !under_root_exec(&chars_of(id.as_str()), &cx.roots) && !(
                cx.preserve_context_variants && is_covered_by_context_variant(
                    namespace,
                    path_s.as_str(),
                    &cx.extracted,
                    cx.namespace_less,
                    cx.context_separator.as_str(),
                ));
                assert(dead == is_dead(env, namespace@, path@));
                if dead {
                    let d = DeadKey { file_path: cx.file_path.clone(), key_path: path_s, namespace: string_of(&chars_of(namespace)) };
                    out.push(d);
                    assert(dead_views(out@) =~= before.push(dead_view(d)));
                }
            },
            _ => {},
        }
        i = i + 1;
    }
}

/// The identifiers of the extracted keys and of their object roots (keys ending in `.*`,
/// the root being what precedes that ending).
pub open spec fn key_index(keys: Seq<KeyView>, default_namespace: Seq<char>, namespace_less: bool, n: int) -> (Seq<Seq<char>>, Seq<Seq<char>>)
    decreases n,
{
    if n <= 0 {
        (Seq::empty(), Seq::empty())
    } else {
        let (ex, roots) = key_index(keys, default_namespace, namespace_less, n - 1);
        let k = keys[n - 1];
        let ns = match k.namespace {
            Some(n) => n,
            None => default_namespace,
        };
        if ends_with(k.key, ".*"@) {
            (ex, roots.push(key_id(ns, k.key.take(k.key.len() - 2), namespace_less)))
        } else {
            (ex.push(key_id(ns, k.key, namespace_less)), roots)
        }
    }
}

/// A locale file's name without its extension (`Path::file_stem`).
pub open spec fn file_stem(path: Seq<char>) -> Seq<char> {
    let name = file_name(path);
    match extension_of(name) {
        Some(e) => name.take(name.len() - e.len() - 1),
        None => name,
    }
}

/// The extension of a name is a suffix after a dot.
proof fn lemma_extension_of(name: Seq<char>)
    ensures
        extension_of(name) matches Some(e) ==> e.len() + 1 <= name.len(),
    decreases name.len(),
{
    if name.len() > 1 && name.last() != '.' {
        lemma_extension_of(name.drop_last());
    }
}

/// The last component of a path.
pub(crate) fn file_name_exec(path: &[char]) -> (r: Vec<char>)
    ensures
        r@ == file_name(path@),
{
    let n = path.len();
    let mut start: usize = n;
    assert(path@.take(n as int) =~= path@);
    assert(file_name(path@) =~= file_name(path@.take(n as int)) + path@.subrange(n as int, n as int));
    while start > 0 && path[start - 1] != '/'
        invariant
            start <= n,
            n == path@.len(),
            file_name(path@) == file_name(path@.take(start as int)) + path@.subrange(start as int, n as int),
        decreases start,
    {
        proof {
            let t = path@.take(start as int);
            assert(t.drop_last() =~= path@.take(start as int - 1));
            assert(path@.subrange(start as int - 1, n as int) =~= seq![t.last()] + path@.subrange(start as int, n as int));
            assert(file_name(t) == file_name(t.drop_last()).push(t.last()));
            assert(file_name(t.drop_last()).push(t.last()) + path@.subrange(start as int, n as int) =~= file_name(t.drop_last()) + path@.subrange(start as int - 1, n as int));
        }
        start = start - 1;
    }
    proof {
        let t = path@.take(start as int);
        if start > 0 {
            assert(t.last() == '/');
        }
        assert(file_name(t) =~= Seq::<char>::empty());
    }
    let r = slice_vec(path, start, n);
    assert(r@ =~= file_name(path@));
    r
}

/// The namespace a locale file holds: its name without the extension.
pub fn file_stem_of(path: &str) -> (r: String)
    ensures
        r@ == file_stem(path@),
{
    let p = chars_of(path);
    let name = file_name_exec(&p);
    match path_extension(&p) {
        Some(e) => {
            proof {
                lemma_extension_of(file_name(p@));
            }
            string_of(&slice_vec(&name, 0, name.len() - e.len() - 1))
        },
        None => string_of(&name),
    }
}

/// A locale file to scan: its path (a `.json` file of the locale's directory) and text.
#[derive(Debug, Clone)]
pub struct LocaleText {
    pub path: String,
    pub content: String,
}

/// A locale file whose text is not JSON, with its path.
#[derive(Debug, Clone)]
pub struct DeadKeyError {
    pub file_path: String,
}

/// The dead keys of one file of the merged-namespaces layout: each top-level member is a
/// namespace, scanned as an object; a top-level string is dead unless `namespace:` (the
/// namespace and an empty key) is extracted.
pub open spec fn merged_scan(env: DeadEnv, ms: Seq<(Seq<char>, JsonTree)>, n: int) -> Seq<(Seq<char>, Seq<char>, Seq<char>)>
    decreases n,
{
    if n <= 0 || n > ms.len() {
        Seq::empty()
    } else {
        let before = merged_scan(env, ms, n - 1);
        let ns = ms[n - 1].0;
        match ms[n - 1].1 {
            JsonTree::Object(o) => before + dead_in(env, o, ns, Seq::empty()),
            JsonTree::Str(_) => if !env.extracted.contains(key_id(ns, Seq::empty(), env.namespace_less)) {
                before.push((env.file_path, ns, ns))
            } else {
                before
            },
            _ => before,
        }
    }
}

/// The dead keys of one locale file: none for blank text or JSON that is not an object;
/// with merged namespaces (and namespaces in use), per top-level namespace; otherwise
/// under the namespace the file's name gives.
pub open spec fn file_dead_keys(env: DeadEnv, content: Seq<char>, stem: Seq<char>, merge_namespaces: bool) -> Option<
    Seq<(Seq<char>, Seq<char>, Seq<char>)>,
> {
    if is_blank(content) {
        Some(Seq::empty())
    } else {
        match serde_json_parse(content) {
            None => None,
            Some(JsonTree::Object(ms)) => if merge_namespaces && !env.namespace_less {
                Some(merged_scan(env, ms, ms.len() as int))
            } else {
                Some(dead_in(env, ms, stem, Seq::empty()))
            },
            Some(_) => Some(Seq::empty()),
        }
    }
}

/// The dead keys of the first `n` files, or the index of the first file that is not JSON.
pub open spec fn files_dead_keys(
    ex: Seq<Seq<char>>,
    roots: Seq<Seq<char>>,
    namespace_less: bool,
    merge_namespaces: bool,
    preserve: bool,
    sep: Seq<char>,
    files: Seq<LocaleText>,
    n: int,
) -> Result<Seq<(Seq<char>, Seq<char>, Seq<char>)>, int>
    decreases n,
{
    if n <= 0 {
        Ok(Seq::empty())
    } else {
        match files_dead_keys(ex, roots, namespace_less, merge_namespaces, preserve, sep, files, n - 1) {
            Err(i) => Err(i),
            Ok(before) => {
                let f = files[n - 1];
                let env = DeadEnv {
                    extracted: ex,
                    roots,
                    namespace_less,
                    preserve_context_variants: preserve,
                    context_separator: sep,
                    file_path: f.path@,
                };
                match file_dead_keys(env, f.content@, file_stem(f.path@), merge_namespaces) {
                    None => Err(n - 1),
                    Some(d) => Ok(before + d),
                }
            },
        }
    }
}

/// Once a file is not JSON, the scan of every longer prefix reports that file.
proof fn lemma_files_dead_err(
    ex: Seq<Seq<char>>,
    roots: Seq<Seq<char>>,
    namespace_less: bool,
    merge_namespaces: bool,
    preserve: bool,
    sep: Seq<char>,
    files: Seq<LocaleText>,
    n: int,
    i: int,
)
    requires
        0 <= n <= files.len(),
        files_dead_keys(ex, roots, namespace_less, merge_namespaces, preserve, sep, files, n) == Err::<Seq<(Seq<char>, Seq<char>, Seq<char>)>, int>(i),
    ensures
        files_dead_keys(ex, roots, namespace_less, merge_namespaces, preserve, sep, files, files.len() as int) == Err::<Seq<(Seq<char>, Seq<char>, Seq<char>)>, int>(i),
    decreases files.len() - n,
{
    if n < files.len() {
        lemma_files_dead_err(ex, roots, namespace_less, merge_namespaces, preserve, sep, files, n + 1, i);
    }
}

/// Finds the keys of a locale's JSON files that no extracted key names (see
/// [`file_dead_keys`]), file by file in the order given; stops at the first file that is
/// not JSON.
pub fn find_dead_keys(
    files: &[LocaleText],
    extracted_keys: &[ExtractedKey],
    default_namespace: &str,
    namespace_less_mode: bool,
    merge_namespaces: bool,
    preserve_context_variants: bool,
    context_separator: &str,
) -> (r: Result<Vec<DeadKey>, DeadKeyError>)
    ensures
        ({
            let (ex, roots) = key_index(key_views(extracted_keys@), default_namespace@, namespace_less_mode, extracted_keys@.len() as int);
            let expected = files_dead_keys(ex, roots, namespace_less_mode, merge_namespaces, preserve_context_variants, context_separator@, files@, files@.len() as int);
            match r {
                Ok(d) => expected == Ok::<Seq<(Seq<char>, Seq<char>, Seq<char>)>, int>(dead_views(d@)),
                Err(e) => expected matches Err(i) && 0 <= i < files@.len() && e.file_path@ == files@[i].path@,
            }
        }),
{
    let ghost kv = key_views(extracted_keys@);
    let mut extracted: Vec<String> = Vec::new();
    let mut roots: Vec<String> = Vec::new();
    let mut i: usize = 0;
    while i < extracted_keys.len()
        invariant
            i <= extracted_keys@.len(),
            kv == key_views(extracted_keys@),
            (views(extracted@), views(roots@)) == key_index(kv, default_namespace@, namespace_less_mode, i as int),
        decreases extracted_keys.len() - i,
    {
        let k = &extracted_keys[i];
        assert(kv[i as int] == k@);
        let ns: &str = match &k.namespace {
            Some(n) => n.as_str(),
            None => default_namespace,
        };
        let kc = chars_of(k.key.as_str());
        proof {
            reveal_strlit(".*");
        }
        if ends_with_exec(&kc, &chars_of(".*")) {
            let root = slice_vec(&kc, 0, kc.len() - 2);
            let ghost before = views(roots@);
            let id = format_key_id(ns, string_of(&root).as_str(), namespace_less_mode);
            roots.push(id);
            assert(views(roots@) =~= before.push(id@));
        } else {
            let ghost before = views(extracted@);
            let id = format_key_id(ns, k.key.as_str(), namespace_less_mode);
            extracted.push(id);
            assert(views(extracted@) =~= before.push(id@));
        }
        i = i + 1;
    }
    let ghost ex = views(extracted@);
    let ghost rs = views(roots@);
    let mut out: Vec<DeadKey> = Vec::new();
    let mut cx = DeadCtx {
        extracted,
        roots,
        namespace_less: namespace_less_mode,
        preserve_context_variants,
        context_separator: string_of(&chars_of(context_separator)),
        file_path: string_of(&Vec::new()),
    };
    let mut f: usize = 0;
    assert(dead_views(out@) =~= Seq::<(Seq<char>, Seq<char>, Seq<char>)>::empty());
    while f < files.len()
        invariant
            f <= files@.len(),
            views(cx.extracted@) == ex,
            views(cx.roots@) == rs,
            cx.namespace_less == namespace_less_mode,
            cx.preserve_context_variants == preserve_context_variants,
            cx.context_separator@ == context_separator@,
            kv == key_views(extracted_keys@),
            (ex, rs) == key_index(kv, default_namespace@, namespace_less_mode, extracted_keys@.len() as int),
            files_dead_keys(ex, rs, namespace_less_mode, merge_namespaces, preserve_context_variants, context_separator@, files@, f as int)
                == Ok::<Seq<(Seq<char>, Seq<char>, Seq<char>)>, int>(dead_views(out@)),
        decreases files.len() - f,
    {
        let file = &files[f];
        cx.file_path = file.path.clone();
        let ghost env = dead_env(cx);
        let content = chars_of(file.content.as_str());
        if !is_blank_exec(&content) {
            match parse_json_text(file.content.as_str()) {
                None => {
                    proof {
                        lemma_files_dead_err(ex, rs, namespace_less_mode, merge_namespaces, preserve_context_variants, context_separator@, files@, f as int + 1, f as int);
                    }
                    return Err(DeadKeyError { file_path: file.path.clone() });
                },
                Some(JsonValue::Object(ms)) => {
                    proof {
                        lemma_entries_of(ms@);
                    }
                    if merge_namespaces && !namespace_less_mode {
                        let ghost es = entries_of(ms@);
                        let ghost start = dead_views(out@);
                        assert(dead_views(out@) =~= start + merged_scan(env, es, 0));
                        let mut j: usize = 0;
                        while j < ms.len()
                            invariant
                                j <= ms@.len(),
                                es == entries_of(ms@),
                                es.len() == ms@.len(),
                                env == dead_env(cx),
                                forall|m: int| 0 <= m < ms@.len() ==> #[trigger] es[m] == (ms@[m].0@, tree_of(ms@[m].1)),
                                dead_views(out@) == start + merged_scan(env, es, j as int),
                            decreases ms.len() - j,
                        {
                            let ghost before = dead_views(out@);
                            assert(es[j as int] == (ms@[j as int].0@, tree_of(ms@[j as int].1)));
                            match &ms[j].1 {
                                JsonValue::Object(nested) => {
                                    let empty: Vec<char> = Vec::new();
                                    find_dead_keys_in_object(nested, ms[j].0.as_str(), &empty, &cx, &mut out);
                                    assert(dead_views(out@) =~= start + merged_scan(env, es, j as int + 1));
                                },
                                JsonValue::Str(_) => {
                                    let id = format_key_id(ms[j].0.as_str(), "", cx.namespace_less);
                                    proof {
                                        reveal_strlit("");
                                        assert(""@ =~= Seq::<char>::empty());
                                    }
                                    if !holds(&cx.extracted, &id) {
                                        let d = DeadKey {
                                            file_path: cx.file_path.clone(),
                                            key_path: ms[j].0.clone(),
                                            namespace: ms[j].0.clone(),
                                        };
                                        out.push(d);
                                        assert(dead_views(out@) =~= before.push(dead_view(d)));
                                    }
                                    assert(id@ == key_id(es[j as int].0, Seq::empty(), env.namespace_less));
                                    assert(dead_views(out@) =~= start + merged_scan(env, es, j as int + 1));
                                },
                                _ => {
                                    assert(dead_views(out@) =~= start + merged_scan(env, es, j as int + 1));
                                },
                            }
                            j = j + 1;
                        }
                    } else {
                        let stem = file_stem_of(file.path.as_str());
                        let empty: Vec<char> = Vec::new();
                        find_dead_keys_in_object(&ms, stem.as_str(), &empty, &cx, &mut out);
                    }
                },
                Some(_) => {},
            }
        }
        f = f + 1;
    }
    Ok(out)
}


/// Removing the key path `parts[i..]` from the members: the last part is removed from the
/// object the others lead to (the last member moved into its place); nothing changes when a
/// part is missing or leads to a non-object. Gives the members and whether a key was
/// removed.
pub open spec fn remove_path(es: Seq<(Seq<char>, JsonTree)>, parts: Seq<Seq<char>>, i: int) -> (Seq<(Seq<char>, JsonTree)>, bool)
    decreases parts.len() - i,
{
    if i < 0 || i >= parts.len() {
        (es, false)
    } else if i == parts.len() - 1 {
        (obj_swap_remove(es, parts[i]), find_key(es, parts[i]) is Some)
    } else {
        match obj_get(es, parts[i]) {
            Some(JsonTree::Object(inner)) => {
                let (ni, b) = remove_path(inner, parts, i + 1);
                (obj_set(es, parts[i], JsonTree::Object(ni)), b)
            },
            _ => (es, false),
        }
    }
}

/// Removes `parts[i..]` (see [`remove_path`]).
fn remove_from(es: &mut Vec<(String, JsonValue)>, parts: &Vec<Vec<char>>, i: usize) -> (r: bool)
    requires
        i < parts@.len(),
    ensures
        (entries_of(final(es)@), r) == remove_path(entries_of(old(es)@), crate::text::cviews(parts@), i as int),
    decreases parts@.len() - i,
{
    let ghost pv = crate::text::cviews(parts@);
    let ghost e0 = entries_of(es@);
    assert(pv[i as int] == parts@[i as int]@);
    proof {
        lemma_entries_of(es@);
        lemma_find_key(e0, pv[i as int]);
    }
    if i == parts.len() - 1 {
        let found = find_key_exec(es, &parts[i]);
        match found {
            Some(j) => {
                es.swap_remove(j);
                proof {
                    lemma_entries_of(es@);
                    assert(entries_of(es@) =~= e0.update(j as int, e0.last()).drop_last());
                }
                true
            },
            None => false,
        }
    } else {
        match find_key_exec(es, &parts[i]) {
            Some(j) => {
                assert(obj_get(e0, pv[i as int]) == Some(tree_of(es@[j as int].1)));
                let (name, val) = es.remove(j);
                match val {
                    JsonValue::Object(mut inner) => {
                        let b = remove_from(&mut inner, parts, i + 1);
                        let ghost ni = entries_of(inner@);
                        es.insert(j, (name, JsonValue::Object(inner)));
                        proof {
                            lemma_entries_of(es@);
                            assert(entries_of(es@) =~= e0.update(j as int, (pv[i as int], JsonTree::Object(ni))));
                        }
                        b
                    },
                    other => {
                        es.insert(j, (name, other));
                        proof {
                            lemma_entries_of(es@);
                            assert(entries_of(es@) =~= e0);
                        }
                        false
                    },
                }
            },
            None => false,
        }
    }
}

/// Removes a dot-separated key path from an object; tells whether a key was removed (see
/// [`remove_path`]).
pub fn remove_nested_key(obj: &mut Vec<(String, JsonValue)>, key_path: &str) -> (r: bool)
    ensures
        (entries_of(final(obj)@), r) == remove_path(entries_of(old(obj)@), split(key_path@, "."@), 0),
{
    let dot = chars_of(".");
    proof {
        reveal_strlit(".");
    }
    let parts = split_exec(&chars_of(key_path), &dot);
    assert(crate::text::cviews(parts@) =~= parts@.map_values(|v: Vec<char>| v@));
    if parts.len() == 0 {
        return false;
    }
    remove_from(obj, &parts, 0)
}

/// The key paths removed from a file's value, in order, counting those that were there.
pub open spec fn remove_all(es: Seq<(Seq<char>, JsonTree)>, paths: Seq<Seq<char>>, n: int) -> (Seq<(Seq<char>, JsonTree)>, nat)
    decreases n,
{
    if n <= 0 {
        (es, 0)
    } else {
        let (m, c) = remove_all(es, paths, n - 1);
        let (m2, b) = remove_path(m, split(paths[n - 1], "."@), 0);
        (m2, if b { c + 1 } else { c })
    }
}

/// A file's text with dead keys removed, and how many were: for a JSON object, each key
/// path is removed in turn; any other JSON value is kept. The value is written back as
/// pretty JSON with a final line break. `None` when the text is not JSON.
pub open spec fn purged(content: Seq<char>, paths: Seq<Seq<char>>) -> Option<(Seq<char>, nat)> {
    match serde_json_parse(content) {
        None => None,
        Some(JsonTree::Object(ms)) => {
            let (m, c) = remove_all(ms, paths, paths.len() as int);
            Some((pretty(m) + "\n"@, c))
        },
        Some(t) => Some((render(t, "  "@, "\n"@, true, 0) + "\n"@, 0)),
    }
}

/// Removes dead keys from one locale file's text (see [`purged`]); `None` when the text is
/// not JSON.
pub fn purge_file(content: &str, key_paths: &[String]) -> (r: Option<(String, usize)>)
    ensures
        match r {
            Some((text, count)) => purged(content@, views(key_paths@)) == Some((text@, count as nat)),
            None => purged(content@, views(key_paths@)) is None,
        },
{
    let ghost pv = views(key_paths@);
    let layout = Layout { indent: chars_of("  "), newline: chars_of("\n"), compact_empty: true };
    match parse_json_text(content) {
        None => None,
        Some(JsonValue::Object(mut ms)) => {
            let ghost m0 = entries_of(ms@);
            let mut count: usize = 0;
            let mut i: usize = 0;
            while i < key_paths.len()
                invariant
                    i <= key_paths@.len(),
                    pv == views(key_paths@),
                    count <= i,
                    (entries_of(ms@), count as nat) == remove_all(m0, pv, i as int),
                decreases key_paths.len() - i,
            {
                assert(pv[i as int] == key_paths@[i as int]@);
                if remove_nested_key(&mut ms, key_paths[i].as_str()) {
                    count = count + 1;
                }
                i = i + 1;
            }
            let v = JsonValue::Object(ms);
            let text = render_json(&v, &layout);
            Some((string_of(&concat2(&text, &chars_of("\n"))), count))
        },
        Some(v) => {
            let text = render_json(&v, &layout);
            Some((string_of(&concat2(&text, &chars_of("\n"))), 0))
        },
    }
}

/// The files of a list of dead keys, each once, in order of first appearance.
pub open spec fn dead_files(dead: Seq<(Seq<char>, Seq<char>, Seq<char>)>, n: int) -> Seq<Seq<char>>
    decreases n,
{
    if n <= 0 {
        Seq::empty()
    } else if dead_files(dead, n - 1).contains(dead[n - 1].0) {
        dead_files(dead, n - 1)
    } else {
        dead_files(dead, n - 1).push(dead[n - 1].0)
    }
}

/// The key paths of the dead keys of one file, in order.
pub open spec fn paths_in(dead: Seq<(Seq<char>, Seq<char>, Seq<char>)>, file: Seq<char>, n: int) -> Seq<Seq<char>>
    decreases n,
{
    if n <= 0 {
        Seq::empty()
    } else if dead[n - 1].0 == file {
        paths_in(dead, file, n - 1).push(dead[n - 1].1)
    } else {
        paths_in(dead, file, n - 1)
    }
}

/// Groups dead keys by file: each file once, in order of first appearance, with the key
/// paths to remove from it, in order.
pub fn group_dead_keys(dead_keys: &[DeadKey]) -> (r: Vec<(String, Vec<String>)>)
    ensures
        r@.map_values(|g: (String, Vec<String>)| g.0@) == dead_files(dead_views(dead_keys@), dead_keys@.len() as int),
        forall|g: int| 0 <= g < r@.len() ==> views(#[trigger] r@[g].1@) == paths_in(dead_views(dead_keys@), r@[g].0@, dead_keys@.len() as int),
{
    let ghost dv = dead_views(dead_keys@);
    let mut groups: Vec<(String, Vec<String>)> = Vec::new();
    let mut i: usize = 0;
    while i < dead_keys.len()
        invariant
            i <= dead_keys@.len(),
            dv == dead_views(dead_keys@),
            groups@.map_values(|g: (String, Vec<String>)| g.0@) == dead_files(dv, i as int),
            forall|g: int| 0 <= g < groups@.len() ==> views(#[trigger] groups@[g].1@) == paths_in(dv, groups@[g].0@, i as int),
        decreases dead_keys.len() - i,
    {
        let d = &dead_keys[i];
        assert(dv[i as int] == dead_view(*d));
        let ghost names = groups@.map_values(|g: (String, Vec<String>)| g.0@);
        let mut g: usize = 0;
        while g < groups.len() && groups[g].0 != d.file_path
            invariant
                g <= groups@.len(),
                names == groups@.map_values(|g: (String, Vec<String>)| g.0@),
                forall|h: int| 0 <= h < g ==> groups@[h].0@ != d.file_path@,
            decreases groups.len() - g,
        {
            g = g + 1;
        }
        if g < groups.len() {
            assert(names[g as int] == d.file_path@);
            assert(names.contains(d.file_path@));
            let (name, mut paths) = groups.remove(g);
            let ghost p0 = views(paths@);
            paths.push(d.key_path.clone());
            assert(views(paths@) =~= p0.push(d.key_path@));
            groups.insert(g, (name, paths));
            proof {
                assert(groups@.map_values(|g: (String, Vec<String>)| g.0@) =~= names);
                assert forall|h: int| 0 <= h < groups@.len() implies views(#[trigger] groups@[h].1@) == paths_in(dv, groups@[h].0@, i as int + 1) by {
                    if h != g {
                        assert(groups@[h].0@ != d.file_path@) by {
                            if groups@[h].0@ == d.file_path@ {
                                lemma_dead_files_distinct(dv, i as int);
                                assert(names[h] == names[g as int]);
                            }
                        }
                    }
                }
            }
        } else {
            assert(!names.contains(d.file_path@)) by {
                if names.contains(d.file_path@) {
                    let h = choose|h: int| 0 <= h < names.len() && names[h] == d.file_path@;
                    assert(groups@[h].0@ == d.file_path@);
                }
            }
            let ghost before = groups@;
            let mut paths: Vec<String> = Vec::new();
            paths.push(d.key_path.clone());
            groups.push((d.file_path.clone(), paths));
            proof {
                assert(groups@.map_values(|g: (String, Vec<String>)| g.0@) =~= names.push(d.file_path@));
                lemma_paths_in_absent(dv, d.file_path@, i as int);
                assert(views(paths@) =~= seq![d.key_path@]);
                assert forall|h: int| 0 <= h < groups@.len() implies views(#[trigger] groups@[h].1@) == paths_in(dv, groups@[h].0@, i as int + 1) by {
                    if h < before.len() {
                        assert(groups@[h] == before[h]);
                        assert(names[h] == before[h].0@);
                    }
                }
            }
        }
        i = i + 1;
    }
    groups
}

/// The files of a dead-key list are distinct.
proof fn lemma_dead_files_distinct(dead: Seq<(Seq<char>, Seq<char>, Seq<char>)>, n: int)
    ensures
        dead_files(dead, n).no_duplicates(),
    decreases n,
{
    if n > 0 {
        lemma_dead_files_distinct(dead, n - 1);
    }
}

/// A file not among the first `n` entries has no paths there, and, once it appears, it is
/// among the files.
proof fn lemma_paths_in_absent(dead: Seq<(Seq<char>, Seq<char>, Seq<char>)>, file: Seq<char>, n: int)
    requires
        !dead_files(dead, n).contains(file),
    ensures
        paths_in(dead, file, n) == Seq::<Seq<char>>::empty(),
    decreases n,
{
    if n > 0 {
        if dead[n - 1].0 == file {
            if dead_files(dead, n - 1).contains(dead[n - 1].0) {
            } else {
                assert(dead_files(dead, n)[dead_files(dead, n).len() - 1] == file);
            }
        }
        assert(!dead_files(dead, n - 1).contains(file)) by {
            if dead_files(dead, n - 1).contains(file) {
                let prev = dead_files(dead, n - 1);
                let k = choose|k: int| 0 <= k < prev.len() && #[trigger] prev[k] == file;
                if !dead_files(dead, n - 1).contains(dead[n - 1].0) {
                    assert(dead_files(dead, n)[k] == file);
                }
            }
        }
        lemma_paths_in_absent(dead, file, n - 1);
    }
}

} // verus!
