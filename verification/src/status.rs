//! Translation progress of a locale: which extracted keys it holds, which it lacks.
use crate::cleanup::{dead_view, file_stem, file_stem_of, key_id, DeadKey, LocaleText};
use crate::extractor::path_extension;
use crate::json::{entries_of, lemma_entries_of, parse_json_text, serde_json_parse, tree_of, JsonTree, JsonValue};
use crate::keys::{key_views, ExtractedKey, KeyView};
use crate::locale::member_path;
use crate::components::{decimal, decimal_exec};
use crate::text::{append_chars, chars_of, concat3, cviews, seq_eq, string_of, views};
use crate::typegen::{insert_unique, is_json_path, strictly_sorted};
use vstd::prelude::*;

verus! {

/// Whether a namespace passes the namespace filter.
pub open spec fn passes(filter: Option<Seq<char>>, ns: Seq<char>) -> bool {
    match filter {
        Some(f) => f == ns,
        None => true,
    }
}

/// The names of the first `n` extracted keys whose namespace (the default one when they
/// have none) passes the filter.
pub open spec fn source_names(keys: Seq<KeyView>, default_ns: Seq<char>, filter: Option<Seq<char>>, namespace_less: bool, n: int) -> Set<
    Seq<char>,
>
    decreases n,
{
    if n <= 0 || n > keys.len() {
        Set::empty()
    } else {
        let k = keys[n - 1];
        let ns = match k.namespace {
            Some(x) => x,
            None => default_ns,
        };
        if passes(filter, ns) {
            source_names(keys, default_ns, filter, namespace_less, n - 1).insert(key_id(ns, k.key, namespace_less))
        } else {
            source_names(keys, default_ns, filter, namespace_less, n - 1)
        }
    }
}

/// The names of the string leaves of a locale value, each at its dotted path below
/// `prefix`.
pub open spec fn leaf_names(t: JsonTree, ns: Seq<char>, prefix: Seq<char>, namespace_less: bool) -> Set<Seq<char>>
    decreases t, 0int,
{
    match t {
        JsonTree::Object(ms) => members_leaf_names(ms, ns, prefix, namespace_less, ms.len() as int),
        JsonTree::Str(_) => set![key_id(ns, prefix, namespace_less)],
        _ => Set::empty(),
    }
}

/// The leaf names of the first `n` members (see [`leaf_names`]).
pub open spec fn members_leaf_names(
    ms: Seq<(Seq<char>, JsonTree)>,
    ns: Seq<char>,
    prefix: Seq<char>,
    namespace_less: bool,
    n: int,
) -> Set<Seq<char>>
    decreases ms, n,
{
    if n <= 0 || n > ms.len() {
        Set::empty()
    } else {
        members_leaf_names(ms, ns, prefix, namespace_less, n - 1) + leaf_names(
            ms[n - 1].1,
            ns,
            member_path(prefix, "."@, ms[n - 1].0),
            namespace_less,
        )
    }
}

/// The names of the keys the first `n` locale files hold: files progress reads, whose
/// namespace (the file's stem) passes the filter, that are not blank and hold JSON (others
/// are passed over).
pub open spec fn locale_names(files: Seq<LocaleText>, filter: Option<Seq<char>>, namespace_less: bool, n: int) -> Set<Seq<char>>
    decreases n,
{
    if n <= 0 || n > files.len() {
        Set::empty()
    } else {
        let f = files[n - 1];
        let before = locale_names(files, filter, namespace_less, n - 1);
        let ns = file_stem(f.path@);
        if !is_json_path(f.path@) || !passes(filter, ns) || crate::text::is_blank(f.content@) {
            before
        } else {
            match serde_json_parse(f.content@) {
                Some(t) => before + leaf_names(t, ns, Seq::empty(), namespace_less),
                None => before,
            }
        }
    }
}

/// Whether a locale file is one progress reads (see [`is_json_path`]): only `.json` files.
pub fn is_progress_file(path: &str) -> (r: bool)
    ensures
        r == is_json_path(path@),
{
    match path_extension(&chars_of(path)) {
        Some(e) => {
            proof {
                reveal_strlit("json");
            }
            seq_eq(&e, &chars_of("json"))
        },
        None => false,
    }
}

/// A namespace passes the filter (see [`passes`]).
fn passes_exec(filter: Option<&str>, ns: &[char]) -> (r: bool)
    ensures
        r == passes(match filter { Some(f) => Some(f@), None => None }, ns@),
{
    match filter {
        Some(f) => seq_eq(&chars_of(f), ns),
        None => true,
    }
}

/// How progress names a key: the key alone without namespaces, else `namespace:key` (see
/// [`key_id`]).
fn status_name_exec(ns: &[char], key: &[char], namespace_less: bool) -> (r: Vec<char>)
    ensures
        r@ == key_id(ns@, key@, namespace_less),
{
    if namespace_less {
        crate::text::slice_vec(key, 0, key.len())
    } else {
        concat3(ns, &chars_of(":"), key)
    }
}

/// The names of the extracted keys that pass the namespace filter (see [`source_names`]),
/// sorted, each once.
pub fn progress_source_names(
    keys: &[ExtractedKey],
    default_ns: &str,
    filter: Option<&str>,
    namespace_less: bool,
) -> (r: Vec<String>)
    ensures
        strictly_sorted(views(r@)),
        views(r@).to_set() == source_names(
            key_views(keys@),
            default_ns@,
            match filter { Some(f) => Some(f@), None => None },
            namespace_less,
            keys@.len() as int,
        ),
{
    let ghost fv = match filter {
        Some(f) => Some(f@),
        None => None,
    };
    let ghost kv = key_views(keys@);
    let mut out: Vec<Vec<char>> = Vec::new();
    assert(cviews(out@).to_set() =~= Set::empty());
    let mut i: usize = 0;
    while i < keys.len()
        invariant
            i <= keys@.len(),
            kv == key_views(keys@),
            fv == match filter { Some(f) => Some(f@), None => None },
            strictly_sorted(cviews(out@)),
            cviews(out@).to_set() == source_names(kv, default_ns@, fv, namespace_less, i as int),
        decreases keys.len() - i,
    {
        let k = &keys[i];
        assert(kv[i as int] == k@);
        let ns = match &k.namespace {
            Some(x) => chars_of(x.as_str()),
            None => chars_of(default_ns),
        };
        if passes_exec(filter, &ns) {
            let name = status_name_exec(&ns, &chars_of(k.key.as_str()), namespace_less);
            insert_unique(&mut out, name);
        }
        i = i + 1;
    }
    crate::text::strings_of(&out)
}

/// Adds the leaf names of a value below `prefix` (see [`leaf_names`]).
fn collect_leaf_names(v: &JsonValue, ns: &[char], prefix: &[char], namespace_less: bool, out: &mut Vec<Vec<char>>)
    requires
        strictly_sorted(cviews(old(out)@)),
    ensures
        strictly_sorted(cviews(final(out)@)),
        cviews(final(out)@).to_set() == cviews(old(out)@).to_set() + leaf_names(v@, ns@, prefix@, namespace_less),
    decreases v,
{
    match v {
        JsonValue::Object(members) => {
            let ghost es = entries_of(members@);
            let ghost s0 = cviews(out@).to_set();
            proof {
                lemma_entries_of(members@);
            }
            assert(s0 + members_leaf_names(es, ns@, prefix@, namespace_less, 0) =~= s0);
            let mut i: usize = 0;
            while i < members.len()
                invariant
                    i <= members@.len(),
                    es == entries_of(members@),
                    es.len() == members@.len(),
                    forall|j: int| 0 <= j < members@.len() ==> #[trigger] es[j] == (members@[j].0@, tree_of(members@[j].1)),
                    strictly_sorted(cviews(out@)),
                    cviews(out@).to_set() == s0 + members_leaf_names(es, ns@, prefix@, namespace_less, i as int),
                    *v == JsonValue::Object(*members),
                decreases members.len() - i,
            {
                proof {
                    assert(decreases_to!(*v => v->Object_0));
                    assert(decreases_to!(v->Object_0 => v->Object_0@));
                    assert(decreases_to!(v->Object_0@ => v->Object_0@[i as int]));
                    assert(decreases_to!(v->Object_0@[i as int] => v->Object_0@[i as int].1));
                    assert(es[i as int] == (members@[i as int].0@, tree_of(members@[i as int].1)));
                    reveal_strlit(".");
                }
                let k = chars_of(members[i].0.as_str());
                let path = if prefix.len() == 0 {
                    k
                } else {
                    concat3(prefix, &chars_of("."), &k)
                };
                let ghost before = cviews(out@).to_set();
                collect_leaf_names(&members[i].1, ns, &path, namespace_less, out);
                assert(cviews(out@).to_set() =~= s0 + members_leaf_names(es, ns@, prefix@, namespace_less, i as int + 1));
                i = i + 1;
            }
        },
        JsonValue::Str(_) => {
            let name = status_name_exec(ns, prefix, namespace_less);
            insert_unique(out, name);
            assert(cviews(out@).to_set() =~= cviews(old(out)@).to_set() + leaf_names(v@, ns@, prefix@, namespace_less));
        },
        _ => {
            assert(cviews(out@).to_set() =~= cviews(old(out)@).to_set() + leaf_names(v@, ns@, prefix@, namespace_less));
        },
    }
}

/// The names of the keys the locale files hold (see [`locale_names`]), sorted, each once.
pub fn progress_locale_names(files: &[LocaleText], filter: Option<&str>, namespace_less: bool) -> (r: Vec<String>)
    ensures
        strictly_sorted(views(r@)),
        views(r@).to_set() == locale_names(
            files@,
            match filter { Some(f) => Some(f@), None => None },
            namespace_less,
            files@.len() as int,
        ),
{
    let ghost fv = match filter {
        Some(f) => Some(f@),
        None => None,
    };
    let mut out: Vec<Vec<char>> = Vec::new();
    assert(cviews(out@).to_set() =~= Set::empty());
    let mut i: usize = 0;
    while i < files.len()
        invariant
            i <= files@.len(),
            fv == match filter { Some(f) => Some(f@), None => None },
            strictly_sorted(cviews(out@)),
            cviews(out@).to_set() == locale_names(files@, fv, namespace_less, i as int),
        decreases files.len() - i,
    {
        let f = &files[i];
        let ns = chars_of(file_stem_of(f.path.as_str()).as_str());
        if is_progress_file(f.path.as_str()) && passes_exec(filter, &ns) && !crate::text::is_blank_exec(&chars_of(f.content.as_str())) {
            match parse_json_text(f.content.as_str()) {
                Some(v) => {
                    let empty: Vec<char> = Vec::new();
                    collect_leaf_names(&v, &ns, &empty, namespace_less, &mut out);
                },
                None => {},
            }
        }
        i = i + 1;
    }
    crate::text::strings_of(&out)
}

/// How many of the first `n` names are missing from a set.
pub open spec fn missing_count(names: Seq<Seq<char>>, held: Set<Seq<char>>, n: int) -> nat
    decreases n,
{
    if n <= 0 || n > names.len() {
        0
    } else if held.contains(names[n - 1]) {
        missing_count(names, held, n - 1)
    } else {
        missing_count(names, held, n - 1) + 1
    }
}

/// Progress of a locale: how many key names the sources use, how many of them the locale
/// lacks, how many it has, and whether anything is missing or dead.
#[derive(Debug, Clone, Copy)]
pub struct StatusReport {
    pub total: usize,
    pub missing: usize,
    pub completed: usize,
    pub incomplete: bool,
}

/// Progress from the source key names, the locale's key names and the number of dead keys:
/// the names missing from the locale are counted (see [`missing_count`]).
pub fn status_report(source: &[String], locale: &[String], dead: usize) -> (r: StatusReport)
    ensures
        r.total == source@.len(),
        r.missing == missing_count(views(source@), views(locale@).to_set(), source@.len() as int),
        r.completed == r.total - r.missing,
        r.incomplete == (r.missing > 0 || dead > 0),
{
    let ghost held = views(locale@).to_set();
    let mut missing: usize = 0;
    let mut i: usize = 0;
    while i < source.len()
        invariant
            i <= source@.len(),
            held == views(locale@).to_set(),
            missing == missing_count(views(source@), held, i as int),
            missing <= i,
        decreases source.len() - i,
    {
        assert(views(source@)[i as int] == source@[i as int]@);
        if !crate::text::strings_contain(locale, &chars_of(source[i].as_str())) {
            missing = missing + 1;
        }
        i = i + 1;
    }
    StatusReport { total: source.len(), missing, completed: source.len() - missing, incomplete: missing > 0 || dead > 0 }
}

/// Counting the names of a list without repeats that a set lacks counts the set difference.
pub proof fn lemma_missing_is_difference(names: Seq<Seq<char>>, held: Set<Seq<char>>, n: int)
    requires
        names.no_duplicates(),
        0 <= n <= names.len(),
    ensures
        missing_count(names, held, n) == names.take(n).to_set().difference(held).len(),
    decreases n,
{
    if n == 0 {
        assert(names.take(0).to_set().difference(held) =~= Set::empty());
    } else {
        lemma_missing_is_difference(names, held, n - 1);
        let x = names[n - 1];
        let before = names.take(n - 1).to_set().difference(held);
        assert(names.take(n).to_set() =~= names.take(n - 1).to_set().insert(x)) by {
            assert(names.take(n) =~= names.take(n - 1).push(x));
            names.take(n - 1).lemma_push_to_set_commute(x);
        }
        assert(!names.take(n - 1).to_set().contains(x)) by {
            if names.take(n - 1).to_set().contains(x) {
                let j = choose|j: int| 0 <= j < names.take(n - 1).len() && #[trigger] names.take(n - 1)[j] == x;
                assert(names[j] == names[n - 1]);
            }
        }
        if held.contains(x) {
            assert(names.take(n).to_set().difference(held) =~= before);
        } else {
            assert(names.take(n).to_set().difference(held) =~= before.insert(x));
        }
    }
}

/// The progress of a locale counts, as missing, exactly the source key names the locale
/// does not hold, when the source names come without repeats (as
/// [`progress_source_names`] gives them).
pub proof fn lemma_status_missing(source: Seq<Seq<char>>, held: Set<Seq<char>>)
    requires
        strictly_sorted(source),
    ensures
        missing_count(source, held, source.len() as int) == source.to_set().difference(held).len(),
{
    assert(source.no_duplicates()) by {
        assert forall|i: int, j: int| 0 <= i < source.len() && 0 <= j < source.len() && i != j implies source[i] != source[j] by {
            if i < j {
                crate::locale::lemma_text_lt_asym(source[i], source[j]);
            } else {
                crate::locale::lemma_text_lt_asym(source[j], source[i]);
            }
        }
    }
    lemma_missing_is_difference(source, held, source.len() as int);
    assert(source.take(source.len() as int) =~= source);
}

/// How many of the first `n` dead keys are in a namespace passing the filter.
pub open spec fn dead_count(dead: Seq<(Seq<char>, Seq<char>, Seq<char>)>, filter: Option<Seq<char>>, n: int) -> nat
    decreases n,
{
    if n <= 0 || n > dead.len() {
        0
    } else if passes(filter, dead[n - 1].2) {
        dead_count(dead, filter, n - 1) + 1
    } else {
        dead_count(dead, filter, n - 1)
    }
}

/// The number of dead keys in namespaces passing the filter (see [`dead_count`]).
pub fn dead_in_namespace(dead: &[DeadKey], filter: Option<&str>) -> (r: usize)
    ensures
        r == dead_count(dead@.map_values(|d: DeadKey| dead_view(d)), match filter { Some(f) => Some(f@), None => None }, dead@.len() as int),
{
    let ghost dv = dead@.map_values(|d: DeadKey| dead_view(d));
    let mut n: usize = 0;
    let mut i: usize = 0;
    while i < dead.len()
        invariant
            i <= dead@.len(),
            dv == dead@.map_values(|d: DeadKey| dead_view(d)),
            n == dead_count(dv, match filter { Some(f) => Some(f@), None => None }, i as int),
            n <= i,
        decreases dead.len() - i,
    {
        assert(dv[i as int] == dead_view(dead@[i as int]));
        if passes_exec(filter, &chars_of(dead[i].namespace.as_str())) {
            n = n + 1;
        }
        i = i + 1;
    }
    n
}

/// Why a progress run fails, if it does: keys missing or dead, when asked to fail then.
pub open spec fn status_failure(missing: nat, dead: nat, fail_on_incomplete: bool) -> Option<Seq<char>> {
    if fail_on_incomplete && (missing > 0 || dead > 0) {
        Some("Translations are incomplete: "@ + decimal(missing) + " missing, "@ + decimal(dead) + " dead (--fail-on-incomplete enabled)"@)
    } else {
        None
    }
}

/// Decides whether a progress run fails (see [`status_failure`]).
pub fn status_verdict(report: &StatusReport, dead: usize, fail_on_incomplete: bool) -> (r: Option<String>)
    ensures
        match r {
            Some(m) => status_failure(report.missing as nat, dead as nat, fail_on_incomplete) == Some(m@),
            None => status_failure(report.missing as nat, dead as nat, fail_on_incomplete) is None,
        },
{
    if fail_on_incomplete && (report.missing > 0 || dead > 0) {
        let mut out = chars_of("Translations are incomplete: ");
        append_chars(&mut out, &decimal_exec(report.missing));
        append_chars(&mut out, &chars_of(" missing, "));
        append_chars(&mut out, &decimal_exec(dead));
        append_chars(&mut out, &chars_of(" dead (--fail-on-incomplete enabled)"));
        Some(string_of(&out))
    } else {
        None
    }
}

} // verus!
