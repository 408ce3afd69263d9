//! Locale files: their layout, and merging extracted keys into their contents.
use crate::text::{chars_of, contains, contains_exec, ends_with, ends_with_exec, is_blank, lemma_skip_ws_bounds, seq_eq, skip_ws, skip_ws_exec, slice_vec, split, split_exec, string_of, trim, trim_exec, trim_start};
use crate::json::{json5_parse, parse_json5_text, parse_json_text, render, render_json, serde_json_parse, Layout, clone_json, compact, compact_json, entries_of, find_key, find_key_exec, get_path, lemma_entries_of, lemma_find_key, obj_get, obj_get_exec, obj_set, obj_set_exec, tree_of, JsonTree, JsonValue};
use crate::batch::{all_compile, ignored, matches_ignore_path};
use crate::config::{glob_check, glob_pattern_error, Config, OutputFormat};
use crate::keys::{key_views, opt_view, ExtractedKey, KeyView};
use crate::text::{concat2, concat3, join, views};
use crate::rename::{replace_all, replace_all_exec};
use vstd::prelude::*;

verus! {

/// The layout of an existing JSON locale file.
#[derive(Debug, Clone)]
pub struct JsonStyle {
    /// One level of indentation (such as two spaces, four spaces, or a tab).
    pub indent: String,
    /// Whether lines end with CRLF.
    pub use_crlf: bool,
    /// Whether the file ends with a line break.
    pub trailing_newline: bool,
}

impl Default for JsonStyle {
    /// Two-space indentation, LF line ends, a final line break.
    fn default() -> (r: Self)
        ensures
            r.indent@ == "  "@,
            !r.use_crlf,
            r.trailing_newline,
    {
        JsonStyle { indent: string_of(&chars_of("  ")), use_crlf: false, trailing_newline: true }
    }
}

/// The indentation a line shows: its leading whitespace, when the line is neither blank
/// nor a lone `{` or `[`, starts (after that whitespace) with `"`, `}` or `]`, and is
/// indented at all.
pub open spec fn line_indent(l: Seq<char>) -> Option<Seq<char>> {
    let t = trim(l);
    let ts = trim_start(l);
    if t.len() == 0 || t == "{"@ || t == "["@ {
        None
    } else if ts.len() > 0 && (ts[0] == '"' || ts[0] == '}' || ts[0] == ']') && skip_ws(l, 0) > 0 {
        Some(l.take(skip_ws(l, 0)))
    } else {
        None
    }
}

/// The indentation of the first line, from index `i` on, that shows one.
pub open spec fn first_indent(lines: Seq<Seq<char>>, i: int) -> Option<Seq<char>>
    decreases lines.len() - i,
{
    if i < 0 || i >= lines.len() {
        None
    } else {
        match line_indent(lines[i]) {
            Some(p) => Some(p),
            None => first_indent(lines, i + 1),
        }
    }
}

/// The indentation a file's text shows, two spaces when no line shows one.
pub open spec fn detected_indent(content: Seq<char>) -> Seq<char> {
    match first_indent(split(content, "\n"@), 0) {
        Some(p) => p,
        None => "  "@,
    }
}

/// The indentation a line shows (see [`line_indent`]).
fn line_indent_exec(l: &[char]) -> (r: Option<Vec<char>>)
    ensures
        match r {
            Some(p) => line_indent(l@) == Some(p@),
            None => line_indent(l@) is None,
        },
{
    let t = trim_exec(l);
    if t.len() == 0 || seq_eq(&t, &chars_of("{")) || seq_eq(&t, &chars_of("[")) {
        return None;
    }
    let a = skip_ws_exec(l, 0);
    proof {
        lemma_skip_ws_bounds(l@, 0);
    }
    if a < l.len() && (l[a] == '"' || l[a] == '}' || l[a] == ']') && a > 0 {
        assert(trim_start(l@)[0] == l@[a as int]);
        Some(slice_vec(l, 0, a))
    } else {
        None
    }
}

/// Reads the layout of a JSON file's text: CRLF when it holds one, a final line break when
/// it ends with one, and the indentation of its first indented member line (see
/// [`detected_indent`]).
pub fn detect_json_style(content: &str) -> (r: JsonStyle)
    ensures
        r.use_crlf == contains(content@, "\r\n"@),
        r.trailing_newline == ends_with(content@, "\n"@),
        r.indent@ == detected_indent(content@),
{
    let c = chars_of(content);
    let use_crlf = contains_exec(&c, &chars_of("\r\n"));
    let trailing_newline = ends_with_exec(&c, &chars_of("\n"));
    let nl = chars_of("\n");
    proof {
        reveal_strlit("\n");
    }
    let lines = split_exec(&c, &nl);
    let ghost lv = lines@.map_values(|v: Vec<char>| v@);
    let mut i: usize = 0;
    while i < lines.len()
        invariant
            i <= lines@.len(),
            lv == lines@.map_values(|v: Vec<char>| v@),
            lv == split(c@, "\n"@),
            first_indent(lv, 0) == first_indent(lv, i as int),
            c@ == content@,
            use_crlf == contains(content@, "\r\n"@),
            trailing_newline == ends_with(content@, "\n"@),
        decreases lines.len() - i,
    {
        assert(lv[i as int] == lines@[i as int]@);
        match line_indent_exec(&lines[i]) {
            Some(p) => {
                return JsonStyle { indent: string_of(&p), use_crlf, trailing_newline };
            },
            None => {},
        }
        i = i + 1;
    }
    JsonStyle { indent: string_of(&chars_of("  ")), use_crlf, trailing_newline }
}

/// A key that could not be written because the file's data has another shape at its path.
#[derive(Debug, Clone)]
pub enum KeyConflict {
    /// A nested key whose path runs through a value that is not an object.
    ValueIsNotObject {
        /// The path up to that value, dot-joined.
        key_path: String,
        /// The value's compact JSON text.
        existing_value: String,
    },
    /// A key whose place already holds an object.
    ObjectIsValue {
        /// The key's path, dot-joined.
        key_path: String,
    },
}

/// The mathematical content of a [`KeyConflict`].
pub enum ConflictView {
    ValueIsNotObject(Seq<char>, Seq<char>),
    ObjectIsValue(Seq<char>),
}

/// The content of a conflict.
pub open spec fn conflict_view(c: KeyConflict) -> ConflictView {
    match c {
        KeyConflict::ValueIsNotObject { key_path, existing_value } => ConflictView::ValueIsNotObject(key_path@, existing_value@),
        KeyConflict::ObjectIsValue { key_path } => ConflictView::ObjectIsValue(key_path@),
    }
}

/// The message that describes a conflict.
pub open spec fn conflict_message(c: ConflictView) -> Seq<char> {
    match c {
        ConflictView::ValueIsNotObject(p, v) => "Cannot create nested key at '"@ + p + "': existing value is '"@ + v + "' (not an object)"@,
        ConflictView::ObjectIsValue(p) => "Cannot set scalar value at '"@ + p + "': path contains nested objects"@,
    }
}

impl KeyConflict {
    /// The message that describes the conflict (see [`conflict_message`]).
    pub fn message(&self) -> (r: String)
        ensures
            r@ == conflict_message(conflict_view(*self)),
    {
        let mut out: Vec<char> = Vec::new();
        match self {
            KeyConflict::ValueIsNotObject { key_path, existing_value } => {
                crate::text::append_chars(&mut out, &chars_of("Cannot create nested key at '"));
                crate::text::append_chars(&mut out, &chars_of(key_path.as_str()));
                crate::text::append_chars(&mut out, &chars_of("': existing value is '"));
                crate::text::append_chars(&mut out, &chars_of(existing_value.as_str()));
                crate::text::append_chars(&mut out, &chars_of("' (not an object)"));
            },
            KeyConflict::ObjectIsValue { key_path } => {
                crate::text::append_chars(&mut out, &chars_of("Cannot set scalar value at '"));
                crate::text::append_chars(&mut out, &chars_of(key_path.as_str()));
                crate::text::append_chars(&mut out, &chars_of("': path contains nested objects"));
            },
        }
        string_of(&out)
    }
}

/// What inserting a nested key did.
#[derive(Debug, Clone)]
pub enum InsertResult {
    /// The key was added.
    Added,
    /// The key was there already; nothing changed.
    Existed,
    /// The data has another shape at the key's path; nothing changed.
    Conflict(KeyConflict),
}

/// The mathematical content of an [`InsertResult`].
pub enum InsertView {
    Added,
    Existed,
    Conflict(ConflictView),
}

/// The content of an insert result.
pub open spec fn insert_view(r: InsertResult) -> InsertView {
    match r {
        InsertResult::Added => InsertView::Added,
        InsertResult::Existed => InsertView::Existed,
        InsertResult::Conflict(c) => InsertView::Conflict(conflict_view(c)),
    }
}

/// Inserting the key path `path[i..]` with value `dv` into the members `es`: intermediate
/// objects are created as needed (appended), an existing leaf is kept, and a path that runs
/// through a non-object, or a leaf that is an object, is a conflict. Gives the new members
/// and what happened.
pub open spec fn insert_at(es: Seq<(Seq<char>, JsonTree)>, path: Seq<Seq<char>>, i: int, dv: Seq<char>) -> (
    Seq<(Seq<char>, JsonTree)>,
    InsertView,
)
    decreases path.len() - i,
{
    if i < 0 || i >= path.len() {
        (es, InsertView::Existed)
    } else {
        let k = path[i];
        let kp = join(path.take(i + 1), "."@);
        if i == path.len() - 1 {
            match obj_get(es, k) {
                Some(JsonTree::Object(_)) => (es, InsertView::Conflict(ConflictView::ObjectIsValue(kp))),
                Some(_) => (es, InsertView::Existed),
                None => (obj_set(es, k, JsonTree::Str(dv)), InsertView::Added),
            }
        } else {
            match obj_get(es, k) {
                Some(JsonTree::Object(inner)) => {
                    let (ni, o) = insert_at(inner, path, i + 1, dv);
                    (obj_set(es, k, JsonTree::Object(ni)), o)
                },
                Some(other) => (es, InsertView::Conflict(ConflictView::ValueIsNotObject(kp, compact(other)))),
                None => {
                    let (ni, o) = insert_at(Seq::empty(), path, i + 1, dv);
                    (obj_set(es, k, JsonTree::Object(ni)), o)
                },
            }
        }
    }
}

/// The dot-joined first `n` parts of a key path.
fn path_prefix(path: &[String], n: usize) -> (r: String)
    requires
        n <= path@.len(),
    ensures
        r@ == join(views(path@).take(n as int), "."@),
{
    let mut parts: Vec<Vec<char>> = Vec::new();
    let mut i: usize = 0;
    while i < n
        invariant
            i <= n <= path@.len(),
            crate::text::cviews(parts@) == views(path@).take(i as int),
        decreases n - i,
    {
        let ghost before = crate::text::cviews(parts@);
        parts.push(chars_of(path[i].as_str()));
        assert(crate::text::cviews(parts@) =~= before.push(path@[i as int]@));
        assert(views(path@).take(i as int + 1) =~= views(path@).take(i as int).push(path@[i as int]@));
        i = i + 1;
    }
    string_of(&crate::text::join_exec(&parts, &chars_of(".")))
}

/// Inserts `path[i..]` (see [`insert_at`]).
fn insert_from(es: &mut Vec<(String, JsonValue)>, path: &[String], i: usize, dv: &str) -> (r: InsertResult)
    requires
        i < path@.len(),
    ensures
        (entries_of(final(es)@), insert_view(r)) == insert_at(entries_of(old(es)@), views(path@), i as int, dv@),
    decreases path@.len() - i,
{
    let ghost pv = views(path@);
    let ghost e0 = entries_of(es@);
    let k = chars_of(path[i].as_str());
    assert(pv[i as int] == k@);
    let leaf = i == path.len() - 1;
    proof {
        lemma_entries_of(es@);
        lemma_find_key(e0, k@);
    }
    match find_key_exec(es, &k) {
        Some(j) => {
            assert(obj_get(e0, k@) == Some(tree_of(es@[j as int].1)));
            if leaf {
                match &es[j as usize].1 {
                    JsonValue::Object(_) => InsertResult::Conflict(KeyConflict::ObjectIsValue { key_path: path_prefix(path, i + 1) }),
                    _ => InsertResult::Existed,
                }
            } else {
                let (name, val) = es.remove(j);
                match val {
                    JsonValue::Object(mut inner) => {
                        let ghost iv = entries_of(inner@);
                        let o = insert_from(&mut inner, path, i + 1, dv);
                        let ghost ni = entries_of(inner@);
                        es.insert(j, (name, JsonValue::Object(inner)));
                        proof {
                            lemma_entries_of(es@);
                            lemma_entries_of(old(es)@);
                            assert(entries_of(es@) =~= e0.update(j as int, (k@, JsonTree::Object(ni))));
                        }
                        o
                    },
                    other => {
                        let text = compact_json(&other);
                        let ghost ov = other@;
                        es.insert(j, (name, other));
                        proof {
                            lemma_entries_of(es@);
                            lemma_entries_of(old(es)@);
                            assert(entries_of(es@) =~= e0);
                        }
                        InsertResult::Conflict(KeyConflict::ValueIsNotObject { key_path: path_prefix(path, i + 1), existing_value: string_of(&text) })
                    },
                }
            }
        },
        None => {
            if leaf {
                es.push((path[i].clone(), JsonValue::Str(string_of(&chars_of(dv)))));
                proof {
                    lemma_entries_of(es@);
                    assert(entries_of(es@) =~= e0.push((k@, JsonTree::Str(dv@))));
                }
                InsertResult::Added
            } else {
                let mut inner: Vec<(String, JsonValue)> = Vec::new();
                assert(entries_of(inner@) =~= Seq::<(Seq<char>, JsonTree)>::empty());
                let o = insert_from(&mut inner, path, i + 1, dv);
                let ghost ni = entries_of(inner@);
                es.push((path[i].clone(), JsonValue::Object(inner)));
                proof {
                    lemma_entries_of(es@);
                    assert(entries_of(es@) =~= e0.push((k@, JsonTree::Object(ni))));
                }
                o
            }
        },
    }
}

/// Inserts a nested key path with a default value (see [`insert_at`]); an empty path
/// changes nothing.
pub fn insert_nested_key(obj: &mut Vec<(String, JsonValue)>, path: &[String], default_value: &str) -> (r: InsertResult)
    ensures
        (entries_of(final(obj)@), insert_view(r)) == insert_at(entries_of(old(obj)@), views(path@), 0, default_value@),
{
    if path.len() == 0 {
        return InsertResult::Existed;
    }
    insert_from(obj, path, 0, default_value)
}

/// Reading a member just set gives the value set.
pub proof fn lemma_obj_set_get(es: Seq<(Seq<char>, JsonTree)>, k: Seq<char>, v: JsonTree)
    ensures
        obj_get(obj_set(es, k, v), k) == Some(v),
{
    lemma_find_key(es, k);
    let r = obj_set(es, k, v);
    lemma_find_key(r, k);
    match find_key(es, k) {
        Some(j) => {
            assert(r[j].0 == k);
            if find_key(r, k) != Some(j) {
                let m = find_key(r, k)->0;
                assert(m < j ==> r[m] == es[m]);
            }
        },
        None => {
            assert(r[es.len() as int].0 == k);
            if find_key(r, k) != Some(es.len() as int) {
                let m = find_key(r, k)->0;
                assert(r[m] == es[m]);
            }
        },
    }
}

/// Setting a member to the value it holds changes nothing.
pub proof fn lemma_obj_set_same(es: Seq<(Seq<char>, JsonTree)>, k: Seq<char>, v: JsonTree)
    requires
        obj_get(es, k) == Some(v),
    ensures
        obj_set(es, k, v) == es,
{
    lemma_find_key(es, k);
    let j = find_key(es, k)->0;
    assert(es.update(j, (k, v)) =~= es);
}

/// Inserting a key path into an empty object always adds it.
proof fn lemma_insert_into_empty(path: Seq<Seq<char>>, i: int, dv: Seq<char>)
    requires
        0 <= i < path.len(),
    ensures
        insert_at(Seq::empty(), path, i, dv).1 is Added,
    decreases path.len() - i,
{
    lemma_find_key(Seq::<(Seq<char>, JsonTree)>::empty(), path[i]);
    if i < path.len() - 1 {
        lemma_insert_into_empty(path, i + 1, dv);
    }
}

/// Inserting a key path into an object: when the key is added, reading the path back gives
/// the default value; when it is not (it exists, or the data has another shape on the way),
/// the object is left exactly as it was.
pub proof fn lemma_insert_then_get(es: Seq<(Seq<char>, JsonTree)>, path: Seq<Seq<char>>, i: int, dv: Seq<char>)
    requires
        0 <= i <= path.len(),
    ensures
        insert_at(es, path, i, dv).1 is Added ==> get_path(JsonTree::Object(insert_at(es, path, i, dv).0), path, i) == Some(
            JsonTree::Str(dv),
        ),
        !(insert_at(es, path, i, dv).1 is Added) ==> insert_at(es, path, i, dv).0 == es,
    decreases path.len() - i,
{
    if i < path.len() {
        let k = path[i];
        if i == path.len() - 1 {
            lemma_obj_set_get(es, k, JsonTree::Str(dv));
            assert(get_path(JsonTree::Str(dv), path, i + 1) == Some(JsonTree::Str(dv)));
        } else {
            match obj_get(es, k) {
                Some(JsonTree::Object(inner)) => {
                    lemma_insert_then_get(inner, path, i + 1, dv);
                    let (ni, o) = insert_at(inner, path, i + 1, dv);
                    lemma_obj_set_get(es, k, JsonTree::Object(ni));
                    assert(obj_get(obj_set(es, k, JsonTree::Object(ni)), k) == Some(JsonTree::Object(ni)));
                    if !(o is Added) {
                        lemma_obj_set_same(es, k, JsonTree::Object(inner));
                    }
                },
                Some(_) => {},
                None => {
                    lemma_insert_then_get(Seq::empty(), path, i + 1, dv);
                    lemma_insert_into_empty(path, i + 1, dv);
                    let (ni, o) = insert_at(Seq::empty(), path, i + 1, dv);
                    lemma_obj_set_get(es, k, JsonTree::Object(ni));
                },
            }
        }
    }
}

/// Setting one member leaves the lookup of every other name as it was.
pub proof fn lemma_obj_set_other(es: Seq<(Seq<char>, JsonTree)>, k: Seq<char>, v: JsonTree, q: Seq<char>)
    requires
        q != k,
    ensures
        obj_get(obj_set(es, k, v), q) == obj_get(es, q),
{
    lemma_find_key(es, k);
    lemma_find_key(es, q);
    let r = obj_set(es, k, v);
    lemma_find_key(r, q);
    match find_key(es, q) {
        Some(j) => {
            assert(r[j] == es[j]);
            if find_key(r, q) != Some(j) {
                let m = find_key(r, q)->0;
                assert(r[m] == es[m]);
            }
        },
        None => {
            if find_key(r, q) is Some {
                let m = find_key(r, q)->0;
                assert(r[m] == es[m]);
            }
        },
    }
}

/// Inserting a key path keeps every string already in the object: whatever is read at
/// another path `q` (from part `j`) stays.
pub proof fn lemma_insert_keeps_leaf(
    es: Seq<(Seq<char>, JsonTree)>,
    path: Seq<Seq<char>>,
    i: int,
    dv: Seq<char>,
    q: Seq<Seq<char>>,
    j: int,
    s: Seq<char>,
)
    requires
        0 <= i <= path.len(),
        0 <= j,
        get_path(JsonTree::Object(es), q, j) == Some(JsonTree::Str(s)),
    ensures
        get_path(JsonTree::Object(insert_at(es, path, i, dv).0), q, j) == Some(JsonTree::Str(s)),
    decreases path.len() - i,
{
    let r = insert_at(es, path, i, dv).0;
    if i < path.len() && j < q.len() {
        let k = path[i];
        if q[j] != k {
            if i == path.len() - 1 {
                lemma_obj_set_other(es, k, JsonTree::Str(dv), q[j]);
            } else {
                match obj_get(es, k) {
                    Some(JsonTree::Object(inner)) => {
                        lemma_obj_set_other(es, k, JsonTree::Object(insert_at(inner, path, i + 1, dv).0), q[j]);
                    },
                    Some(_) => {},
                    None => {
                        lemma_obj_set_other(es, k, JsonTree::Object(insert_at(Seq::empty(), path, i + 1, dv).0), q[j]);
                    },
                }
            }
        } else if i < path.len() - 1 {
            match obj_get(es, k) {
                Some(JsonTree::Object(inner)) => {
                    lemma_insert_keeps_leaf(inner, path, i + 1, dv, q, j + 1, s);
                    lemma_obj_set_get(es, k, JsonTree::Object(insert_at(inner, path, i + 1, dv).0));
                },
                _ => {},
            }
        }
    }
}

/// Merging extracted keys into a locale map (before unused entries are pruned) never
/// changes a string it already holds: every translation read at a key path before is read
/// there after.
pub proof fn lemma_merge_keeps_translations(
    ms: MergeSettings,
    members: Seq<(Seq<char>, JsonTree)>,
    keys: Seq<KeyView>,
    n: int,
    q: Seq<Seq<char>>,
    s: Seq<char>,
)
    requires
        0 <= n <= keys.len(),
        get_path(JsonTree::Object(members), q, 0) == Some(JsonTree::Str(s)),
    ensures
        get_path(JsonTree::Object(merge_fold(ms, members, keys, n).members), q, 0) == Some(JsonTree::Str(s)),
    decreases n,
{
    if n > 0 {
        lemma_merge_keeps_translations(ms, members, keys, n - 1, q, s);
        let st = merge_fold(ms, members, keys, n - 1);
        let k = keys[n - 1];
        let value = match k.default_value {
            Some(v) => v,
            None => match ms.fallback_default {
                Some(v) => v,
                None => Seq::empty(),
            },
        };
        if ms.key_separator.len() == 0 {
            if obj_get(st.members, k.key) is None && q.len() > 0 {
                if q[0] != k.key {
                    lemma_obj_set_other(st.members, k.key, JsonTree::Str(value), q[0]);
                }
            }
        } else {
            lemma_insert_keeps_leaf(st.members, split(k.key, ms.key_separator), 0, value, q, 0, s);
        }
    }
}

/// Whether `a` comes before `b` in the order of `String` (code point by code point, a
/// proper prefix first).
pub open spec fn text_lt(a: Seq<char>, b: Seq<char>) -> bool
    decreases a.len(),
{
    if a.len() == 0 {
        b.len() > 0
    } else if b.len() == 0 {
        false
    } else if a[0] != b[0] {
        a[0] < b[0]
    } else {
        text_lt(a.drop_first(), b.drop_first())
    }
}

/// Whether `a` comes before `b` in the order of `String`.
pub fn text_lt_exec(a: &[char], b: &[char]) -> (r: bool)
    ensures
        r == text_lt(a@, b@),
{
    let mut i: usize = 0;
    assert(a@.skip(0) =~= a@);
    assert(b@.skip(0) =~= b@);
    while i < a.len() && i < b.len() && a[i] == b[i]
        invariant
            i <= a@.len(),
            i <= b@.len(),
            text_lt(a@, b@) == text_lt(a@.skip(i as int), b@.skip(i as int)),
        decreases a.len() - i,
    {
        assert(a@.skip(i as int).drop_first() =~= a@.skip(i as int + 1));
        assert(b@.skip(i as int).drop_first() =~= b@.skip(i as int + 1));
        i = i + 1;
    }
    if i == a.len() {
        i < b.len()
    } else if i == b.len() {
        false
    } else {
        a[i] < b[i]
    }
}

/// Members in order of their keys, each inserted after those whose keys do not come after
/// its own (a stable sort by key).
pub open spec fn insert_by_key(s: Seq<(Seq<char>, JsonTree)>, x: (Seq<char>, JsonTree)) -> Seq<(Seq<char>, JsonTree)>
    decreases s.len(),
{
    if s.len() == 0 {
        seq![x]
    } else if text_lt(x.0, s.last().0) {
        insert_by_key(s.drop_last(), x).push(s.last())
    } else {
        s.push(x)
    }
}

/// The members sorted by key, stably.
pub open spec fn sort_by_key(s: Seq<(Seq<char>, JsonTree)>) -> Seq<(Seq<char>, JsonTree)>
    decreases s.len(),
{
    if s.len() == 0 {
        Seq::empty()
    } else {
        insert_by_key(sort_by_key(s.drop_last()), s.last())
    }
}

/// Whether members are in order of their keys.
pub open spec fn keys_sorted(s: Seq<(Seq<char>, JsonTree)>) -> bool {
    forall|i: int, j: int| 0 <= i < j < s.len() ==> !text_lt(#[trigger] s[j].0, #[trigger] s[i].0)
}

/// The deepest level at which objects are sorted when a locale file is written.
pub open spec fn max_sort_depth() -> nat {
    100
}

/// A value with the members of its objects sorted by key, down to nesting level
/// [`max_sort_depth`]; `depth` is the level of the object that holds it.
pub open spec fn sorted_value(t: JsonTree, depth: nat) -> JsonTree
    decreases t, 0nat,
{
    match t {
        JsonTree::Object(ms) => if depth < max_sort_depth() {
            JsonTree::Object(sort_by_key(sorted_values(ms, depth + 1)))
        } else {
            t
        },
        _ => t,
    }
}

/// Members with their values sorted (see [`sorted_value`]).
pub open spec fn sorted_values(ms: Seq<(Seq<char>, JsonTree)>, depth: nat) -> Seq<(Seq<char>, JsonTree)>
    decreases ms, ms.len(),
{
    if ms.len() == 0 {
        Seq::empty()
    } else {
        sorted_values(ms.drop_last(), depth).push((ms.last().0, sorted_value(ms.last().1, depth)))
    }
}

/// The members of a locale map sorted by key at every level (down to
/// [`max_sort_depth`]).
pub open spec fn sorted_map(ms: Seq<(Seq<char>, JsonTree)>) -> Seq<(Seq<char>, JsonTree)> {
    sort_by_key(sorted_values(ms, 0))
}

/// Inserting by key keeps the members sorted and adds exactly the new member.
proof fn lemma_insert_by_key(s: Seq<(Seq<char>, JsonTree)>, x: (Seq<char>, JsonTree))
    requires
        keys_sorted(s),
    ensures
        keys_sorted(insert_by_key(s, x)),
        insert_by_key(s, x).to_multiset() == s.to_multiset().insert(x),
        insert_by_key(s, x).len() == s.len() + 1,
        forall|m: (Seq<char>, JsonTree)| #[trigger] insert_by_key(s, x).contains(m) ==> s.contains(m) || m == x,
    decreases s.len(),
{
    broadcast use vstd::seq_lib::group_to_multiset_ensures;
    broadcast use vstd::multiset::group_multiset_axioms;
    if s.len() == 0 {
        assert(seq![x].to_multiset() =~= Seq::<(Seq<char>, JsonTree)>::empty().to_multiset().insert(x)) by {
            assert(seq![x] =~= Seq::<(Seq<char>, JsonTree)>::empty().push(x));
        }
    } else if text_lt(x.0, s.last().0) {
        let p = s.drop_last();
        assert(keys_sorted(p));
        lemma_insert_by_key(p, x);
        let q = insert_by_key(p, x);
        assert(q.push(s.last()).to_multiset() =~= q.to_multiset().insert(s.last()));
        assert(s =~= p.push(s.last()));
        assert(s.to_multiset() =~= p.to_multiset().insert(s.last()));
        assert forall|i: int, j: int| 0 <= i < j < q.push(s.last()).len() implies !text_lt(
            #[trigger] q.push(s.last())[j].0,
            #[trigger] q.push(s.last())[i].0,
        ) by {
            if j == q.len() {
                let m = q[i];
                assert(q.contains(m));
                if m == x {
                    lemma_text_lt_asym(x.0, s.last().0);
                } else {
                    let k = choose|k: int| 0 <= k < p.len() && p[k] == m;
                    assert(s[k] == m);
                    assert(!text_lt(s[s.len() - 1].0, s[k].0));
                }
            }
        }
        assert forall|m: (Seq<char>, JsonTree)| #[trigger] q.push(s.last()).contains(m) implies s.contains(m) || m == x by {
            let k = choose|k: int| 0 <= k < q.len() + 1 && q.push(s.last())[k] == m;
            if k == q.len() {
                assert(s[s.len() - 1] == m);
            } else {
                assert(q.contains(m));
                if p.contains(m) {
                    let k2 = choose|k2: int| 0 <= k2 < p.len() && p[k2] == m;
                    assert(s[k2] == m);
                }
            }
        }
    } else {
        assert(s.push(x).to_multiset() =~= s.to_multiset().insert(x));
        assert forall|i: int, j: int| 0 <= i < j < s.push(x).len() implies !text_lt(
            #[trigger] s.push(x)[j].0,
            #[trigger] s.push(x)[i].0,
        ) by {
            if j == s.len() && i < s.len() - 1 {
                assert(!text_lt(s[s.len() - 1].0, s[i].0));
                lemma_text_lt_trans_neg(x.0, s[s.len() - 1].0, s[i].0);
            }
        }
        assert forall|m: (Seq<char>, JsonTree)| #[trigger] s.push(x).contains(m) implies s.contains(m) || m == x by {
            let k = choose|k: int| 0 <= k < s.len() + 1 && s.push(x)[k] == m;
            if k < s.len() {
                assert(s[k] == m);
            }
        }
    }
}

/// The order of `String` is asymmetric.
pub proof fn lemma_text_lt_asym(a: Seq<char>, b: Seq<char>)
    ensures
        text_lt(a, b) ==> !text_lt(b, a),
    decreases a.len(),
{
    if a.len() > 0 && b.len() > 0 && a[0] == b[0] {
        lemma_text_lt_asym(a.drop_first(), b.drop_first());
    }
}

/// Not before, then not before, is not before: `!(a < b)` and `!(b < c)` give `!(a < c)`.
pub proof fn lemma_text_lt_trans_neg(a: Seq<char>, b: Seq<char>, c: Seq<char>)
    requires
        !text_lt(a, b),
        !text_lt(b, c),
    ensures
        !text_lt(a, c),
    decreases a.len(),
{
    if a.len() > 0 && b.len() > 0 && c.len() > 0 && a[0] == b[0] && b[0] == c[0] {
        lemma_text_lt_trans_neg(a.drop_first(), b.drop_first(), c.drop_first());
    }
}

/// Sorting by key gives the members in order of their keys, each exactly as often as before.
pub proof fn lemma_sort_by_key(s: Seq<(Seq<char>, JsonTree)>)
    ensures
        keys_sorted(sort_by_key(s)),
        sort_by_key(s).to_multiset() == s.to_multiset(),
    decreases s.len(),
{
    broadcast use vstd::seq_lib::group_to_multiset_ensures;
    if s.len() > 0 {
        lemma_sort_by_key(s.drop_last());
        lemma_insert_by_key(sort_by_key(s.drop_last()), s.last());
        assert(s =~= s.drop_last().push(s.last()));
    }
}

/// Inserting after the last member whose key does not come after the new one's.
proof fn lemma_insert_by_key_at(s: Seq<(Seq<char>, JsonTree)>, x: (Seq<char>, JsonTree), q: int)
    requires
        0 <= q <= s.len(),
        forall|j: int| q <= j < s.len() ==> text_lt(x.0, #[trigger] s[j].0),
        q == 0 || !text_lt(x.0, s[q - 1].0),
    ensures
        insert_by_key(s, x) == s.take(q).push(x) + s.skip(q),
    decreases s.len(),
{
    if s.len() == 0 {
        assert(seq![x] =~= s.take(q).push(x) + s.skip(q));
    } else if q == s.len() {
        assert(s.push(x) =~= s.take(q).push(x) + s.skip(q));
    } else {
        let p = s.drop_last();
        assert(text_lt(x.0, s[s.len() - 1].0));
        assert forall|j: int| q <= j < p.len() implies text_lt(x.0, #[trigger] p[j].0) by {
            assert(p[j] == s[j]);
        }
        if q > 0 {
            assert(p[q - 1] == s[q - 1]);
        }
        lemma_insert_by_key_at(p, x, q);
        assert((p.take(q).push(x) + p.skip(q)).push(s.last()) =~= s.take(q).push(x) + s.skip(q));
    }
}

/// Inserts a member by key (see [`insert_by_key`]).
fn insert_by_key_exec(out: &mut Vec<(String, JsonValue)>, x: (String, JsonValue))
    ensures
        entries_of(final(out)@) == insert_by_key(entries_of(old(out)@), (x.0@, x.1@)),
{
    let ghost s = entries_of(out@);
    let ghost xv = (x.0@, x.1@);
    proof {
        lemma_entries_of(out@);
    }
    let key = chars_of(x.0.as_str());
    let mut p: usize = out.len();
    while p > 0 && text_lt_exec(&key, &chars_of(out[p - 1].0.as_str()))
        invariant
            p <= out@.len(),
            s == entries_of(out@),
            s.len() == out@.len(),
            key@ == xv.0,
            forall|j: int| 0 <= j < out@.len() ==> #[trigger] s[j] == (out@[j].0@, tree_of(out@[j].1)),
            forall|j: int| p <= j < s.len() ==> text_lt(xv.0, #[trigger] s[j].0),
        decreases p,
    {
        assert(s[p - 1] == (out@[p - 1].0@, tree_of(out@[p - 1].1)));
        p = p - 1;
    }
    proof {
        if p > 0 {
            assert(s[p - 1] == (out@[p - 1].0@, tree_of(out@[p - 1].1)));
        }
        lemma_insert_by_key_at(s, xv, p as int);
    }
    out.insert(p, x);
    proof {
        lemma_entries_of(out@);
        assert(entries_of(out@) =~= s.take(p as int).push(xv) + s.skip(p as int));
    }
}

/// The members of `ms` with their values sorted from `depth` on, sorted by key.
fn sort_members(ms: &Vec<(String, JsonValue)>, depth: usize) -> (r: Vec<(String, JsonValue)>)
    requires
        depth <= max_sort_depth(),
    ensures
        entries_of(r@) == sort_by_key(sorted_values(entries_of(ms@), depth as nat)),
    decreases ms,
{
    proof {
        lemma_entries_of(ms@);
    }
    let ghost es = entries_of(ms@);
    let mut out: Vec<(String, JsonValue)> = Vec::new();
    assert(entries_of(out@) =~= sort_by_key(sorted_values(es.take(0), depth as nat)));
    let mut i: usize = 0;
    while i < ms.len()
        invariant
            i <= ms@.len(),
            depth <= max_sort_depth(),
            es == entries_of(ms@),
            es.len() == ms@.len(),
            forall|j: int| 0 <= j < ms@.len() ==> #[trigger] es[j] == (ms@[j].0@, tree_of(ms@[j].1)),
            entries_of(out@) == sort_by_key(sorted_values(es.take(i as int), depth as nat)),
        decreases ms.len() - i,
    {
        let v = &ms[i].1;
        let sv = match v {
            JsonValue::Object(inner) => if depth < 100 {
                proof {
                    assert(decreases_to!(*ms => ms@));
                    assert(decreases_to!(ms@ => ms@[i as int]));
                    assert(decreases_to!(ms@[i as int] => ms@[i as int].1));
                    assert(decreases_to!(ms@[i as int].1 => (ms@[i as int].1)->Object_0));
                }
                let sorted = sort_members(inner, depth + 1);
                JsonValue::Object(sorted)
            } else {
                clone_json(v)
            },
            _ => clone_json(v),
        };
        assert(sv@ == sorted_value(tree_of(ms@[i as int].1), depth as nat));
        let ghost t = es.take(i as int + 1);
        assert(t.drop_last() =~= es.take(i as int));
        assert(t.last() == es[i as int]);
        let ghost sv_t = sorted_values(t, depth as nat);
        assert(sv_t.drop_last() =~= sorted_values(es.take(i as int), depth as nat));
        insert_by_key_exec(&mut out, (ms[i].0.clone(), sv));
        i = i + 1;
    }
    assert(es.take(ms@.len() as int) =~= es);
    out
}

/// A copy of a locale map with the members of every object sorted by key, down to nesting
/// level 100 (deeper objects are copied as they are).
pub fn sort_keys_alphabetically(map: &Vec<(String, JsonValue)>) -> (r: Vec<(String, JsonValue)>)
    ensures
        entries_of(r@) == sorted_map(entries_of(map@)),
{
    sort_members(map, 0)
}

/// Which stored keys survive pruning although no extracted key names them: glob patterns
/// on the key, and, for patterns that hold the namespace separator, on the namespaced key.
#[derive(Debug, Clone)]
pub struct PreserveMatcher {
    /// Patterns matched against a key.
    pub key_patterns: Vec<String>,
    /// Patterns matched against `namespace` + separator + key.
    pub namespaced_patterns: Vec<String>,
    /// The namespace separator.
    pub ns_separator: String,
}

/// The mathematical content of a [`PreserveMatcher`].
pub struct MatcherView {
    pub key_patterns: Seq<Seq<char>>,
    pub namespaced_patterns: Seq<Seq<char>>,
    pub ns_separator: Seq<char>,
}

impl MatcherView {
    /// Whether the matcher keeps `key` of `namespace`: a key pattern matches the key, or a
    /// namespaced pattern matches namespace, separator and key.
    pub open spec fn keeps(self, namespace: Seq<char>, key: Seq<char>) -> bool {
        ||| ignored(self.key_patterns, key)
        ||| (self.namespaced_patterns.len() > 0 && ignored(self.namespaced_patterns, namespace + self.ns_separator + key))
    }
}

impl View for PreserveMatcher {
    type V = MatcherView;

    open spec fn view(&self) -> MatcherView {
        MatcherView {
            key_patterns: views(self.key_patterns@),
            namespaced_patterns: views(self.namespaced_patterns@),
            ns_separator: self.ns_separator@,
        }
    }
}

/// A preserve pattern that is not a valid glob, with the glob error's text.
#[derive(Debug, Clone)]
pub struct InvalidPreservePattern {
    pub pattern: String,
    pub message: String,
}

/// Whether a preserve pattern is matched against namespaced keys: it holds the
/// (non-empty) namespace separator.
pub open spec fn namespaced_pattern(sep: Seq<char>) -> spec_fn(Seq<char>) -> bool {
    |p: Seq<char>| sep.len() > 0 && contains(p, sep)
}

/// Whether a preserve pattern is matched against bare keys.
pub open spec fn key_pattern(sep: Seq<char>) -> spec_fn(Seq<char>) -> bool {
    |p: Seq<char>| !(sep.len() > 0 && contains(p, sep))
}

impl PreserveMatcher {
    /// Whether every pattern of the matcher compiles.
    pub open spec fn wf(self) -> bool {
        &&& all_compile(views(self.key_patterns@))
        &&& all_compile(views(self.namespaced_patterns@))
    }

    /// Whether the matcher keeps `key` of `namespace`.
    pub open spec fn keeps(self, namespace: Seq<char>, key: Seq<char>) -> bool {
        self@.keeps(namespace, key)
    }

    /// Sorts the preserve patterns: those that hold a non-empty namespace separator are
    /// matched against namespaced keys, the others against keys. A pattern that does not
    /// compile is an error.
    pub fn new(patterns: &[String], ns_separator: &str) -> (r: Result<PreserveMatcher, InvalidPreservePattern>)
        ensures
            match r {
                Ok(m) => m.wf() && m.ns_separator@ == ns_separator@
                    && views(m.key_patterns@) == views(patterns@).filter(key_pattern(ns_separator@))
                    && views(m.namespaced_patterns@) == views(patterns@).filter(namespaced_pattern(ns_separator@)),
                Err(e) => glob_pattern_error(e.pattern@) == Some(e.message@) && views(patterns@).contains(e.pattern@),
            },
            r is Ok <==> all_compile(views(patterns@)),
    {
        let ghost pv = views(patterns@);
        let ghost sep = ns_separator@;
        let ghost is_ns = namespaced_pattern(sep);
        let ghost not_ns = key_pattern(sep);
        let sepc = chars_of(ns_separator);
        let mut key_patterns: Vec<String> = Vec::new();
        let mut namespaced_patterns: Vec<String> = Vec::new();
        let mut i: usize = 0;
        proof {
            reveal(Seq::filter);
        }
        assert(pv.take(0).filter(not_ns) =~= Seq::<Seq<char>>::empty());
        assert(pv.take(0).filter(is_ns) =~= Seq::<Seq<char>>::empty());
        while i < patterns.len()
            invariant
                i <= patterns@.len(),
                pv == views(patterns@),
                sepc@ == sep,
                sep == ns_separator@,
                is_ns == namespaced_pattern(sep),
                not_ns == key_pattern(sep),
                all_compile(pv.take(i as int)),
                all_compile(views(key_patterns@)),
                all_compile(views(namespaced_patterns@)),
                views(key_patterns@) == pv.take(i as int).filter(not_ns),
                views(namespaced_patterns@) == pv.take(i as int).filter(is_ns),
            decreases patterns.len() - i,
        {
            let ghost t = pv.take(i as int + 1);
            assert(t.drop_last() =~= pv.take(i as int));
            assert(t.last() == patterns@[i as int]@);
            match glob_check(patterns[i].as_str()) {
                Some(m) => {
                    assert(pv[i as int] == patterns@[i as int]@);
                    assert(pv.contains(patterns@[i as int]@));
                    proof {
                        assert(!all_compile(pv)) by {
                            assert(glob_pattern_error(pv[i as int]) is Some);
                        }
                    }
                    return Err(InvalidPreservePattern { pattern: patterns[i].clone(), message: m });
                },
                None => {},
            }
            let p = chars_of(patterns[i].as_str());
            let namespaced = sepc.len() > 0 && contains_exec(&p, &sepc);
            assert(is_ns(t.last()) == namespaced);
            assert(not_ns(t.last()) == !namespaced);
            proof {
                reveal(Seq::filter);
            }
            if namespaced {
                let ghost before = views(namespaced_patterns@);
                namespaced_patterns.push(patterns[i].clone());
                assert(views(namespaced_patterns@) =~= before.push(patterns@[i as int]@));
                assert(t.filter(is_ns) == t.drop_last().filter(is_ns).push(t.last()));
                assert(t.filter(not_ns) == t.drop_last().filter(not_ns));
            } else {
                let ghost before = views(key_patterns@);
                key_patterns.push(patterns[i].clone());
                assert(views(key_patterns@) =~= before.push(patterns@[i as int]@));
                assert(t.filter(not_ns) == t.drop_last().filter(not_ns).push(t.last()));
                assert(t.filter(is_ns) == t.drop_last().filter(is_ns));
            }
            assert forall|j: int| 0 <= j < t.len() implies #[trigger] glob_pattern_error(t[j]) is None by {
                if j < i {
                    assert(t[j] == pv.take(i as int)[j]);
                }
            }
            i = i + 1;
        }
        assert(pv.take(patterns@.len() as int) =~= pv);
        Ok(PreserveMatcher { key_patterns, namespaced_patterns, ns_separator: string_of(&sepc) })
    }

    /// Whether the matcher keeps `key` of `namespace` (see [`PreserveMatcher::keeps`]).
    pub fn matches(&self, namespace: &str, key: &str) -> (r: bool)
        requires
            self.wf(),
        ensures
            r == self.keeps(namespace@, key@),
    {
        if matches_ignore_path(key, &self.key_patterns) {
            return true;
        }
        if self.namespaced_patterns.len() == 0 {
            return false;
        }
        let nk = concat3(&chars_of(namespace), &chars_of(self.ns_separator.as_str()), &chars_of(key));
        matches_ignore_path(string_of(&nk).as_str(), &self.namespaced_patterns)
    }
}

/// What syncing extracted keys into one locale file did.
#[derive(Debug)]
pub struct SyncResult {
    pub file_path: String,
    /// The keys added, in order.
    pub added_keys: Vec<String>,
    /// How many of the file's keys were already there.
    pub existing_keys: usize,
    /// Keys skipped because the data has another shape at their path.
    pub conflicts: Vec<KeyConflict>,
    /// The paths of the entries removed as unused.
    pub removed_keys: Vec<String>,
}

/// The settings that merging reads from the configuration.
pub struct MergeSettings {
    pub default_namespace: Seq<char>,
    pub fallback_default: Option<Seq<char>>,
    pub key_separator: Seq<char>,
    pub target_namespace: Seq<char>,
}

/// The merge settings of a configuration, for one target namespace.
pub open spec fn merge_settings(config: Config, target: Seq<char>) -> MergeSettings {
    MergeSettings {
        default_namespace: config.default_namespace@,
        fallback_default: opt_view(config.default_value),
        key_separator: config.key_separator@,
        target_namespace: target,
    }
}

/// The state of a merge: the members so far, the keys added, the count of keys already
/// there, the conflicts, and the keys seen in the target namespace.
pub struct MergeState {
    pub members: Seq<(Seq<char>, JsonTree)>,
    pub added: Seq<Seq<char>>,
    pub existing: nat,
    pub conflicts: Seq<ConflictView>,
    pub seen: Seq<Seq<char>>,
}

/// One key merged: keys of other namespaces are skipped; a new key gets its default value,
/// else the configured one, else the empty string; an existing one is kept.
pub open spec fn merge_step(ms: MergeSettings, st: MergeState, k: KeyView) -> MergeState {
    let ns = match k.namespace {
        Some(n) => n,
        None => ms.default_namespace,
    };
    let value = match k.default_value {
        Some(v) => v,
        None => match ms.fallback_default {
            Some(v) => v,
            None => Seq::empty(),
        },
    };
    if ns != ms.target_namespace {
        st
    } else {
        let seen = st.seen.push(k.key);
        if ms.key_separator.len() == 0 {
            match obj_get(st.members, k.key) {
                Some(JsonTree::Object(_)) => MergeState {
                    conflicts: st.conflicts.push(ConflictView::ObjectIsValue(k.key)),
                    seen,
                    ..st
                },
                Some(_) => MergeState { existing: st.existing + 1, seen, ..st },
                None => MergeState {
                    members: obj_set(st.members, k.key, JsonTree::Str(value)),
                    added: st.added.push(k.key),
                    seen,
                    ..st
                },
            }
        } else {
            let (members, outcome) = insert_at(st.members, split(k.key, ms.key_separator), 0, value);
            match outcome {
                InsertView::Added => MergeState { members, added: st.added.push(k.key), seen, ..st },
                InsertView::Existed => MergeState { members, existing: st.existing + 1, seen, ..st },
                InsertView::Conflict(c) => MergeState { members, conflicts: st.conflicts.push(c), seen, ..st },
            }
        }
    }
}

/// Where a key is read back in a locale map: its whole text as one member when keys are
/// flat (no separator), else its path split on the separator.
pub open spec fn read_key(members: Seq<(Seq<char>, JsonTree)>, key: Seq<char>, sep: Seq<char>) -> Option<JsonTree> {
    if sep.len() == 0 {
        obj_get(members, key)
    } else {
        get_path(JsonTree::Object(members), split(key, sep), 0)
    }
}

/// A key that merging adds is written with the key's own default value when it has one,
/// whatever default the configuration sets; only a key without one gets the configured
/// default, else the empty string.
pub proof fn lemma_added_key_value(ms: MergeSettings, st: MergeState, k: KeyView)
    requires
        merge_step(ms, st, k).added.len() > st.added.len(),
    ensures
        k.default_value matches Some(d) ==> read_key(merge_step(ms, st, k).members, k.key, ms.key_separator) == Some(JsonTree::Str(d)),
        k.default_value is None ==> read_key(merge_step(ms, st, k).members, k.key, ms.key_separator) == Some(
            JsonTree::Str(
                match ms.fallback_default {
                    Some(f) => f,
                    None => Seq::empty(),
                },
            ),
        ),
{
    let value = match k.default_value {
        Some(v) => v,
        None => match ms.fallback_default {
            Some(v) => v,
            None => Seq::<char>::empty(),
        },
    };
    if ms.key_separator.len() == 0 {
        lemma_obj_set_get(st.members, k.key, JsonTree::Str(value));
    } else {
        lemma_insert_then_get(st.members, split(k.key, ms.key_separator), 0, value);
    }
}

/// Merging leaves the state as it was for a key of another namespace than the target (the
/// key's own, else the default namespace).
pub proof fn lemma_other_namespace_untouched(ms: MergeSettings, st: MergeState, k: KeyView)
    requires
        match k.namespace {
            Some(n) => n != ms.target_namespace,
            None => ms.default_namespace != ms.target_namespace,
        },
    ensures
        merge_step(ms, st, k) == st,
{
}

/// The first `n` keys merged into `members`.
pub open spec fn merge_fold(ms: MergeSettings, members: Seq<(Seq<char>, JsonTree)>, keys: Seq<KeyView>, n: int) -> MergeState
    decreases n,
{
    if n <= 0 {
        MergeState { members, added: Seq::empty(), existing: 0, conflicts: Seq::empty(), seen: Seq::empty() }
    } else {
        merge_step(ms, merge_fold(ms, members, keys, n - 1), keys[n - 1])
    }
}

/// The contents of a list of conflicts.
pub open spec fn conflict_views(s: Seq<KeyConflict>) -> Seq<ConflictView> {
    s.map_values(|c: KeyConflict| conflict_view(c))
}

/// Merges the keys of the target namespace into the members (see [`merge_step`]); gives
/// the state after the merge, pruning aside.
fn merge_into(
    existing: &mut Vec<(String, JsonValue)>,
    keys: &[ExtractedKey],
    target_namespace: &str,
    config: &Config,
    added: &mut Vec<String>,
    conflicts: &mut Vec<KeyConflict>,
    seen: &mut Vec<String>,
) -> (count: usize)
    requires
        old(added)@.len() == 0,
        old(conflicts)@.len() == 0,
        old(seen)@.len() == 0,
    ensures
        ({
            let st = merge_fold(merge_settings(*config, target_namespace@), entries_of(old(existing)@), key_views(keys@), keys@.len() as int);
            &&& entries_of(final(existing)@) == st.members
            &&& views(final(added)@) == st.added
            &&& count == st.existing
            &&& conflict_views(final(conflicts)@) == st.conflicts
            &&& views(final(seen)@) == st.seen
        }),
{
    let ghost ms = merge_settings(*config, target_namespace@);
    let ghost e0 = entries_of(existing@);
    let ghost kv = key_views(keys@);
    let target = chars_of(target_namespace);
    let sep = chars_of(config.key_separator.as_str());
    let mut count: usize = 0;
    let mut i: usize = 0;
    while i < keys.len()
        invariant
            i <= keys@.len(),
            count <= i,
            target@ == target_namespace@,
            sep@ == config.key_separator@,
            ms == merge_settings(*config, target_namespace@),
            kv == key_views(keys@),
            ({
                let st = merge_fold(ms, e0, kv, i as int);
                &&& entries_of(existing@) == st.members
                &&& views(added@) == st.added
                &&& count == st.existing
                &&& conflict_views(conflicts@) == st.conflicts
                &&& views(seen@) == st.seen
            }),
        decreases keys.len() - i,
    {
        let k = &keys[i];
        assert(kv[i as int] == k@);
        let ghost st = merge_fold(ms, e0, kv, i as int);
        let in_target = match &k.namespace {
            Some(n) => crate::json::string_is(n, &target),
            None => crate::json::string_is(&config.default_namespace, &target),
        };
        if in_target {
            let value: String = match &k.default_value {
                Some(v) => v.clone(),
                None => match &config.default_value {
                    Some(v) => v.clone(),
                    None => string_of(&Vec::new()),
                },
            };
            let ghost seen0 = views(seen@);
            seen.push(k.key.clone());
            assert(views(seen@) =~= seen0.push(k.key@));
            if sep.len() == 0 {
                let kc = chars_of(k.key.as_str());
                proof {
                    lemma_entries_of(existing@);
                    lemma_find_key(entries_of(existing@), kc@);
                }
                match find_key_exec(existing, &kc) {
                    Some(j) => {
                        let is_obj = match &existing[j].1 {
                            JsonValue::Object(_) => true,
                            _ => false,
                        };
                        if is_obj {
                            let ghost c0 = conflict_views(conflicts@);
                            let c = KeyConflict::ObjectIsValue { key_path: k.key.clone() };
                            conflicts.push(c);
                            assert(conflict_views(conflicts@) =~= c0.push(conflict_view(c)));
                        } else {
                            count = count + 1;
                        }
                    },
                    None => {
                        let ghost a0 = views(added@);
                        crate::json::obj_set_exec(existing, k.key.clone(), JsonValue::Str(value));
                        added.push(k.key.clone());
                        assert(views(added@) =~= a0.push(k.key@));
                    },
                }
            } else {
                let parts = crate::text::split_exec(&chars_of(k.key.as_str()), &sep);
                let mut path: Vec<String> = Vec::new();
                let mut j: usize = 0;
                while j < parts.len()
                    invariant
                        j <= parts@.len(),
                        views(path@) == crate::text::cviews(parts@).take(j as int),
                    decreases parts.len() - j,
                {
                    let ghost p0 = views(path@);
                    path.push(string_of(&parts[j]));
                    assert(views(path@) =~= p0.push(parts@[j as int]@));
                    assert(crate::text::cviews(parts@).take(j as int + 1) =~= crate::text::cviews(parts@).take(j as int).push(parts@[j as int]@));
                    j = j + 1;
                }
                assert(crate::text::cviews(parts@).take(parts@.len() as int) =~= crate::text::cviews(parts@));
                assert(crate::text::cviews(parts@) =~= parts@.map_values(|v: Vec<char>| v@));
                match insert_nested_key(existing, &path, value.as_str()) {
                    InsertResult::Added => {
                        let ghost a0 = views(added@);
                        added.push(k.key.clone());
                        assert(views(added@) =~= a0.push(k.key@));
                    },
                    InsertResult::Existed => {
                        count = count + 1;
                    },
                    InsertResult::Conflict(c) => {
                        let ghost c0 = conflict_views(conflicts@);
                        let ghost cv = conflict_view(c);
                        conflicts.push(c);
                        assert(conflict_views(conflicts@) =~= c0.push(cv));
                    },
                }
            }
        }
        i = i + 1;
    }
    count
}

/// The path of a member under its parent's path: the key alone at the top level or without
/// a separator, else parent, separator, key.
pub open spec fn member_path(parent: Seq<char>, sep: Seq<char>, key: Seq<char>) -> Seq<char> {
    if parent.len() == 0 || sep.len() == 0 {
        key
    } else {
        parent + sep + key
    }
}

/// What pruning reads: the key separator, the namespace, the keys seen, and the preserve
/// matcher.
pub struct PruneEnv {
    pub sep: Seq<char>,
    pub namespace: Seq<char>,
    pub seen: Seq<Seq<char>>,
    pub matcher: MatcherView,
}

/// Whether an entry at `path` is kept: a key seen, or one the matcher preserves.
pub open spec fn kept(env: PruneEnv, path: Seq<char>) -> bool {
    env.seen.contains(path) || env.matcher.keeps(env.namespace, path)
}

/// `es` without the first member named `k`, the last member moved into its place (how a
/// `serde_json` map with preserved order removes an entry).
pub open spec fn obj_swap_remove(es: Seq<(Seq<char>, JsonTree)>, k: Seq<char>) -> Seq<(Seq<char>, JsonTree)> {
    match find_key(es, k) {
        Some(i) => es.update(i, es.last()).drop_last(),
        None => es,
    }
}

/// The members with the listed keys removed one after another.
pub open spec fn remove_listed(es: Seq<(Seq<char>, JsonTree)>, t: Seq<(Seq<char>, Seq<char>)>) -> Seq<(Seq<char>, JsonTree)>
    decreases t.len(),
{
    if t.len() == 0 {
        es
    } else {
        obj_swap_remove(remove_listed(es, t.drop_last()), t.last().0)
    }
}

/// The paths of a removal list.
pub open spec fn listed_paths(t: Seq<(Seq<char>, Seq<char>)>) -> Seq<Seq<char>>
    decreases t.len(),
{
    if t.len() == 0 {
        Seq::empty()
    } else {
        listed_paths(t.drop_last()).push(t.last().1)
    }
}

/// The first `n` members of a node visited: their values pruned (objects), the paths
/// removed below them, and the members of this node to remove (key and path): objects left
/// empty and values, unless kept.
pub open spec fn prune_scan(env: PruneEnv, node: Seq<(Seq<char>, JsonTree)>, parent: Seq<char>, n: int) -> (
    Seq<(Seq<char>, JsonTree)>,
    Seq<Seq<char>>,
    Seq<(Seq<char>, Seq<char>)>,
)
    decreases node, n,
{
    if n <= 0 || n > node.len() {
        (Seq::empty(), Seq::empty(), Seq::empty())
    } else {
        let (u, r, t) = prune_scan(env, node, parent, n - 1);
        let k = node[n - 1].0;
        let path = member_path(parent, env.sep, k);
        match node[n - 1].1 {
            JsonTree::Object(obj) => {
                let (obj2, r2) = prune_node(env, obj, path);
                (
                    u.push((k, JsonTree::Object(obj2))),
                    r + r2,
                    if obj2.len() == 0 && !kept(env, path) { t.push((k, path)) } else { t },
                )
            },
            v => (u.push((k, v)), r, if !kept(env, path) { t.push((k, path)) } else { t }),
        }
    }
}

/// A node pruned: entries that no seen key and no preserve pattern keeps are removed, and
/// so are objects that pruning leaves empty. Gives the members left and the paths removed
/// (those below first, in member order, then this node's own).
pub open spec fn prune_node(env: PruneEnv, node: Seq<(Seq<char>, JsonTree)>, parent: Seq<char>) -> (
    Seq<(Seq<char>, JsonTree)>,
    Seq<Seq<char>>,
)
    decreases node, node.len() + 1,
{
    let (u, r, t) = prune_scan(env, node, parent, node.len() as int);
    (remove_listed(u, t), r + listed_paths(t))
}

/// Whether no two members share a name.
pub open spec fn unique_keys(es: Seq<(Seq<char>, JsonTree)>) -> bool {
    forall|i: int, j: int| 0 <= i < j < es.len() ==> (#[trigger] es[i]).0 != (#[trigger] es[j]).0
}

/// Whether pruning lists member `m` of a node for removal: its path is not kept, and it is
/// not an object, or one that pruning leaves empty.
pub open spec fn listed_member(env: PruneEnv, node: Seq<(Seq<char>, JsonTree)>, parent: Seq<char>, m: int) -> bool {
    let path = member_path(parent, env.sep, node[m].0);
    &&& !kept(env, path)
    &&& match node[m].1 {
        JsonTree::Object(obj) => prune_node(env, obj, path).0.len() == 0,
        _ => true,
    }
}

/// Visiting members keeps their names and order, leaves values that are not objects as
/// they are and prunes objects; an entry is listed for removal only when its path is not
/// kept.
proof fn lemma_prune_scan_shape(env: PruneEnv, node: Seq<(Seq<char>, JsonTree)>, parent: Seq<char>, n: int)
    requires
        0 <= n <= node.len(),
    ensures
        prune_scan(env, node, parent, n).0.len() == n,
        forall|i: int| 0 <= i < n ==> (#[trigger] prune_scan(env, node, parent, n).0[i]).0 == node[i].0,
        forall|i: int| 0 <= i < n && !(node[i].1 is Object) ==> (#[trigger] prune_scan(env, node, parent, n).0[i]).1 == node[i].1,
        forall|t: int| 0 <= t < prune_scan(env, node, parent, n).2.len() ==> !kept(
            env,
            member_path(parent, env.sep, (#[trigger] prune_scan(env, node, parent, n).2[t]).0),
        ),
        forall|i: int| 0 <= i < n && node[i].1 is Object ==> (#[trigger] prune_scan(env, node, parent, n).0[i]).1 == JsonTree::Object(
            prune_node(env, node[i].1->Object_0, member_path(parent, env.sep, node[i].0)).0,
        ),
    decreases n,
{
    if n > 0 {
        lemma_prune_scan_shape(env, node, parent, n - 1);
    }
}

/// No entry listed for removal carries a name whose members pruning does not list.
proof fn lemma_prune_scan_not_listed(env: PruneEnv, node: Seq<(Seq<char>, JsonTree)>, parent: Seq<char>, n: int, k: Seq<char>)
    requires
        0 <= n <= node.len(),
        forall|m: int| 0 <= m < n && (#[trigger] node[m]).0 == k ==> !listed_member(env, node, parent, m),
    ensures
        forall|t: int| 0 <= t < prune_scan(env, node, parent, n).2.len() ==> (#[trigger] prune_scan(env, node, parent, n).2[t]).0 != k,
    decreases n,
{
    if n > 0 {
        lemma_prune_scan_not_listed(env, node, parent, n - 1, k);
        let t0 = prune_scan(env, node, parent, n - 1).2;
        let listed = listed_member(env, node, parent, n - 1);
        assert(prune_scan(env, node, parent, n).2 == if listed {
            t0.push((node[n - 1].0, member_path(parent, env.sep, node[n - 1].0)))
        } else {
            t0
        });
        if listed {
            assert(node[n - 1].0 != k);
        }
    }
}

/// Removing a member of another name from members with distinct names keeps them distinct
/// and leaves the lookup of `k` as it was.
proof fn lemma_swap_remove_other(es: Seq<(Seq<char>, JsonTree)>, k2: Seq<char>, k: Seq<char>)
    requires
        unique_keys(es),
        k2 != k,
    ensures
        unique_keys(obj_swap_remove(es, k2)),
        obj_get(obj_swap_remove(es, k2), k) == obj_get(es, k),
{
    lemma_find_key(es, k2);
    lemma_find_key(es, k);
    let r = obj_swap_remove(es, k2);
    lemma_find_key(r, k);
    match find_key(es, k2) {
        Some(i) => {
            let last = es.len() - 1;
            assert forall|a: int, b: int| 0 <= a < b < r.len() implies (#[trigger] r[a]).0 != (#[trigger] r[b]).0 by {
                let ia = if a == i { last } else { a };
                let ib = if b == i { last } else { b };
                assert(r[a] == es[ia]);
                assert(r[b] == es[ib]);
                if ia < ib {
                    assert(es[ia].0 != es[ib].0);
                } else {
                    assert(es[ib].0 != es[ia].0);
                }
            }
            match find_key(es, k) {
                Some(j) => {
                    let jr = if j == last { i } else { j };
                    assert(r[jr] == es[j]);
                    if find_key(r, k) != Some(jr) {
                        match find_key(r, k) {
                            Some(m) => {
                                let im = if m == i { last } else { m };
                                assert(r[m] == es[im]);
                                assert(es[im].0 == k);
                                if im < j {
                                    assert(es[im].0 != es[j].0);
                                } else if im > j {
                                    assert(es[j].0 != es[im].0);
                                }
                            },
                            None => {},
                        }
                    }
                },
                None => {
                    if find_key(r, k) is Some {
                        let m = find_key(r, k)->0;
                        let im = if m == i { last } else { m };
                        assert(r[m] == es[im]);
                    }
                },
            }
        },
        None => {},
    }
}

/// Removing listed members none of which is named `k` leaves the lookup of `k` as it was.
proof fn lemma_remove_listed_keeps(es: Seq<(Seq<char>, JsonTree)>, t: Seq<(Seq<char>, Seq<char>)>, k: Seq<char>)
    requires
        unique_keys(es),
        forall|i: int| 0 <= i < t.len() ==> (#[trigger] t[i]).0 != k,
    ensures
        unique_keys(remove_listed(es, t)),
        obj_get(remove_listed(es, t), k) == obj_get(es, k),
    decreases t.len(),
{
    if t.len() > 0 {
        lemma_remove_listed_keeps(es, t.drop_last(), k);
        assert(t[t.len() - 1].0 != k);
        lemma_swap_remove_other(remove_listed(es, t.drop_last()), t.last().0, k);
    }
}

/// Pruning unused entries never removes a value whose key is kept (seen among the
/// extracted keys, or preserved by a pattern): in a node whose members have distinct names,
/// a member that is not an object and whose path is kept is still there, unchanged.
pub proof fn lemma_prune_keeps_kept(env: PruneEnv, node: Seq<(Seq<char>, JsonTree)>, parent: Seq<char>, k: Seq<char>, v: JsonTree)
    requires
        unique_keys(node),
        obj_get(node, k) == Some(v),
        !(v is Object),
        kept(env, member_path(parent, env.sep, k)),
    ensures
        obj_get(prune_node(env, node, parent).0, k) == Some(v),
{
    let n = node.len() as int;
    lemma_prune_scan_shape(env, node, parent, n);
    let (u, r, t) = prune_scan(env, node, parent, n);
    lemma_find_key(node, k);
    let i = find_key(node, k)->0;
    assert(u[i] == node[i]);
    assert(unique_keys(u)) by {
        assert forall|a: int, b: int| 0 <= a < b < u.len() implies (#[trigger] u[a]).0 != (#[trigger] u[b]).0 by {
            assert(u[a].0 == node[a].0);
            assert(u[b].0 == node[b].0);
        }
    }
    lemma_find_key(u, k);
    if find_key(u, k) != Some(i) {
        let m = find_key(u, k)->0;
        assert(u[m].0 == node[m].0);
        if m < i {
            assert(node[m].0 != node[i].0);
        }
    }
    assert forall|j: int| 0 <= j < t.len() implies (#[trigger] t[j]).0 != k by {
        assert(!kept(env, member_path(parent, env.sep, t[j].0)));
    }
    lemma_remove_listed_keeps(u, t, k);
}

/// The path of the key path `q` from part `i`, below `parent`.
pub open spec fn joined_path(parent: Seq<char>, sep: Seq<char>, q: Seq<Seq<char>>, i: int) -> Seq<char>
    decreases q.len() - i,
{
    if i < 0 || i >= q.len() {
        parent
    } else {
        joined_path(member_path(parent, sep, q[i]), sep, q, i + 1)
    }
}

/// Whether the objects along the key path `q` (from part `i`) have members with distinct
/// names.
pub open spec fn unique_along(node: Seq<(Seq<char>, JsonTree)>, q: Seq<Seq<char>>, i: int) -> bool
    decreases q.len() - i,
{
    &&& unique_keys(node)
    &&& (0 <= i < q.len() - 1 ==> match obj_get(node, q[i]) {
        Some(JsonTree::Object(inner)) => unique_along(inner, q, i + 1),
        _ => true,
    })
}

/// Pruning unused entries keeps every translation whose full key is kept: reading the key
/// path `q` (from part `i`) after pruning gives the same value as before, when that value is
/// not an object, its dotted path is seen among the extracted keys or preserved by a
/// pattern, and the objects along the way have members with distinct names.
pub proof fn lemma_prune_keeps_translation(
    env: PruneEnv,
    node: Seq<(Seq<char>, JsonTree)>,
    parent: Seq<char>,
    q: Seq<Seq<char>>,
    i: int,
    v: JsonTree,
)
    requires
        0 <= i < q.len(),
        unique_along(node, q, i),
        get_path(JsonTree::Object(node), q, i) == Some(v),
        !(v is Object),
        kept(env, joined_path(parent, env.sep, q, i)),
    ensures
        get_path(JsonTree::Object(prune_node(env, node, parent).0), q, i) == Some(v),
    decreases q.len() - i,
{
    let k = q[i];
    let path = member_path(parent, env.sep, k);
    if i == q.len() - 1 {
        assert(joined_path(path, env.sep, q, i + 1) == path);
        assert(get_path(v, q, i + 1) == Some(v));
        assert(obj_get(node, k) == Some(v)) by {
            match obj_get(node, k) {
                Some(x) => {
                    assert(get_path(x, q, i + 1) == Some(x));
                },
                None => {},
            }
        }
        lemma_prune_keeps_kept(env, node, parent, k, v);
    } else {
        let inner = obj_get(node, k)->Some_0->Object_0;
        assert(obj_get(node, k) == Some(JsonTree::Object(inner))) by {
            match obj_get(node, k) {
                Some(JsonTree::Object(_)) => {},
                Some(x) => {
                    assert(get_path(x, q, i + 1) is None);
                },
                None => {},
            }
        }
        lemma_prune_keeps_translation(env, inner, path, q, i + 1, v);
        let pruned = prune_node(env, inner, path).0;
        assert(pruned.len() > 0) by {
            if pruned.len() == 0 {
                lemma_find_key(pruned, q[i + 1]);
            }
        }
        let n = node.len() as int;
        lemma_prune_scan_shape(env, node, parent, n);
        let (u, r, t) = prune_scan(env, node, parent, n);
        lemma_find_key(node, k);
        let j = find_key(node, k)->0;
        assert(u[j] == (k, JsonTree::Object(pruned)));
        assert(unique_keys(u)) by {
            assert forall|a: int, b: int| 0 <= a < b < u.len() implies (#[trigger] u[a]).0 != (#[trigger] u[b]).0 by {
                assert(u[a].0 == node[a].0);
                assert(u[b].0 == node[b].0);
            }
        }
        lemma_find_key(u, k);
        if find_key(u, k) != Some(j) {
            let m = find_key(u, k)->0;
            assert(u[m].0 == node[m].0);
            if m < j {
                assert(node[m].0 != node[j].0);
            }
        }
        assert forall|m: int| 0 <= m < n && (#[trigger] node[m]).0 == k implies !listed_member(env, node, parent, m) by {
            if m < j {
                assert(node[m].0 != node[j].0);
            } else if m > j {
                assert(node[j].0 != node[m].0);
            }
        }
        lemma_prune_scan_not_listed(env, node, parent, n, k);
        lemma_remove_listed_keeps(u, t, k);
    }
}

/// What pruning reads, held for the walk.
struct PruneCtx {
    sep: Vec<char>,
    namespace: String,
    seen: Vec<String>,
    matcher: PreserveMatcher,
}

/// The content of a pruning context.
spec fn prune_env(c: PruneCtx) -> PruneEnv {
    PruneEnv { sep: c.sep@, namespace: c.namespace@, seen: views(c.seen@), matcher: c.matcher@ }
}

/// Whether a list of strings holds a text.
fn holds_text(v: &Vec<String>, t: &[char]) -> (r: bool)
    ensures
        r == views(v@).contains(t@),
{
    let mut i: usize = 0;
    while i < v.len()
        invariant
            i <= v@.len(),
            forall|j: int| 0 <= j < i ==> views(v@)[j] != t@,
        decreases v.len() - i,
    {
        assert(views(v@)[i as int] == v@[i as int]@);
        if crate::json::string_is(&v[i], t) {
            return true;
        }
        i = i + 1;
    }
    false
}

/// Removes the first member named `k`, moving the last member into its place.
fn swap_remove_key(es: &mut Vec<(String, JsonValue)>, k: &[char])
    ensures
        entries_of(final(es)@) == obj_swap_remove(entries_of(old(es)@), k@),
{
    proof {
        lemma_entries_of(es@);
        lemma_find_key(entries_of(es@), k@);
    }
    match find_key_exec(es, k) {
        Some(j) => {
            es.swap_remove(j);
            proof {
                lemma_entries_of(es@);
                let e0 = entries_of(old(es)@);
                assert(entries_of(es@) =~= e0.update(j as int, e0.last()).drop_last());
            }
        },
        None => {},
    }
}

/// Prunes a node (see [`prune_node`]), adding the removed paths to `removed`.
fn prune_members(node: Vec<(String, JsonValue)>, parent: &[char], cx: &PruneCtx, removed: &mut Vec<String>) -> (r: Vec<
    (String, JsonValue),
>)
    requires
        cx.matcher.wf(),
    ensures
        entries_of(r@) == prune_node(prune_env(*cx), entries_of(node@), parent@).0,
        views(final(removed)@) == views(old(removed)@) + prune_node(prune_env(*cx), entries_of(node@), parent@).1,
    decreases entries_of(node@),
{
    let ghost env = prune_env(*cx);
    let ghost es = entries_of(node@);
    let ghost orig = node;
    proof {
        lemma_entries_of(node@);
    }
    let ghost r0 = views(removed@);
    let mut source = node;
    let n = source.len();
    let mut rest: Vec<(String, JsonValue)> = Vec::new();
    while source.len() > 0
        invariant
            n == orig@.len(),
            source@.len() + rest@.len() == n,
            forall|j: int| 0 <= j < source@.len() ==> #[trigger] source@[j] == orig@[j],
            forall|j: int| 0 <= j < rest@.len() ==> #[trigger] rest@[j] == orig@[n - 1 - j],
        decreases source.len(),
    {
        let x = source.pop().unwrap();
        rest.push(x);
    }
    let mut out: Vec<(String, JsonValue)> = Vec::new();
    let mut to_remove: Vec<(String, String)> = Vec::new();
    let mut i: usize = 0;
    while i < n
        invariant
            n == orig@.len(),
            i <= n,
            rest@.len() == n - i,
            forall|j: int| 0 <= j < n - i ==> #[trigger] rest@[j] == orig@[n - 1 - j],
            es == entries_of(orig@),
            orig == node,
            es.len() == n,
            forall|j: int| 0 <= j < n ==> #[trigger] es[j] == (orig@[j].0@, tree_of(orig@[j].1)),
            env == prune_env(*cx),
            cx.matcher.wf(),
            ({
                let (u, r, t) = prune_scan(env, es, parent@, i as int);
                &&& entries_of(out@) == u
                &&& views(removed@) == r0 + r
                &&& to_remove@.map_values(|p: (String, String)| (p.0@, p.1@)) == t
            }),
        decreases n - i,
    {
        let (k, v) = rest.pop().unwrap();
        assert((k, v) == orig@[i as int]);
        let kc = chars_of(k.as_str());
        let path = if parent.len() == 0 || cx.sep.len() == 0 {
            kc
        } else {
            concat3(parent, &cx.sep, &kc)
        };
        assert(path@ == member_path(parent@, env.sep, k@));
        let keep = holds_text(&cx.seen, &path) || cx.matcher.matches(cx.namespace.as_str(), string_of(&path).as_str());
        assert(keep == kept(env, path@));
        let ghost prev = prune_scan(env, es, parent@, i as int);
        let ghost tmap = |p: (String, String)| (p.0@, p.1@);
        let ghost out0 = out@;
        let ghost tr0 = to_remove@;
        let ghost vv = v;
        match v {
            JsonValue::Object(inner) => {
                proof {
                    assert(vv == orig@[i as int].1);
                    assert(vv->Object_0 == inner);
                    assert(es[i as int].1 == JsonTree::Object(entries_of(inner@)));
                    assert(decreases_to!(es => es[i as int]));
                    assert(decreases_to!(es[i as int] => es[i as int].1));
                    assert(decreases_to!(es[i as int].1 => (es[i as int].1)->Object_0));
                }
                let inner2 = prune_members(inner, &path, cx, removed);
                let empty = inner2.len() == 0;
                let ghost iv = entries_of(inner2@);
                out.push((k.clone(), JsonValue::Object(inner2)));
                proof {
                    lemma_entries_of(out@);
                    lemma_entries_of(out0);
                    assert(entries_of(out@) =~= entries_of(out0).push((k@, JsonTree::Object(iv))));
                }
                if empty && !keep {
                    to_remove.push((k, string_of(&path)));
                    assert(to_remove@.map_values(tmap) =~= tr0.map_values(tmap).push((k@, path@)));
                }
            },
            other => {
                let ghost ov = other@;
                out.push((k.clone(), other));
                proof {
                    lemma_entries_of(out@);
                    lemma_entries_of(out0);
                    assert(entries_of(out@) =~= entries_of(out0).push((k@, ov)));
                }
                if !keep {
                    to_remove.push((k, string_of(&path)));
                    assert(to_remove@.map_values(tmap) =~= tr0.map_values(tmap).push((k@, path@)));
                }
            },
        }
        i = i + 1;
    }
    let ghost scan = prune_scan(env, es, parent@, n as int);
    let ghost tv = scan.2;
    let mut j: usize = 0;
    while j < to_remove.len()
        invariant
            j <= to_remove@.len(),
            to_remove@.map_values(|p: (String, String)| (p.0@, p.1@)) == tv,
            entries_of(out@) == remove_listed(scan.0, tv.take(j as int)),
            views(removed@) == r0 + scan.1 + listed_paths(tv.take(j as int)),
        decreases to_remove.len() - j,
    {
        let ghost t = tv.take(j as int + 1);
        assert(t.drop_last() =~= tv.take(j as int));
        assert(t.last() == (to_remove@[j as int].0@, to_remove@[j as int].1@));
        swap_remove_key(&mut out, &chars_of(to_remove[j].0.as_str()));
        let ghost rm0 = views(removed@);
        removed.push(to_remove[j].1.clone());
        assert(views(removed@) =~= rm0.push(to_remove@[j as int].1@));
        j = j + 1;
    }
    assert(tv.take(tv.len() as int) =~= tv);
    out
}

/// The members and removed paths that merging (and, when configured, pruning) gives.
pub open spec fn merged(config: Config, target: Seq<char>, matcher: PreserveMatcher, members: Seq<(Seq<char>, JsonTree)>, keys: Seq<KeyView>) -> (
    MergeState,
    Seq<(Seq<char>, JsonTree)>,
    Seq<Seq<char>>,
) {
    let st = merge_fold(merge_settings(config, target), members, keys, keys.len() as int);
    if config.remove_unused_keys {
        let env = PruneEnv { sep: config.key_separator@, namespace: target, seen: st.seen, matcher: matcher@ };
        let (m, rem) = prune_node(env, st.members, Seq::empty());
        (st, m, rem)
    } else {
        (st, st.members, Seq::empty())
    }
}

/// Merges extracted keys into a locale map: keys of the target namespace that are missing
/// are added with their default value (else the configured one, else the empty string),
/// existing ones are kept as they are, and keys whose path collides with the map's shape
/// are reported as conflicts. With `removeUnusedKeys`, entries that no extracted key names
/// and no preserve pattern keeps are then removed.
pub fn merge_keys(
    existing: &mut Vec<(String, JsonValue)>,
    keys: &[ExtractedKey],
    target_namespace: &str,
    config: &Config,
    preserve_matcher: &PreserveMatcher,
) -> (r: SyncResult)
    requires
        preserve_matcher.wf(),
    ensures
        ({
            let (st, m, rem) = merged(*config, target_namespace@, *preserve_matcher, entries_of(old(existing)@), key_views(keys@));
            &&& entries_of(final(existing)@) == m
            &&& views(r.added_keys@) == st.added
            &&& r.existing_keys == st.existing
            &&& conflict_views(r.conflicts@) == st.conflicts
            &&& views(r.removed_keys@) == rem
            &&& r.file_path@.len() == 0
        }),
{
    let mut added: Vec<String> = Vec::new();
    let mut conflicts: Vec<KeyConflict> = Vec::new();
    let mut seen: Vec<String> = Vec::new();
    let existing_keys = merge_into(existing, keys, target_namespace, config, &mut added, &mut conflicts, &mut seen);
    let mut removed_keys: Vec<String> = Vec::new();
    if config.remove_unused_keys {
        let cx = PruneCtx {
            sep: chars_of(config.key_separator.as_str()),
            namespace: string_of(&chars_of(target_namespace)),
            seen,
            matcher: PreserveMatcher {
                key_patterns: crate::text::clone_strings(&preserve_matcher.key_patterns),
                namespaced_patterns: crate::text::clone_strings(&preserve_matcher.namespaced_patterns),
                ns_separator: preserve_matcher.ns_separator.clone(),
            },
        };
        assert(cx.matcher@ == preserve_matcher@);
        let mut taken: Vec<(String, JsonValue)> = Vec::new();
        core::mem::swap(existing, &mut taken);
        let empty: Vec<char> = Vec::new();
        assert(views(removed_keys@) =~= Seq::<Seq<char>>::empty());
        let pruned = prune_members(taken, &empty, &cx, &mut removed_keys);
        *existing = pruned;
        assert(views(removed_keys@) =~= prune_node(prune_env(cx), entries_of(taken@), empty@).1);
    }
    SyncResult { file_path: string_of(&Vec::new()), added_keys: added, existing_keys, conflicts, removed_keys }
}

/// Why no JSON object could be taken out of a JavaScript or TypeScript module.
#[derive(Debug, Clone, Copy, PartialEq, Eq, Structural)]
pub enum FragmentError {
    /// A `}` outside strings with no `{` open.
    UnmatchedClosingBrace,
    /// No `{` outside strings is ever closed.
    NoObject,
}

/// Scanning a module's text from index `i` for its first top-level `{ ... }` outside
/// string literals (`"` delimited, `\` escapes): `depth` braces are open, the first at
/// `start`. Gives the object's first and last index.
pub open spec fn fragment_from(s: Seq<char>, i: int, depth: nat, in_string: bool, escape: bool, start: int) -> Result<
    (int, int),
    FragmentError,
>
    decreases s.len() - i,
{
    if i < 0 || i >= s.len() {
        Err(FragmentError::NoObject)
    } else if in_string {
        if escape {
            fragment_from(s, i + 1, depth, true, false, start)
        } else if s[i] == '\\' {
            fragment_from(s, i + 1, depth, true, true, start)
        } else if s[i] == '"' {
            fragment_from(s, i + 1, depth, false, false, start)
        } else {
            fragment_from(s, i + 1, depth, true, false, start)
        }
    } else if s[i] == '"' {
        fragment_from(s, i + 1, depth, true, false, start)
    } else if s[i] == '{' {
        fragment_from(s, i + 1, depth + 1, false, false, if depth == 0 { i } else { start })
    } else if s[i] == '}' {
        if depth == 0 {
            Err(FragmentError::UnmatchedClosingBrace)
        } else if depth == 1 {
            Ok((start, i))
        } else {
            fragment_from(s, i + 1, (depth - 1) as nat, false, false, start)
        }
    } else {
        fragment_from(s, i + 1, depth, false, false, start)
    }
}

/// The first top-level JSON object of a module's text (see [`fragment_from`]).
pub open spec fn json_fragment(s: Seq<char>) -> Result<Seq<char>, FragmentError> {
    match fragment_from(s, 0, 0, false, false, 0) {
        Ok((a, b)) => Ok(s.subrange(a, b + 1)),
        Err(e) => Err(e),
    }
}

/// Takes the first top-level JSON object out of a module's text, such as
/// `export default { ... };`.
pub fn extract_json_fragment(content: &str) -> (r: Result<String, FragmentError>)
    ensures
        match r {
            Ok(f) => json_fragment(content@) == Ok::<Seq<char>, FragmentError>(f@),
            Err(e) => json_fragment(content@) == Err::<Seq<char>, FragmentError>(e),
        },
{
    let s = chars_of(content);
    let mut depth: usize = 0;
    let mut in_string = false;
    let mut escape = false;
    let mut start: usize = 0;
    let mut i: usize = 0;
    while i < s.len()
        invariant
            i <= s@.len(),
            s@ == content@,
            depth <= i,
            start <= i,
            depth > 0 ==> start < i,
            !in_string ==> !escape,
            fragment_from(s@, 0, 0, false, false, 0) == fragment_from(s@, i as int, depth as nat, in_string, escape, start as int),
        decreases s.len() - i,
    {
        let c = s[i];
        if in_string {
            if escape {
                escape = false;
            } else if c == '\\' {
                escape = true;
            } else if c == '"' {
                in_string = false;
            }
        } else if c == '"' {
            in_string = true;
        } else if c == '{' {
            if depth == 0 {
                start = i;
            }
            depth = depth + 1;
        } else if c == '}' {
            if depth == 0 {
                return Err(FragmentError::UnmatchedClosingBrace);
            }
            if depth == 1 {
                return Ok(string_of(&slice_vec(&s, start, i + 1)));
            }
            depth = depth - 1;
        }
        i = i + 1;
    }
    Err(FragmentError::NoObject)
}

/// Why a locale file's text could not be read as a map.
#[derive(Debug, Clone, Copy, PartialEq, Eq, Structural)]
pub enum LocaleParseError {
    /// JSON text that is not a JSON object.
    Json,
    /// JSON5 text that is not a JSON5 object.
    Json5,
    /// A module without a JSON object to take out.
    ModuleObject(FragmentError),
    /// A module whose object is not valid JSON.
    ModuleJson,
}

/// The members of a parsed value when it is an object.
pub open spec fn object_members(t: Option<JsonTree>) -> Option<Seq<(Seq<char>, JsonTree)>> {
    match t {
        Some(JsonTree::Object(ms)) => Some(ms),
        _ => None,
    }
}

/// What a locale file's text holds, read in the given format: nothing for blank text;
/// otherwise the JSON (or JSON5) object it is, or, for a module, the JSON object inside it.
pub open spec fn locale_map(content: Seq<char>, format: OutputFormat) -> Result<Seq<(Seq<char>, JsonTree)>, LocaleParseError> {
    if is_blank(content) {
        Ok(Seq::empty())
    } else {
        match format {
            OutputFormat::Json => match object_members(serde_json_parse(content)) {
                Some(ms) => Ok(ms),
                None => Err(LocaleParseError::Json),
            },
            OutputFormat::Json5 => match object_members(json5_parse(content)) {
                Some(ms) => Ok(ms),
                None => Err(LocaleParseError::Json5),
            },
            _ => match json_fragment(content) {
                Err(e) => Err(LocaleParseError::ModuleObject(e)),
                Ok(f) => match object_members(serde_json_parse(f)) {
                    Some(ms) => Ok(ms),
                    None => Err(LocaleParseError::ModuleJson),
                },
            },
        }
    }
}

impl LocaleParseError {
    /// The message that describes the error for the file at `path`.
    pub fn message(&self, path: &str) -> (r: String)
        ensures
            r@ == match *self {
                LocaleParseError::Json => "Failed to parse JSON in: "@ + path@,
                LocaleParseError::Json5 => "Failed to parse JSON5 in: "@ + path@,
                LocaleParseError::ModuleObject(_) => "Failed to locate JSON object in: "@ + path@,
                LocaleParseError::ModuleJson => "Failed to parse JSON in JS/TS module: "@ + path@,
            },
    {
        let head = match self {
            LocaleParseError::Json => chars_of("Failed to parse JSON in: "),
            LocaleParseError::Json5 => chars_of("Failed to parse JSON5 in: "),
            LocaleParseError::ModuleObject(_) => chars_of("Failed to locate JSON object in: "),
            LocaleParseError::ModuleJson => chars_of("Failed to parse JSON in JS/TS module: "),
        };
        string_of(&crate::text::concat2(&head, &chars_of(path)))
    }
}

/// The members of a parsed value, when it is an object.
fn members_of(v: Option<JsonValue>) -> (r: Option<Vec<(String, JsonValue)>>)
    ensures
        match r {
            Some(ms) => object_members(match v { Some(x) => Some(x@), None => None }) == Some(entries_of(ms@)),
            None => object_members(match v { Some(x) => Some(x@), None => None }) is None,
        },
{
    match v {
        Some(JsonValue::Object(ms)) => Some(ms),
        _ => None,
    }
}

/// Reads a locale file's text as a map in the given format (see [`locale_map`]).
pub fn parse_locale_map(content: &str, format: OutputFormat) -> (r: Result<Vec<(String, JsonValue)>, LocaleParseError>)
    ensures
        match r {
            Ok(ms) => locale_map(content@, format) == Ok::<Seq<(Seq<char>, JsonTree)>, LocaleParseError>(entries_of(ms@)),
            Err(e) => locale_map(content@, format) == Err::<Seq<(Seq<char>, JsonTree)>, LocaleParseError>(e),
        },
{
    if crate::text::is_blank_exec(&chars_of(content)) {
        let empty: Vec<(String, JsonValue)> = Vec::new();
        assert(entries_of(empty@) =~= Seq::<(Seq<char>, JsonTree)>::empty());
        return Ok(empty);
    }
    match format {
        OutputFormat::Json => match members_of(parse_json_text(content)) {
            Some(ms) => Ok(ms),
            None => Err(LocaleParseError::Json),
        },
        OutputFormat::Json5 => match members_of(parse_json5_text(content)) {
            Some(ms) => Ok(ms),
            None => Err(LocaleParseError::Json5),
        },
        _ => match extract_json_fragment(content) {
            Err(e) => Err(LocaleParseError::ModuleObject(e)),
            Ok(f) => match members_of(parse_json_text(f.as_str())) {
                Some(ms) => Ok(ms),
                None => Err(LocaleParseError::ModuleJson),
            },
        },
    }
}

/// The text of a map as `serde_json::to_string_pretty` writes it: two-space indentation,
/// LF line breaks, `{}` and `[]` for empty containers.
pub open spec fn pretty(ms: Seq<(Seq<char>, JsonTree)>) -> Seq<char> {
    render(JsonTree::Object(ms), "  "@, "\n"@, true, 0)
}

/// The line break of a layout.
pub open spec fn style_newline(use_crlf: bool) -> Seq<char> {
    if use_crlf { "\r\n"@ } else { "\n"@ }
}

/// The text a locale file is written with: JSON in the given layout (each empty container
/// written open, over two lines), with a final line break when the layout has one; pretty
/// JSON and a line break for JSON5; a module exporting the pretty JSON for JavaScript and
/// TypeScript.
pub open spec fn locale_text(ms: Seq<(Seq<char>, JsonTree)>, format: OutputFormat, indent: Seq<char>, use_crlf: bool, trailing_newline: bool) -> Seq<char> {
    match format {
        OutputFormat::Json => render(JsonTree::Object(ms), indent, style_newline(use_crlf), false, 0) + (if trailing_newline {
            style_newline(use_crlf)
        } else {
            Seq::empty()
        }),
        OutputFormat::Json5 => pretty(ms) + "\n"@,
        OutputFormat::JsEsm => "export default "@ + pretty(ms) + ";\n"@,
        OutputFormat::JsCjs => "module.exports = "@ + pretty(ms) + ";\n"@,
        OutputFormat::Ts => "export default "@ + pretty(ms) + " as const;\n"@,
    }
}

/// The text of a map written in the given format and layout (see [`locale_text`]).
pub fn render_locale(content: Vec<(String, JsonValue)>, format: OutputFormat, style: &JsonStyle) -> (r: String)
    ensures
        r@ == locale_text(entries_of(content@), format, style.indent@, style.use_crlf, style.trailing_newline),
{
    let ghost ms = entries_of(content@);
    let v = JsonValue::Object(content);
    match format {
        OutputFormat::Json => {
            let nl = if style.use_crlf { chars_of("\r\n") } else { chars_of("\n") };
            let layout = Layout { indent: chars_of(style.indent.as_str()), newline: crate::text::slice_vec(&nl, 0, nl.len()), compact_empty: false };
            let mut out = render_json(&v, &layout);
            if style.trailing_newline {
                crate::text::append_chars(&mut out, &nl);
            }
            assert(nl@ == style_newline(style.use_crlf));
            assert(v@ == JsonTree::Object(ms));
            assert(layout.newline@ == nl@);
            assert(out@ == locale_text(ms, format, style.indent@, style.use_crlf, style.trailing_newline));
            string_of(&out)
        },
        _ => {
            let layout = Layout { indent: chars_of("  "), newline: chars_of("\n"), compact_empty: true };
            let body = render_json(&v, &layout);
            assert(v@ == JsonTree::Object(ms));
            assert(body@ == pretty(ms));
            let out = match format {
                OutputFormat::Json5 => crate::text::concat2(&body, &chars_of("\n")),
                OutputFormat::JsEsm => concat3(&chars_of("export default "), &body, &chars_of(";\n")),
                OutputFormat::JsCjs => concat3(&chars_of("module.exports = "), &body, &chars_of(";\n")),
                _ => concat3(&chars_of("export default "), &body, &chars_of(" as const;\n")),
            };
            assert(out@ == locale_text(ms, format, style.indent@, style.use_crlf, style.trailing_newline));
            string_of(&out)
        },
    }
}

/// The layout a JSON locale file is written with: the default one for a blank file, else
/// the one its text shows (indentation, line breaks, final line break).
pub open spec fn file_layout(content: Seq<char>) -> (Seq<char>, bool, bool) {
    if is_blank(content) {
        ("  "@, false, true)
    } else {
        (detected_indent(content), contains(content, "\r\n"@), ends_with(content, "\n"@))
    }
}

/// What syncing a locale file's text gives, unless it cannot be read: the merge's result,
/// and, when keys were added or removed and this is no dry run, the new text (the map
/// sorted by key, in the configured format and the file's layout).
pub open spec fn synced(
    config: Config,
    matcher: PreserveMatcher,
    keys: Seq<KeyView>,
    target: Seq<char>,
    content: Seq<char>,
    dry_run: bool,
) -> Result<(MergeState, Seq<Seq<char>>, Option<Seq<char>>), LocaleParseError> {
    match locale_map(content, config.output_format) {
        Err(e) => Err(e),
        Ok(map) => {
            let (st, m, rem) = merged(config, target, matcher, map, keys);
            let (indent, crlf, trailing) = file_layout(content);
            let write = if !dry_run && (st.added.len() > 0 || rem.len() > 0) {
                Some(locale_text(sorted_map(m), config.output_format, indent, crlf, trailing))
            } else {
                None
            };
            Ok((st, rem, write))
        },
    }
}

/// One locale file synced: what merging did, and the text to write, if any.
#[derive(Debug)]
pub struct FileSync {
    pub result: SyncResult,
    pub write: Option<String>,
}

/// Whether a file sync is what [`synced`] gives for the file at `path`.
pub open spec fn sync_matches(fs: FileSync, path: Seq<char>, expected: (MergeState, Seq<Seq<char>>, Option<Seq<char>>)) -> bool {
    let (st, rem, write) = expected;
    &&& fs.result.file_path@ == path
    &&& views(fs.result.added_keys@) == st.added
    &&& fs.result.existing_keys == st.existing
    &&& conflict_views(fs.result.conflicts@) == st.conflicts
    &&& views(fs.result.removed_keys@) == rem
    &&& match fs.write {
        Some(w) => write == Some(w@),
        None => write is None,
    }
}

/// Syncs extracted keys into the text of one locale file of the target namespace (an
/// empty text for a file that does not exist yet): reads it in the configured format,
/// merges the keys (see [`merge_keys`]), and, when keys were added or removed and this is
/// no dry run, gives the text to write (see [`synced`]).
pub fn sync_locale_text(
    path: &str,
    content: &str,
    keys: &[ExtractedKey],
    target_namespace: &str,
    config: &Config,
    preserve_matcher: &PreserveMatcher,
    dry_run: bool,
) -> (r: Result<FileSync, LocaleParseError>)
    requires
        preserve_matcher.wf(),
    ensures
        match r {
            Ok(fs) => synced(*config, *preserve_matcher, key_views(keys@), target_namespace@, content@, dry_run) matches Ok(e)
                && sync_matches(fs, path@, e),
            Err(err) => synced(*config, *preserve_matcher, key_views(keys@), target_namespace@, content@, dry_run)
                == Err::<(MergeState, Seq<Seq<char>>, Option<Seq<char>>), LocaleParseError>(err),
        },
{
    let format = config.output_format;
    let c = chars_of(content);
    let blank = crate::text::is_blank_exec(&c);
    let style = if blank {
        JsonStyle { indent: string_of(&chars_of("  ")), use_crlf: false, trailing_newline: true }
    } else {
        detect_json_style(content)
    };
    let mut map = match parse_locale_map(content, format) {
        Ok(m) => m,
        Err(e) => {
            return Err(e);
        },
    };
    let ghost m0 = entries_of(map@);
    let mut result = merge_keys(&mut map, keys, target_namespace, config, preserve_matcher);
    result.file_path = string_of(&chars_of(path));
    let changed = result.added_keys.len() > 0 || result.removed_keys.len() > 0;
    let write = if !dry_run && changed {
        let sorted = sort_keys_alphabetically(&map);
        Some(render_locale(sorted, format, &style))
    } else {
        None
    };
    let fs = FileSync { result, write };
    proof {
        let (st, m, rem) = merged(*config, target_namespace@, *preserve_matcher, m0, key_views(keys@));
        assert(views(fs.result.added_keys@).len() == fs.result.added_keys@.len());
        assert(views(fs.result.removed_keys@).len() == fs.result.removed_keys@.len());
        assert((style.indent@, style.use_crlf, style.trailing_newline) == file_layout(content@));
    }
    Ok(fs)
}

/// The members of a namespace's section in a file of merged namespaces: those of the
/// object under the namespace's name; none when the file holds no object there.
pub open spec fn section_of(members: Seq<(Seq<char>, JsonTree)>, namespace: Seq<char>) -> Seq<(Seq<char>, JsonTree)> {
    match obj_get(members, namespace) {
        Some(JsonTree::Object(es)) => es,
        _ => Seq::empty(),
    }
}

/// `a + b`, or `usize::MAX` when that is smaller.
pub open spec fn saturated_sum(a: nat, b: nat) -> nat {
    if a + b > usize::MAX {
        usize::MAX as nat
    } else {
        a + b
    }
}

/// Merging into a file of merged namespaces, over its first `n` namespaces: the keys of
/// each namespace merged (see [`merged`]) into that namespace's section, which is then set
/// to the result; the keys added, the conflicts and the removed paths gathered in order,
/// and the counts of keys already there added up (saturating at `usize::MAX`). Gives the
/// state (its `seen` left empty) and the removed paths.
pub open spec fn merged_sections(
    config: Config,
    matcher: PreserveMatcher,
    members: Seq<(Seq<char>, JsonTree)>,
    keys: Seq<KeyView>,
    namespaces: Seq<Seq<char>>,
    n: int,
) -> (MergeState, Seq<Seq<char>>)
    decreases n,
{
    if n <= 0 {
        (MergeState { members, added: Seq::empty(), existing: 0, conflicts: Seq::empty(), seen: Seq::empty() }, Seq::empty())
    } else {
        let (prev, removed) = merged_sections(config, matcher, members, keys, namespaces, n - 1);
        let ns = namespaces[n - 1];
        let (st, m, rem) = merged(config, ns, matcher, section_of(prev.members, ns), keys);
        (
            MergeState {
                members: obj_set(prev.members, ns, JsonTree::Object(m)),
                added: prev.added + st.added,
                existing: saturated_sum(prev.existing, st.existing),
                conflicts: prev.conflicts + st.conflicts,
                seen: Seq::empty(),
            },
            removed + rem,
        )
    }
}

/// What syncing the text of a file of merged namespaces gives, unless it cannot be read:
/// every namespace merged into its own section (see [`merged_sections`]), and, when keys
/// were added or removed and this is no dry run, the new text (sorted by key, in the
/// configured format and the file's layout).
pub open spec fn synced_merged(
    config: Config,
    matcher: PreserveMatcher,
    keys: Seq<KeyView>,
    namespaces: Seq<Seq<char>>,
    content: Seq<char>,
    dry_run: bool,
) -> Result<(MergeState, Seq<Seq<char>>, Option<Seq<char>>), LocaleParseError> {
    match locale_map(content, config.output_format) {
        Err(e) => Err(e),
        Ok(map) => {
            let (st, rem) = merged_sections(config, matcher, map, keys, namespaces, namespaces.len() as int);
            let (indent, crlf, trailing) = file_layout(content);
            let write = if !dry_run && (st.added.len() > 0 || rem.len() > 0) {
                Some(locale_text(sorted_map(st.members), config.output_format, indent, crlf, trailing))
            } else {
                None
            };
            Ok((st, rem, write))
        },
    }
}

/// What syncing one locale file gives: with `mergeNamespaces`, every namespace of the keys
/// merged into its own section of the file (see [`synced_merged`]); else the keys of the
/// file's namespace merged into it (see [`synced`]).
pub open spec fn synced_file(
    config: Config,
    matcher: PreserveMatcher,
    keys: Seq<KeyView>,
    namespace: Seq<char>,
    content: Seq<char>,
    dry_run: bool,
) -> Result<(MergeState, Seq<Seq<char>>, Option<Seq<char>>), LocaleParseError> {
    if config.merge_namespaces {
        synced_merged(config, matcher, keys, namespaces_of(keys, config.default_namespace@), content, dry_run)
    } else {
        synced(config, matcher, keys, namespace, content, dry_run)
    }
}

/// Syncs extracted keys into the text of a locale file that holds several namespaces, one
/// section (a top-level object under the namespace's name) each, an empty text for a file
/// that does not exist yet: the keys of each namespace merged into its section (see
/// [`synced_merged`]). A section that is not an object is replaced.
pub fn sync_merged_text(
    path: &str,
    content: &str,
    keys: &[ExtractedKey],
    namespaces: &[String],
    config: &Config,
    preserve_matcher: &PreserveMatcher,
    dry_run: bool,
) -> (r: Result<FileSync, LocaleParseError>)
    requires
        preserve_matcher.wf(),
    ensures
        match r {
            Ok(fs) => synced_merged(*config, *preserve_matcher, key_views(keys@), views(namespaces@), content@, dry_run) matches Ok(e)
                && sync_matches(fs, path@, e),
            Err(err) => synced_merged(*config, *preserve_matcher, key_views(keys@), views(namespaces@), content@, dry_run)
                == Err::<(MergeState, Seq<Seq<char>>, Option<Seq<char>>), LocaleParseError>(err),
        },
{
    let format = config.output_format;
    let c = chars_of(content);
    let blank = crate::text::is_blank_exec(&c);
    let style = if blank {
        JsonStyle { indent: string_of(&chars_of("  ")), use_crlf: false, trailing_newline: true }
    } else {
        detect_json_style(content)
    };
    let mut map = match parse_locale_map(content, format) {
        Ok(m) => m,
        Err(e) => {
            return Err(e);
        },
    };
    let ghost kv = key_views(keys@);
    let ghost nv = views(namespaces@);
    let ghost m0 = entries_of(map@);
    let mut added: Vec<String> = Vec::new();
    let mut existing: usize = 0;
    let mut conflicts: Vec<KeyConflict> = Vec::new();
    let mut removed: Vec<String> = Vec::new();
    let mut i: usize = 0;
    assert(views(added@) =~= Seq::<Seq<char>>::empty());
    assert(views(removed@) =~= Seq::<Seq<char>>::empty());
    assert(conflict_views(conflicts@) =~= Seq::<ConflictView>::empty());
    while i < namespaces.len()
        invariant
            i <= namespaces@.len(),
            preserve_matcher.wf(),
            kv == key_views(keys@),
            nv == views(namespaces@),
            ({
                let (st, rem) = merged_sections(*config, *preserve_matcher, m0, kv, nv, i as int);
                &&& entries_of(map@) == st.members
                &&& views(added@) == st.added
                &&& existing == st.existing
                &&& conflict_views(conflicts@) == st.conflicts
                &&& views(removed@) == rem
            }),
        decreases namespaces.len() - i,
    {
        let ns = &namespaces[i];
        assert(nv[i as int] == ns@);
        let nc = chars_of(ns.as_str());
        let current = match obj_get_exec(&map, &nc) {
            Some(v) => Some(clone_json(v)),
            None => None,
        };
        let mut section: Vec<(String, JsonValue)> = match current {
            Some(JsonValue::Object(es)) => es,
            _ => Vec::new(),
        };
        assert(entries_of(section@) == section_of(entries_of(map@), ns@)) by {
            if entries_of(section@).len() == 0 {
                assert(entries_of(section@) =~= Seq::<(Seq<char>, JsonTree)>::empty());
            }
        }
        let res = merge_keys(&mut section, keys, ns.as_str(), config, preserve_matcher);
        let ghost a0 = views(added@);
        let ghost c0 = conflict_views(conflicts@);
        let ghost r0 = views(removed@);
        let mut a = res.added_keys;
        let ghost av = views(a@);
        added.append(&mut a);
        assert(views(added@) =~= a0 + av);
        let mut cs = res.conflicts;
        let ghost cv = conflict_views(cs@);
        conflicts.append(&mut cs);
        assert(conflict_views(conflicts@) =~= c0 + cv);
        let mut rs = res.removed_keys;
        let ghost rv = views(rs@);
        removed.append(&mut rs);
        assert(views(removed@) =~= r0 + rv);
        existing = existing.saturating_add(res.existing_keys);
        obj_set_exec(&mut map, ns.clone(), JsonValue::Object(section));
        i = i + 1;
    }
    let changed = added.len() > 0 || removed.len() > 0;
    let write = if !dry_run && changed {
        let sorted = sort_keys_alphabetically(&map);
        Some(render_locale(sorted, format, &style))
    } else {
        None
    };
    let result = SyncResult { file_path: string_of(&chars_of(path)), added_keys: added, existing_keys: existing, conflicts, removed_keys: removed };
    let fs = FileSync { result, write };
    proof {
        let (st, rem) = merged_sections(*config, *preserve_matcher, m0, kv, nv, nv.len() as int);
        assert(views(fs.result.added_keys@).len() == fs.result.added_keys@.len());
        assert(views(fs.result.removed_keys@).len() == fs.result.removed_keys@.len());
        assert((style.indent@, style.use_crlf, style.trailing_newline) == file_layout(content@));
    }
    Ok(fs)
}

/// The distinct texts of a list, in order of first appearance.
pub open spec fn distinct_texts(s: Seq<Seq<char>>) -> Seq<Seq<char>>
    decreases s.len(),
{
    if s.len() == 0 {
        Seq::empty()
    } else if distinct_texts(s.drop_last()).contains(s.last()) {
        distinct_texts(s.drop_last())
    } else {
        distinct_texts(s.drop_last()).push(s.last())
    }
}

/// The namespaces the keys name explicitly, in order.
pub open spec fn named_namespaces(keys: Seq<KeyView>) -> Seq<Seq<char>>
    decreases keys.len(),
{
    if keys.len() == 0 {
        Seq::empty()
    } else {
        match keys.last().namespace {
            Some(n) => named_namespaces(keys.drop_last()).push(n),
            None => named_namespaces(keys.drop_last()),
        }
    }
}

/// The namespaces to sync: the default one, then each namespace the keys name, each once.
pub open spec fn namespaces_of(keys: Seq<KeyView>, default_namespace: Seq<char>) -> Seq<Seq<char>> {
    distinct_texts(seq![default_namespace] + named_namespaces(keys))
}

/// A text is among the distinct texts of a list exactly when the list holds it.
pub proof fn lemma_distinct_texts_contains(s: Seq<Seq<char>>, x: Seq<char>)
    ensures
        distinct_texts(s).contains(x) <==> s.contains(x),
    decreases s.len(),
{
    if s.len() > 0 {
        let p = s.drop_last();
        lemma_distinct_texts_contains(p, x);
        lemma_distinct_texts_contains(p, s.last());
        let d = distinct_texts(p);
        assert(s.contains(x) <==> (p.contains(x) || x == s.last())) by {
            if p.contains(x) {
                let i = choose|i: int| 0 <= i < p.len() && p[i] == x;
                assert(s[i] == x);
            }
            if x == s.last() {
                assert(s[s.len() - 1] == x);
            }
            if s.contains(x) && x != s.last() {
                let i = choose|i: int| 0 <= i < s.len() && s[i] == x;
                assert(p[i] == x);
            }
        }
        assert(d.push(s.last()).contains(x) <==> (d.contains(x) || x == s.last())) by {
            let e = d.push(s.last());
            if d.contains(x) {
                let i = choose|i: int| 0 <= i < d.len() && d[i] == x;
                assert(e[i] == x);
            }
            if x == s.last() {
                assert(e[d.len() as int] == x);
            }
            if e.contains(x) && x != s.last() {
                let i = choose|i: int| 0 <= i < e.len() && e[i] == x;
                assert(d[i] == x);
            }
        }
    }
}

/// A namespace is among those the keys name exactly when some key names it.
pub proof fn lemma_named_namespaces_contains(keys: Seq<KeyView>, x: Seq<char>)
    ensures
        named_namespaces(keys).contains(x) <==> exists|i: int| 0 <= i < keys.len() && (#[trigger] keys[i]).namespace == Some(x),
    decreases keys.len(),
{
    if keys.len() > 0 {
        let prev = keys.drop_last();
        lemma_named_namespaces_contains(prev, x);
        if exists|i: int| 0 <= i < prev.len() && (#[trigger] prev[i]).namespace == Some(x) {
            let i = choose|i: int| 0 <= i < prev.len() && (#[trigger] prev[i]).namespace == Some(x);
            assert(keys[i] == prev[i]);
        }
        if exists|i: int| 0 <= i < keys.len() && (#[trigger] keys[i]).namespace == Some(x) {
            let i = choose|i: int| 0 <= i < keys.len() && (#[trigger] keys[i]).namespace == Some(x);
            if i < keys.len() - 1 {
                assert(prev[i] == keys[i]);
            }
        }
        let np = named_namespaces(prev);
        match keys.last().namespace {
            Some(n) => {
                assert(np.push(n)[np.len() as int] == n);
                if np.push(n).contains(x) && x != n {
                    let j = choose|j: int| 0 <= j < np.len() + 1 && np.push(n)[j] == x;
                    assert(np[j] == x);
                }
                if np.contains(x) {
                    let j = choose|j: int| 0 <= j < np.len() && np[j] == x;
                    assert(np.push(n)[j] == x);
                }
            },
            None => {},
        }
    }
}

/// The namespaces to sync are the union of the default namespace and those the keys name:
/// a text is among them exactly when it is the default namespace or some key's namespace.
pub proof fn lemma_namespaces_of_union(keys: Seq<KeyView>, default_namespace: Seq<char>, x: Seq<char>)
    ensures
        namespaces_of(keys, default_namespace).contains(x) <==> (x == default_namespace || exists|i: int|
            0 <= i < keys.len() && (#[trigger] keys[i]).namespace == Some(x)),
{
    let all = seq![default_namespace] + named_namespaces(keys);
    lemma_distinct_texts_contains(all, x);
    lemma_named_namespaces_contains(keys, x);
    assert(all[0] == default_namespace);
    if named_namespaces(keys).contains(x) {
        let j = choose|j: int| 0 <= j < named_namespaces(keys).len() && named_namespaces(keys)[j] == x;
        assert(all[j + 1] == x);
    }
    if all.contains(x) && x != default_namespace {
        let j = choose|j: int| 0 <= j < all.len() && all[j] == x;
        assert(named_namespaces(keys)[j - 1] == x);
    }
}

/// Collects the namespaces to sync: the default one first, then each namespace the keys
/// name, in order of first appearance, each once.
pub fn collect_namespaces(keys: &[ExtractedKey], default_namespace: &str) -> (r: Vec<String>)
    ensures
        views(r@) == namespaces_of(key_views(keys@), default_namespace@),
        views(r@).no_duplicates(),
{
    let ghost kv = key_views(keys@);
    let mut out: Vec<String> = Vec::new();
    out.push(string_of(&chars_of(default_namespace)));
    let ghost all0 = seq![default_namespace@];
    assert(all0.drop_last() =~= Seq::<Seq<char>>::empty());
    assert(distinct_texts(Seq::<Seq<char>>::empty()) =~= Seq::<Seq<char>>::empty());
    assert(views(out@) =~= distinct_texts(all0));
    let mut i: usize = 0;
    while i < keys.len()
        invariant
            i <= keys@.len(),
            kv == key_views(keys@),
            views(out@) == distinct_texts(seq![default_namespace@] + named_namespaces(kv.take(i as int))),
            views(out@).no_duplicates(),
        decreases keys.len() - i,
    {
        let ghost t = kv.take(i as int + 1);
        assert(t.drop_last() =~= kv.take(i as int));
        assert(t.last() == keys@[i as int]@);
        match &keys[i].namespace {
            Some(n) => {
                let ghost all = seq![default_namespace@] + named_namespaces(kv.take(i as int));
                assert(seq![default_namespace@] + named_namespaces(t) =~= all.push(n@));
                assert((all.push(n@)).drop_last() =~= all);
                if !holds_text(&out, &chars_of(n.as_str())) {
                    let ghost before = views(out@);
                    out.push(n.clone());
                    assert(views(out@) =~= before.push(n@));
                    assert forall|a: int, b: int| 0 <= a < b < views(out@).len() implies views(out@)[a] != views(out@)[b] by {
                        if b == before.len() {
                            assert(before[a] == views(out@)[a]);
                            assert(before.contains(before[a]));
                        }
                    }
                }
            },
            None => {
                assert(named_namespaces(t) =~= named_namespaces(kv.take(i as int)));
            },
        }
        i = i + 1;
    }
    assert(kv.take(keys@.len() as int) =~= kv);
    out
}

/// A path with one more component, as `Path::join` forms it on Unix: the component alone
/// when the path is empty or the component is absolute, else the two with one `/` between
/// them.
pub open spec fn join_path(dir: Seq<char>, name: Seq<char>) -> Seq<char> {
    if dir.len() == 0 || (name.len() > 0 && name[0] == '/') {
        name
    } else if dir.last() == '/' {
        dir + name
    } else {
        dir + "/"@ + name
    }
}

/// A path with one more component (see [`join_path`]).
pub(crate) fn join_path_exec(dir: &[char], name: &[char]) -> (r: Vec<char>)
    ensures
        r@ == join_path(dir@, name@),
{
    if dir.len() == 0 || (name.len() > 0 && name[0] == '/') {
        slice_vec(name, 0, name.len())
    } else if dir[dir.len() - 1] == '/' {
        crate::text::concat2(dir, name)
    } else {
        concat3(dir, &chars_of("/"), name)
    }
}

/// A locale file to sync: its locale, its namespace, and its path.
#[derive(Debug, Clone)]
pub struct SyncTarget {
    pub locale: String,
    pub namespace: String,
    pub path: String,
}

/// Whether an output setting is a path template: it names `$LOCALE` or `$NAMESPACE`.
pub open spec fn is_path_template(dir: Seq<char>) -> bool {
    contains(dir, "$LOCALE"@) || contains(dir, "$NAMESPACE"@)
}

/// The path of a namespace's file for a locale. An output setting that is a path template
/// (such as `locales/$LOCALE/$NAMESPACE.json`) gives the template with each `$LOCALE`
/// replaced by the locale, then each `$NAMESPACE` by the namespace; any other setting is a
/// directory and gives `dir/locale/namespace.ext`.
pub open spec fn locale_file_path(dir: Seq<char>, locale: Seq<char>, namespace: Seq<char>, ext: Seq<char>) -> Seq<char> {
    if is_path_template(dir) {
        replace_all(replace_all(dir, "$LOCALE"@, locale), "$NAMESPACE"@, namespace)
    } else {
        join_path(join_path(dir, locale), namespace + "."@ + ext)
    }
}

/// The path of a namespace's file for a locale (see [`locale_file_path`]).
pub fn locale_file_path_exec(dir: &[char], locale: &[char], namespace: &[char], ext: &[char]) -> (r: Vec<char>)
    ensures
        r@ == locale_file_path(dir@, locale@, namespace@, ext@),
{
    let lp = chars_of("$LOCALE");
    let np = chars_of("$NAMESPACE");
    proof {
        reveal_strlit("$LOCALE");
        reveal_strlit("$NAMESPACE");
    }
    if contains_exec(dir, &lp) || contains_exec(dir, &np) {
        let with_locale = replace_all_exec(dir, &lp, locale);
        replace_all_exec(&with_locale, &np, namespace)
    } else {
        let ldir = join_path_exec(dir, locale);
        let name = concat3(namespace, &chars_of("."), ext);
        join_path_exec(&ldir, &name)
    }
}

/// The files of one locale, one per namespace, as (locale, namespace, path).
pub open spec fn locale_row(dir: Seq<char>, locale: Seq<char>, namespaces: Seq<Seq<char>>, ext: Seq<char>) -> Seq<(Seq<char>, Seq<char>, Seq<char>)>
    decreases namespaces.len(),
{
    if namespaces.len() == 0 {
        Seq::empty()
    } else {
        locale_row(dir, locale, namespaces.drop_last(), ext).push(
            (locale, namespaces.last(), locale_file_path(dir, locale, namespaces.last(), ext)),
        )
    }
}

/// The files of the first `n` locales, locale by locale.
pub open spec fn target_rows(dir: Seq<char>, locales: Seq<Seq<char>>, namespaces: Seq<Seq<char>>, ext: Seq<char>, n: int) -> Seq<(Seq<char>, Seq<char>, Seq<char>)>
    decreases n,
{
    if n <= 0 {
        Seq::empty()
    } else {
        target_rows(dir, locales, namespaces, ext, n - 1) + locale_row(dir, locales[n - 1], namespaces, ext)
    }
}

/// The name (without extension) of the one file per locale that merged namespaces are
/// written to: the configured one, else the default namespace.
pub open spec fn merged_file_name(config: Config) -> Seq<char> {
    match config.merged_namespace_filename {
        Some(n) => n@,
        None => config.default_namespace@,
    }
}

/// The files of the first `n` locales when namespaces are merged: one per locale, named
/// `name`, as (locale, name, path).
pub open spec fn merged_rows(dir: Seq<char>, locales: Seq<Seq<char>>, name: Seq<char>, ext: Seq<char>, n: int) -> Seq<(Seq<char>, Seq<char>, Seq<char>)>
    decreases n,
{
    if n <= 0 {
        Seq::empty()
    } else {
        merged_rows(dir, locales, name, ext, n - 1).push((locales[n - 1], name, locale_file_path(dir, locales[n - 1], name, ext)))
    }
}

/// The names of a list that end with `.ext` after at least one other character, each
/// without that ending, in order.
pub open spec fn stems_with_ext(names: Seq<Seq<char>>, ext: Seq<char>) -> Seq<Seq<char>>
    decreases names.len(),
{
    if names.len() == 0 {
        Seq::empty()
    } else {
        let n = names.last();
        let suffix = "."@ + ext;
        if n.len() > suffix.len() && ends_with(n, suffix) {
            stems_with_ext(names.drop_last(), ext).push(n.take(n.len() - suffix.len()))
        } else {
            stems_with_ext(names.drop_last(), ext)
        }
    }
}

/// The file name (without extension) that an existing merged layout uses: the stem of the
/// one file with the extension among a locale directory's file names; none when there is
/// no such file or there are several.
pub fn existing_merged_name(names: &[String], ext: &str) -> (r: Option<String>)
    ensures
        match r {
            Some(n) => stems_with_ext(views(names@), ext@).len() == 1 && n@ == stems_with_ext(views(names@), ext@)[0],
            None => stems_with_ext(views(names@), ext@).len() != 1,
        },
{
    let ghost nv = views(names@);
    let suffix = concat2(&chars_of("."), &chars_of(ext));
    let mut stems: Vec<String> = Vec::new();
    let mut i: usize = 0;
    while i < names.len()
        invariant
            i <= names@.len(),
            nv == views(names@),
            suffix@ == "."@ + ext@,
            views(stems@) == stems_with_ext(nv.take(i as int), ext@),
        decreases names.len() - i,
    {
        let ghost t = nv.take(i as int + 1);
        assert(t.drop_last() =~= nv.take(i as int));
        assert(t.last() == names@[i as int]@);
        let n = chars_of(names[i].as_str());
        if n.len() > suffix.len() && ends_with_exec(&n, &suffix) {
            let ghost before = views(stems@);
            stems.push(string_of(&slice_vec(&n, 0, n.len() - suffix.len())));
            assert(views(stems@) =~= before.push(n@.take(n@.len() - suffix@.len())));
        }
        i = i + 1;
    }
    assert(nv.take(names@.len() as int) =~= nv);
    if stems.len() == 1 {
        let r = stems[0].clone();
        assert(views(stems@)[0] == stems@[0]@);
        Some(r)
    } else {
        assert(views(stems@).len() == stems@.len());
        None
    }
}

/// The content of a list of targets.
pub open spec fn target_views(s: Seq<SyncTarget>) -> Seq<(Seq<char>, Seq<char>, Seq<char>)> {
    s.map_values(|t: SyncTarget| (t.locale@, t.namespace@, t.path@))
}

/// The locale files that syncing the given namespaces touches: for each configured locale
/// in order, one file per namespace (see [`locale_file_path`]); with `mergeNamespaces`,
/// one file per locale, named as [`merged_file_name`] says.
pub fn sync_targets(config: &Config, output_dir: &str, namespaces: &[String]) -> (r: Vec<SyncTarget>)
    ensures
        target_views(r@) == if config.merge_namespaces {
            merged_rows(
                output_dir@,
                views(config.locales@),
                merged_file_name(*config),
                crate::config::spec_extension(config.output_format),
                config.locales@.len() as int,
            )
        } else {
            target_rows(
                output_dir@,
                views(config.locales@),
                views(namespaces@),
                crate::config::spec_extension(config.output_format),
                config.locales@.len() as int,
            )
        },
{
    let ghost lv = views(config.locales@);
    let ghost nv = views(namespaces@);
    let ext = chars_of(config.output_extension());
    let dir = chars_of(output_dir);
    let mut out: Vec<SyncTarget> = Vec::new();
    if config.merge_namespaces {
        let name = match &config.merged_namespace_filename {
            Some(n) => n.clone(),
            None => config.default_namespace.clone(),
        };
        let nc = chars_of(name.as_str());
        let mut i: usize = 0;
        while i < config.locales.len()
            invariant
                i <= config.locales@.len(),
                lv == views(config.locales@),
                ext@ == crate::config::spec_extension(config.output_format),
                dir@ == output_dir@,
                name@ == merged_file_name(*config),
                nc@ == name@,
                target_views(out@) == merged_rows(dir@, lv, name@, ext@, i as int),
            decreases config.locales.len() - i,
        {
            let locale = &config.locales[i];
            assert(lv[i as int] == locale@);
            let path = locale_file_path_exec(&dir, &chars_of(locale.as_str()), &nc, &ext);
            let ghost before = target_views(out@);
            let t = SyncTarget { locale: locale.clone(), namespace: name.clone(), path: string_of(&path) };
            out.push(t);
            assert(target_views(out@) =~= before.push((t.locale@, t.namespace@, t.path@)));
            i = i + 1;
        }
        return out;
    }
    let mut i: usize = 0;
    while i < config.locales.len()
        invariant
            i <= config.locales@.len(),
            lv == views(config.locales@),
            nv == views(namespaces@),
            ext@ == crate::config::spec_extension(config.output_format),
            dir@ == output_dir@,
            target_views(out@) == target_rows(dir@, lv, nv, ext@, i as int),
        decreases config.locales.len() - i,
    {
        let locale = &config.locales[i];
        assert(lv[i as int] == locale@);
        let lc = chars_of(locale.as_str());
        let ghost row_start = target_views(out@);
        let mut j: usize = 0;
        while j < namespaces.len()
            invariant
                j <= namespaces@.len(),
                nv == views(namespaces@),
                lc@ == locale@,
                ext@ == crate::config::spec_extension(config.output_format),
                dir@ == output_dir@,
                target_views(out@) == row_start + locale_row(dir@, locale@, nv.take(j as int), ext@),
            decreases namespaces.len() - j,
        {
            let path = locale_file_path_exec(&dir, &lc, &chars_of(namespaces[j].as_str()), &ext);
            let ghost before = target_views(out@);
            let t = SyncTarget { locale: locale.clone(), namespace: namespaces[j].clone(), path: string_of(&path) };
            out.push(t);
            proof {
                let nt = nv.take(j as int + 1);
                assert(nt.drop_last() =~= nv.take(j as int));
                assert(nt.last() == namespaces@[j as int]@);
                assert(target_views(out@) =~= before.push((t.locale@, t.namespace@, t.path@)));
            }
            j = j + 1;
        }
        assert(nv.take(namespaces@.len() as int) =~= nv);
        i = i + 1;
    }
    out
}

/// The locale files that syncing every namespace of the keys touches (see
/// [`collect_namespaces`] and [`sync_targets`]).
pub fn sync_all_locales(config: &Config, keys: &[ExtractedKey], output_dir: &str) -> (r: Vec<SyncTarget>)
    ensures
        target_views(r@) == if config.merge_namespaces {
            merged_rows(
                output_dir@,
                views(config.locales@),
                merged_file_name(*config),
                crate::config::spec_extension(config.output_format),
                config.locales@.len() as int,
            )
        } else {
            target_rows(
                output_dir@,
                views(config.locales@),
                namespaces_of(key_views(keys@), config.default_namespace@),
                crate::config::spec_extension(config.output_format),
                config.locales@.len() as int,
            )
        },
{
    let namespaces = collect_namespaces(keys, config.default_namespace.as_str());
    sync_targets(config, output_dir, &namespaces)
}

/// A locale file to sync with the text it holds (empty when it does not exist yet).
#[derive(Debug, Clone)]
pub struct LocaleFile {
    pub path: String,
    pub namespace: String,
    pub content: String,
}

/// Why syncing locale files stopped.
#[derive(Debug, Clone)]
pub enum SyncFailure {
    /// A preserve pattern that does not compile.
    InvalidPreservePattern(InvalidPreservePattern),
    /// A locale file whose text could not be read, with its path.
    Parse { path: String, error: LocaleParseError },
}

/// Whether the first `n` files synced give `done`, in order (see [`synced_file`]).
pub open spec fn all_synced(config: Config, matcher: PreserveMatcher, keys: Seq<KeyView>, files: Seq<LocaleFile>, dry_run: bool, done: Seq<FileSync>, n: int) -> bool {
    &&& done.len() == n
    &&& forall|i: int| 0 <= i < n ==> (#[trigger] synced_file(config, matcher, keys, files[i].namespace@, files[i].content@, dry_run) matches Ok(e)
        && sync_matches(done[i], files[i].path@, e))
}

/// Whether a matcher is the one the configuration's preserve patterns make, and the files
/// synced and the failure are what syncing the files with it gives: every file in order,
/// or those before the first one whose text cannot be read, then that one's failure.
pub open spec fn sync_outcome(
    config: Config,
    m: PreserveMatcher,
    keys: Seq<KeyView>,
    files: Seq<LocaleFile>,
    dry_run: bool,
    done: Seq<FileSync>,
    failure: Option<SyncFailure>,
) -> bool {
    &&& m@.key_patterns == views(config.preserve_patterns@).filter(key_pattern(config.ns_separator@))
    &&& m@.namespaced_patterns == views(config.preserve_patterns@).filter(namespaced_pattern(config.ns_separator@))
    &&& m@.ns_separator == config.ns_separator@
    &&& all_synced(config, m, keys, files, dry_run, done, done.len() as int)
    &&& match failure {
        None => done.len() == files.len(),
        Some(SyncFailure::Parse { path, error }) => done.len() < files.len() && path@ == files[done.len() as int].path@
            && synced_file(config, m, keys, files[done.len() as int].namespace@, files[done.len() as int].content@, dry_run)
            == Err::<(MergeState, Seq<Seq<char>>, Option<Seq<char>>), LocaleParseError>(error),
        Some(_) => false,
    }
}

/// Syncs extracted keys into locale files, in order: each into its own namespace (see
/// [`sync_locale_text`]), or, with `mergeNamespaces`, every namespace of the keys into its
/// own section of each file (see [`sync_merged_text`]). Stops at the first file whose text
/// cannot be read: gives the files synced before it, then the failure.
pub fn sync_namespaces(config: &Config, keys: &[ExtractedKey], files: &[LocaleFile], dry_run: bool) -> (r: Result<
    (Vec<FileSync>, Option<SyncFailure>),
    SyncFailure,
>)
    ensures
        match r {
            Ok((done, failure)) => exists|m: PreserveMatcher| #[trigger] sync_outcome(*config, m, key_views(keys@), files@, dry_run, done@, failure),
            Err(SyncFailure::InvalidPreservePattern(e)) => !all_compile(views(config.preserve_patterns@))
                && glob_pattern_error(e.pattern@) == Some(e.message@),
            Err(_) => false,
        },
        r is Ok <==> all_compile(views(config.preserve_patterns@)),
{
    let matcher = match PreserveMatcher::new(&config.preserve_patterns, config.ns_separator.as_str()) {
        Ok(m) => m,
        Err(e) => {
            return Err(SyncFailure::InvalidPreservePattern(e));
        },
    };
    let ghost kv = key_views(keys@);
    let namespaces = collect_namespaces(keys, config.default_namespace.as_str());
    let mut done: Vec<FileSync> = Vec::new();
    let mut i: usize = 0;
    while i < files.len()
        invariant
            i <= files@.len(),
            matcher.wf(),
            kv == key_views(keys@),
            views(namespaces@) == namespaces_of(kv, config.default_namespace@),
            all_compile(views(config.preserve_patterns@)),
            matcher@.key_patterns == views(config.preserve_patterns@).filter(key_pattern(config.ns_separator@)),
            matcher@.namespaced_patterns == views(config.preserve_patterns@).filter(namespaced_pattern(config.ns_separator@)),
            matcher@.ns_separator == config.ns_separator@,
            all_synced(*config, matcher, kv, files@, dry_run, done@, i as int),
        decreases files.len() - i,
    {
        let f = &files[i];
        let synced_one = if config.merge_namespaces {
            sync_merged_text(f.path.as_str(), f.content.as_str(), keys, &namespaces, config, &matcher, dry_run)
        } else {
            sync_locale_text(f.path.as_str(), f.content.as_str(), keys, f.namespace.as_str(), config, &matcher, dry_run)
        };
        match synced_one {
            Ok(fs) => {
                let ghost before = done@;
                done.push(fs);
                assert forall|j: int| 0 <= j < i + 1 implies (#[trigger] synced_file(*config, matcher, kv, files@[j].namespace@, files@[j].content@, dry_run) matches Ok(e)
                    && sync_matches(done@[j], files@[j].path@, e)) by {
                    if j < i {
                        assert(done@[j] == before[j]);
                    }
                }
            },
            Err(error) => {
                let failure = SyncFailure::Parse { path: f.path.clone(), error };
                assert(all_synced(*config, matcher, key_views(keys@), files@, dry_run, done@, done@.len() as int));
                assert(done@.len() == i);
                assert(files@[i as int] == *f);
                assert(synced_file(*config, matcher, key_views(keys@), files@[done@.len() as int].namespace@, files@[done@.len() as int].content@, dry_run)
                    == Err::<(MergeState, Seq<Seq<char>>, Option<Seq<char>>), LocaleParseError>(error));
                let res = (done, Some(failure));
                assert(sync_outcome(*config, matcher, key_views(keys@), files@, dry_run, res.0@, res.1));
                return Ok(res);
            },
        }
        i = i + 1;
    }
    assert(all_synced(*config, matcher, key_views(keys@), files@, dry_run, done@, done@.len() as int));
    assert(sync_outcome(*config, matcher, key_views(keys@), files@, dry_run, done@, None));
    let res = (done, None);
    assert(sync_outcome(*config, matcher, key_views(keys@), files@, dry_run, res.0@, res.1));
    Ok(res)
}

/// The order of `String` is transitive.
pub proof fn lemma_text_lt_trans(a: Seq<char>, b: Seq<char>, c: Seq<char>)
    requires
        text_lt(a, b),
        text_lt(b, c),
    ensures
        text_lt(a, c),
    decreases a.len(),
{
    if a.len() > 0 && b.len() > 0 && c.len() > 0 && a[0] == b[0] && b[0] == c[0] {
        lemma_text_lt_trans(a.drop_first(), b.drop_first(), c.drop_first());
    }
}

/// Two different texts are ordered one way or the other.
pub proof fn lemma_text_lt_total(a: Seq<char>, b: Seq<char>)
    ensures
        a == b || text_lt(a, b) || text_lt(b, a),
    decreases a.len(),
{
    if a.len() > 0 && b.len() > 0 && a[0] == b[0] {
        lemma_text_lt_total(a.drop_first(), b.drop_first());
        if a.drop_first() == b.drop_first() {
            assert(a =~= seq![a[0]] + a.drop_first());
            assert(b =~= seq![b[0]] + b.drop_first());
        }
    } else if a.len() == 0 && b.len() == 0 {
        assert(a =~= b);
    }
}

} // verus!
