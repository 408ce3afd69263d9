//! Renaming a translation key: in source texts (quoted occurrences) and in locale files.
use crate::cleanup::{remove_nested_key, remove_path};
use crate::config::OutputFormat;
use crate::json::{clone_json, entries_of, find_key_exec, get_path, lemma_entries_of, lemma_find_key, obj_get, obj_get_exec, obj_set, obj_set_exec, tree_of, JsonTree, JsonValue};
use crate::locale::{detect_json_style, detected_indent, locale_map, locale_text, parse_locale_map, render_locale, sort_keys_alphabetically, sorted_map, JsonStyle, LocaleParseError};
use crate::text::{append_chars, chars_of, concat3, contains, contains_exec, find_from, find_from_exec, ends_with, lemma_find_from_bounds, seq_eq, slice_vec, split, split_exec, string_of};
use vstd::prelude::*;

verus! {

/// A key's namespace and path: what precedes and follows its first `:`, or the default
/// namespace and the whole key.
pub open spec fn key_with_ns(key: Seq<char>, default_ns: Seq<char>) -> (Seq<char>, Seq<char>) {
    match find_from(key, ":"@, 0) {
        Some(i) => (key.take(i), key.skip(i + 1)),
        None => (default_ns, key),
    }
}

/// Splits a key into its namespace and path (see [`key_with_ns`]).
pub fn parse_key_with_ns(key: &str, default_ns: &str) -> (r: (String, String))
    ensures
        (r.0@, r.1@) == key_with_ns(key@, default_ns@),
{
    let k = chars_of(key);
    let colon = chars_of(":");
    proof {
        reveal_strlit(":");
        lemma_find_from_bounds(k@, colon@, 0);
    }
    match find_from_exec(&k, &colon, 0) {
        Some(i) => {
            let n = k.len();
            (string_of(&slice_vec(&k, 0, i)), string_of(&slice_vec(&k, i + 1, n)))
        },
        None => (string_of(&chars_of(default_ns)), string_of(&k)),
    }
}

/// How a key is written in source: the path alone in the default namespace, else
/// `namespace:path`.
pub open spec fn source_key(ns: Seq<char>, path: Seq<char>, default_ns: Seq<char>) -> Seq<char> {
    if ns == default_ns {
        path
    } else {
        ns + ":"@ + path
    }
}

/// How a key is written in source (see [`source_key`]).
pub fn source_key_exec(ns: &str, path: &str, default_ns: &str) -> (r: String)
    ensures
        r@ == source_key(ns@, path@, default_ns@),
{
    if seq_eq(&chars_of(ns), &chars_of(default_ns)) {
        string_of(&chars_of(path))
    } else {
        string_of(&concat3(&chars_of(ns), &chars_of(":"), &chars_of(path)))
    }
}

/// `s[i..]` with every occurrence of `from` (left to right, not overlapping) replaced by
/// `to` (`str::replace`).
pub open spec fn replace_from(s: Seq<char>, from: Seq<char>, to: Seq<char>, i: int) -> Seq<char>
    decreases s.len() - i,
{
    if from.len() == 0 || i < 0 || i > s.len() {
        Seq::empty()
    } else {
        match find_from(s, from, i) {
            None => s.subrange(i, s.len() as int),
            Some(k) => if k < i || k + from.len() > s.len() {
                Seq::empty()
            } else {
                s.subrange(i, k) + to + replace_from(s, from, to, k + from.len())
            },
        }
    }
}

/// `s` with every occurrence of a non-empty `from` replaced by `to`.
pub open spec fn replace_all(s: Seq<char>, from: Seq<char>, to: Seq<char>) -> Seq<char> {
    replace_from(s, from, to, 0)
}

/// Replaces every occurrence of a non-empty `from` by `to` (see [`replace_all`]).
pub(crate) fn replace_all_exec(s: &[char], from: &[char], to: &[char]) -> (r: Vec<char>)
    requires
        from@.len() > 0,
    ensures
        r@ == replace_all(s@, from@, to@),
{
    let mut out: Vec<char> = Vec::new();
    let mut i: usize = 0;
    loop
        invariant
            from@.len() > 0,
            i <= s@.len(),
            out@ + replace_from(s@, from@, to@, i as int) == replace_all(s@, from@, to@),
        decreases s@.len() - i,
    {
        proof {
            lemma_find_from_bounds(s@, from@, i as int);
        }
        match find_from_exec(s, from, i) {
            None => {
                let ghost o = out@;
                append_chars(&mut out, &slice_vec(s, i, s.len()));
                assert(out@ == o + replace_from(s@, from@, to@, i as int));
                return out;
            },
            Some(k) => {
                let n = s.len();
                let ghost o = out@;
                append_chars(&mut out, &slice_vec(s, i, k));
                append_chars(&mut out, to);
                assert(o + replace_from(s@, from@, to@, i as int) =~= out@ + replace_from(s@, from@, to@, (k + from.len()) as int));
                i = k + from.len();
            },
        }
    }
}

/// A quoted form of a key: the key between two `q` characters.
pub open spec fn quoted(q: char, k: Seq<char>) -> Seq<char> {
    seq![q] + k + seq![q]
}

/// A source text with a key renamed: each of its single-, double- and back-quoted forms
/// replaced in turn. `None` when no quoted form occurs or nothing changes.
pub open spec fn renamed_source(content: Seq<char>, search: Seq<char>, replace: Seq<char>) -> Option<Seq<char>> {
    if contains(content, quoted('\'', search)) || contains(content, quoted('"', search)) || contains(content, quoted('`', search)) {
        let a = replace_all(content, quoted('\'', search), quoted('\'', replace));
        let b = replace_all(a, quoted('"', search), quoted('"', replace));
        let c = replace_all(b, quoted('`', search), quoted('`', replace));
        if c != content {
            Some(c)
        } else {
            None
        }
    } else {
        None
    }
}

/// A key between two `q` characters.
fn quoted_exec(q: char, k: &[char]) -> (r: Vec<char>)
    ensures
        r@ == quoted(q, k@),
{
    let mut out: Vec<char> = Vec::new();
    out.push(q);
    append_chars(&mut out, k);
    out.push(q);
    assert(out@ =~= quoted(q, k@));
    out
}

/// Renames a key in a source text (see [`renamed_source`]).
pub fn rename_in_source(content: &str, search_key: &str, replace_key: &str) -> (r: Option<String>)
    ensures
        match r {
            Some(t) => renamed_source(content@, search_key@, replace_key@) == Some(t@),
            None => renamed_source(content@, search_key@, replace_key@) is None,
        },
{
    let c = chars_of(content);
    let s = chars_of(search_key);
    let t = chars_of(replace_key);
    let sq = quoted_exec('\'', &s);
    let dq = quoted_exec('"', &s);
    let bq = quoted_exec('`', &s);
    if !(contains_exec(&c, &sq) || contains_exec(&c, &dq) || contains_exec(&c, &bq)) {
        return None;
    }
    let a = replace_all_exec(&c, &sq, &quoted_exec('\'', &t));
    let b = replace_all_exec(&a, &dq, &quoted_exec('"', &t));
    let d = replace_all_exec(&b, &bq, &quoted_exec('`', &t));
    if seq_eq(&d, &c) {
        None
    } else {
        Some(string_of(&d))
    }
}

/// The value at a dot-separated path of a value (see [`get_path`]).
pub fn get_nested_value(json: &JsonValue, path: &str) -> (r: Option<JsonValue>)
    ensures
        match r {
            Some(v) => get_path(json@, split(path@, "."@), 0) == Some(v@),
            None => get_path(json@, split(path@, "."@), 0) is None,
        },
{
    let dot = chars_of(".");
    proof {
        reveal_strlit(".");
    }
    let parts = split_exec(&chars_of(path), &dot);
    let ghost pv = parts@.map_values(|v: Vec<char>| v@);
    let mut current = json;
    let mut i: usize = 0;
    while i < parts.len()
        invariant
            i <= parts@.len(),
            pv == parts@.map_values(|v: Vec<char>| v@),
            pv == split(path@, "."@),
            get_path(json@, pv, 0) == get_path(current@, pv, i as int),
        decreases parts.len() - i,
    {
        assert(pv[i as int] == parts@[i as int]@);
        match current {
            JsonValue::Object(ms) => match obj_get_exec(ms, &parts[i]) {
                Some(v) => {
                    current = v;
                },
                None => {
                    return None;
                },
            },
            _ => {
                return None;
            },
        }
        i = i + 1;
    }
    Some(clone_json(current))
}

/// Setting the value at path `parts[i..]`: missing parts become empty objects (appended),
/// the last part is set (in place when present); a part that leads to a non-object leaves
/// everything as it was.
pub open spec fn set_path(t: JsonTree, parts: Seq<Seq<char>>, i: int, v: JsonTree) -> JsonTree
    decreases parts.len() - i,
{
    if i < 0 || i >= parts.len() {
        t
    } else {
        match t {
            JsonTree::Object(ms) => if i == parts.len() - 1 {
                JsonTree::Object(obj_set(ms, parts[i], v))
            } else {
                let inner = match obj_get(ms, parts[i]) {
                    Some(x) => x,
                    None => JsonTree::Object(Seq::empty()),
                };
                match inner {
                    JsonTree::Object(_) => JsonTree::Object(obj_set(ms, parts[i], set_path(inner, parts, i + 1, v))),
                    _ => t,
                }
            },
            _ => t,
        }
    }
}

/// Whether a value can be set at `parts[i..]`: the value is an object, and every part
/// before the last that is present leads to an object.
pub open spec fn settable(t: JsonTree, parts: Seq<Seq<char>>, i: int) -> bool
    decreases parts.len() - i,
{
    if i < 0 || i >= parts.len() {
        true
    } else {
        match t {
            JsonTree::Object(ms) => if i == parts.len() - 1 {
                true
            } else {
                match obj_get(ms, parts[i]) {
                    Some(x) => x is Object && settable(x, parts, i + 1),
                    None => true,
                }
            },
            _ => false,
        }
    }
}

/// Every path can be set in an empty object.
proof fn lemma_settable_empty(parts: Seq<Seq<char>>, i: int)
    ensures
        settable(JsonTree::Object(Seq::empty()), parts, i),
{
    if 0 <= i < parts.len() {
        crate::json::lemma_find_key(Seq::<(Seq<char>, JsonTree)>::empty(), parts[i]);
    }
}

/// Setting a value at a path it can be set at, then reading that path, gives the value.
pub proof fn lemma_set_then_get(t: JsonTree, parts: Seq<Seq<char>>, i: int, v: JsonTree)
    requires
        0 <= i < parts.len(),
        settable(t, parts, i),
    ensures
        get_path(set_path(t, parts, i, v), parts, i) == Some(v),
    decreases parts.len() - i,
{
    let ms = t->Object_0;
    let k = parts[i];
    if i == parts.len() - 1 {
        crate::locale::lemma_obj_set_get(ms, k, v);
        assert(get_path(v, parts, i + 1) == Some(v));
    } else {
        let inner = match obj_get(ms, k) {
            Some(x) => x,
            None => JsonTree::Object(Seq::empty()),
        };
        if obj_get(ms, k) is None {
            lemma_settable_empty(parts, i + 1);
        }
        lemma_set_then_get(inner, parts, i + 1, v);
        crate::locale::lemma_obj_set_get(ms, k, set_path(inner, parts, i + 1, v));
    }
}

/// Renaming a key within one namespace moves its value: when the old path holds a value
/// and the new path can be set once the old one is removed, the new path holds that value
/// afterwards.
pub proof fn lemma_rename_moves_value(ms: Seq<(Seq<char>, JsonTree)>, old_path: Seq<char>, new_path: Seq<char>, v: JsonTree)
    requires
        get_path(JsonTree::Object(ms), split(old_path, "."@), 0) == Some(v),
        split(new_path, "."@).len() > 0,
        settable(remove_value_path(JsonTree::Object(ms), old_path), split(new_path, "."@), 0),
    ensures
        get_path(set_path(remove_value_path(JsonTree::Object(ms), old_path), split(new_path, "."@), 0, v), split(new_path, "."@), 0) == Some(v),
{
    lemma_set_then_get(remove_value_path(JsonTree::Object(ms), old_path), split(new_path, "."@), 0, v);
}

/// Sets the value at `parts[i..]` (see [`set_path`]).
fn set_from(json: &mut JsonValue, parts: &Vec<Vec<char>>, i: usize, value: JsonValue)
    ensures
        final(json)@ == set_path(old(json)@, crate::text::cviews(parts@), i as int, value@),
    decreases parts@.len() - i,
{
    let ghost pv = crate::text::cviews(parts@);
    if i >= parts.len() {
        return;
    }
    assert(pv[i as int] == parts@[i as int]@);
    match json {
        JsonValue::Object(ms) => {
            proof {
                lemma_entries_of(ms@);
                lemma_find_key(entries_of(ms@), pv[i as int]);
            }
            let ghost e0 = entries_of(ms@);
            let key = string_of(&parts[i]);
            if i == parts.len() - 1 {
                obj_set_exec(ms, key, value);
                return;
            }
            match find_key_exec(ms, &parts[i]) {
                Some(j) => {
                    assert(obj_get(e0, pv[i as int]) == Some(tree_of(ms@[j as int].1)));
                    let (name, inner) = ms.remove(j);
                    match inner {
                        JsonValue::Object(_) => {
                            let mut inner = inner;
                            set_from(&mut inner, parts, i + 1, value);
                            let ghost iv = inner@;
                            ms.insert(j, (name, inner));
                            proof {
                                lemma_entries_of(ms@);
                                assert(entries_of(ms@) =~= e0.update(j as int, (pv[i as int], iv)));
                            }
                        },
                        other => {
                            ms.insert(j, (name, other));
                            proof {
                                lemma_entries_of(ms@);
                                assert(entries_of(ms@) =~= e0);
                            }
                        },
                    }
                },
                None => {
                    let mut inner = JsonValue::Object(Vec::new());
                    assert(inner@ == JsonTree::Object(Seq::empty())) by {
                        assert(entries_of(Seq::<(String, JsonValue)>::empty()) =~= Seq::<(Seq<char>, JsonTree)>::empty());
                    }
                    set_from(&mut inner, parts, i + 1, value);
                    obj_set_exec(ms, key, inner);
                },
            }
        },
        _ => {},
    }
}

/// Sets the value at a dot-separated path (see [`set_path`]).
pub fn set_nested_value(json: &mut JsonValue, path: &str, value: JsonValue)
    ensures
        final(json)@ == set_path(old(json)@, split(path@, "."@), 0, value@),
{
    let dot = chars_of(".");
    proof {
        reveal_strlit(".");
    }
    let parts = split_exec(&chars_of(path), &dot);
    assert(crate::text::cviews(parts@) =~= parts@.map_values(|v: Vec<char>| v@));
    set_from(json, &parts, 0, value);
}

/// Removing a dot-separated path from a value: from an object as [`remove_path`] does;
/// other values are left as they are.
pub open spec fn remove_value_path(t: JsonTree, path: Seq<char>) -> JsonTree {
    match t {
        JsonTree::Object(ms) => JsonTree::Object(remove_path(ms, split(path, "."@), 0).0),
        _ => t,
    }
}

/// Removes a dot-separated path from a value (see [`remove_value_path`]).
pub fn remove_nested_value(json: &mut JsonValue, path: &str)
    ensures
        final(json)@ == remove_value_path(old(json)@, path@),
{
    match json {
        JsonValue::Object(ms) => {
            remove_nested_key(ms, path);
        },
        _ => {},
    }
}

/// What renaming a key does to a locale's files: the new text of the old namespace's file,
/// and, when the namespace changes, that of the new namespace's file.
#[derive(Debug)]
pub struct LocaleRename {
    pub old_file: String,
    pub new_file: Option<String>,
}

/// The layout a locale file is written in: that of its current text when the file exists,
/// else two-space indentation, LF line breaks and a final line break.
pub open spec fn layout_of(current: Option<Seq<char>>) -> (Seq<char>, bool, bool) {
    match current {
        Some(c) => (detected_indent(c), contains(c, "\r\n"@), ends_with(c, "\n"@)),
        None => ("  "@, false, true),
    }
}

/// The text a locale map is written with after a rename: sorted by key, in the format, in
/// the layout of the file (see [`layout_of`]).
pub open spec fn rewritten(ms: Seq<(Seq<char>, JsonTree)>, format: OutputFormat, current: Option<Seq<char>>) -> Seq<char> {
    let (indent, crlf, trailing) = layout_of(current);
    locale_text(sorted_map(ms), format, indent, crlf, trailing)
}

/// The new namespace's file as a rename sees it: the same file as the old key's when the
/// namespace is unchanged (`None`); else whether that file exists, and its text.
pub open spec fn target_view(new_file: Option<Option<&str>>) -> Option<Option<Seq<char>>> {
    match new_file {
        None => None,
        Some(None) => Some(None),
        Some(Some(c)) => Some(Some(c@)),
    }
}

/// What renaming `old_path` to `new_path` does to a locale's files (see [`LocaleRename`]):
/// nothing when the old file is blank or lacks the key; otherwise the key's value moves
/// from its old path to its new one, in the same file (`new_file` is `None`) or into the new
/// namespace's file (an empty map when that file does not exist).
pub open spec fn renamed_locale(
    old_content: Seq<char>,
    new_file: Option<Option<Seq<char>>>,
    old_path: Seq<char>,
    new_path: Seq<char>,
    format: OutputFormat,
) -> Result<Option<(Seq<char>, Option<Seq<char>>)>, LocaleParseError> {
    if crate::text::is_blank(old_content) {
        Ok(None)
    } else {
        match locale_map(old_content, format) {
            Err(e) => Err(e),
            Ok(ms) => match get_path(JsonTree::Object(ms), split(old_path, "."@), 0) {
                None => Ok(None),
                Some(v) => {
                    let removed = remove_value_path(JsonTree::Object(ms), old_path);
                    match new_file {
                        Some(target) => {
                            let parsed = match target {
                                Some(nc) => locale_map(nc, format),
                                None => Ok(Seq::empty()),
                            };
                            match parsed {
                                Err(e) => Err(e),
                                Ok(nms) => {
                                    let added = set_path(JsonTree::Object(nms), split(new_path, "."@), 0, v);
                                    Ok(Some((rewritten(removed->Object_0, format, Some(old_content)), Some(rewritten(added->Object_0, format, target)))))
                                },
                            }
                        },
                        None => {
                            let moved = set_path(removed, split(new_path, "."@), 0, v);
                            Ok(Some((rewritten(moved->Object_0, format, Some(old_content)), None)))
                        },
                    }
                },
            },
        }
    }
}

/// Setting a path in an object keeps it an object.
proof fn lemma_set_path_object(t: JsonTree, parts: Seq<Seq<char>>, i: int, v: JsonTree)
    requires
        t is Object,
    ensures
        set_path(t, parts, i, v) is Object,
{
}

/// A locale text written in the layout of the file (see [`rewritten`]).
pub(crate) fn rewrite(ms: Vec<(String, JsonValue)>, format: OutputFormat, current: Option<&str>) -> (r: String)
    ensures
        r@ == rewritten(entries_of(ms@), format, match current { Some(c) => Some(c@), None => None }),
{
    let style = match current {
        Some(c) => detect_json_style(c),
        None => {
            proof {
                reveal_strlit("  ");
            }
            JsonStyle { indent: string_of(&chars_of("  ")), use_crlf: false, trailing_newline: true }
        },
    };
    let sorted = sort_keys_alphabetically(&ms);
    render_locale(sorted, format, &style)
}

/// Renames a key in a locale's files (see [`renamed_locale`]).
pub fn rename_in_locale(
    old_content: &str,
    new_file: Option<Option<&str>>,
    old_path: &str,
    new_path: &str,
    format: OutputFormat,
) -> (r: Result<Option<LocaleRename>, LocaleParseError>)
    ensures
        match r {
            Ok(None) => renamed_locale(old_content@, target_view(new_file), old_path@, new_path@, format)
                == Ok::<Option<(Seq<char>, Option<Seq<char>>)>, LocaleParseError>(None),
            Ok(Some(lr)) => renamed_locale(old_content@, target_view(new_file), old_path@, new_path@, format)
                == Ok::<Option<(Seq<char>, Option<Seq<char>>)>, LocaleParseError>(Some((lr.old_file@, match lr.new_file { Some(t) => Some(t@), None => None }))),
            Err(e) => renamed_locale(old_content@, target_view(new_file), old_path@, new_path@, format)
                == Err::<Option<(Seq<char>, Option<Seq<char>>)>, LocaleParseError>(e),
        },
{
    if crate::text::is_blank_exec(&chars_of(old_content)) {
        return Ok(None);
    }
    let ms = match parse_locale_map(old_content, format) {
        Ok(m) => m,
        Err(e) => {
            return Err(e);
        },
    };
    let mut json = JsonValue::Object(ms);
    let value = match get_nested_value(&json, old_path) {
        Some(v) => v,
        None => {
            return Ok(None);
        },
    };
    remove_nested_value(&mut json, old_path);
    match new_file {
        Some(target) => {
            let nms = match target {
                Some(nc) => match parse_locale_map(nc, format) {
                    Ok(m) => m,
                    Err(e) => {
                        return Err(e);
                    },
                },
                None => Vec::new(),
            };
            proof {
                assert(entries_of(Seq::<(String, JsonValue)>::empty()) =~= Seq::<(Seq<char>, JsonTree)>::empty());
            }
            let ghost nv = entries_of(nms@);
            let mut added = JsonValue::Object(nms);
            set_nested_value(&mut added, new_path, value);
            proof {
                lemma_set_path_object(JsonTree::Object(nv), split(new_path@, "."@), 0, value@);
            }
            let old_text = match json {
                JsonValue::Object(m) => rewrite(m, format, Some(old_content)),
                _ => string_of(&Vec::new()),
            };
            let new_text = match added {
                JsonValue::Object(m) => rewrite(m, format, target),
                _ => string_of(&Vec::new()),
            };
            Ok(Some(LocaleRename { old_file: old_text, new_file: Some(new_text) }))
        },
        None => {
            set_nested_value(&mut json, new_path, value);
            proof {
                lemma_set_path_object(remove_value_path(JsonTree::Object(entries_of(ms@)), old_path@), split(new_path@, "."@), 0, value@);
            }
            let old_text = match json {
                JsonValue::Object(m) => rewrite(m, format, Some(old_content)),
                _ => string_of(&Vec::new()),
            };
            Ok(Some(LocaleRename { old_file: old_text, new_file: None }))
        },
    }
}

} // verus!
