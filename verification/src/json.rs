//! A JSON value type of the library's own, with a mathematical mirror.
use crate::text::{append_chars, chars_of, concat2, seq_eq};
use vstd::prelude::*;

verus! {

/// A JSON value. Object members keep their order.
#[derive(Debug)]
pub enum JsonValue {
    Null,
    Bool(bool),
    /// A number, held as the text that denotes it.
    Number(String),
    Str(String),
    Array(Vec<JsonValue>),
    Object(Vec<(String, JsonValue)>),
}

/// The mathematical content of a [`JsonValue`].
pub enum JsonTree {
    Null,
    Bool(bool),
    Number(Seq<char>),
    Str(Seq<char>),
    Array(Seq<JsonTree>),
    Object(Seq<(Seq<char>, JsonTree)>),
}

pub open spec fn tree_of(v: JsonValue) -> JsonTree
    decreases v, 0nat,
{
    match v {
        JsonValue::Null => JsonTree::Null,
        JsonValue::Bool(b) => JsonTree::Bool(b),
        JsonValue::Number(n) => JsonTree::Number(n@),
        JsonValue::Str(s) => JsonTree::Str(s@),
        JsonValue::Array(items) => JsonTree::Array(trees_of(items@)),
        JsonValue::Object(entries) => JsonTree::Object(entries_of(entries@)),
    }
}

pub open spec fn trees_of(s: Seq<JsonValue>) -> Seq<JsonTree>
    decreases s, s.len(),
{
    if s.len() == 0 {
        Seq::empty()
    } else {
        trees_of(s.drop_last()).push(tree_of(s.last()))
    }
}

pub open spec fn entries_of(s: Seq<(String, JsonValue)>) -> Seq<(Seq<char>, JsonTree)>
    decreases s, s.len(),
{
    if s.len() == 0 {
        Seq::empty()
    } else {
        entries_of(s.drop_last()).push((s.last().0@, tree_of(s.last().1)))
    }
}


pub proof fn lemma_trees_of(s: Seq<JsonValue>)
    ensures
        trees_of(s).len() == s.len(),
        forall|i: int| 0 <= i < s.len() ==> #[trigger] trees_of(s)[i] == tree_of(s[i]),
    decreases s.len(),
{
    if s.len() > 0 {
        lemma_trees_of(s.drop_last());
    }
}

pub proof fn lemma_entries_of(s: Seq<(String, JsonValue)>)
    ensures
        entries_of(s).len() == s.len(),
        forall|i: int|
            0 <= i < s.len() ==> #[trigger] entries_of(s)[i] == (s[i].0@, tree_of(s[i].1)),
    decreases s.len(),
{
    if s.len() > 0 {
        lemma_entries_of(s.drop_last());
    }
}

impl View for JsonValue {
    type V = JsonTree;

    open spec fn view(&self) -> JsonTree {
        tree_of(*self)
    }
}

/// Index of the first member of `es` at or after `i` whose key is `k`.
pub open spec fn find_key_from(es: Seq<(Seq<char>, JsonTree)>, k: Seq<char>, i: int) -> Option<int>
    decreases es.len() - i,
{
    if i < 0 || i >= es.len() {
        None
    } else if es[i].0 == k {
        Some(i)
    } else {
        find_key_from(es, k, i + 1)
    }
}

pub open spec fn find_key(es: Seq<(Seq<char>, JsonTree)>, k: Seq<char>) -> Option<int> {
    find_key_from(es, k, 0)
}

pub proof fn lemma_find_key_from(es: Seq<(Seq<char>, JsonTree)>, k: Seq<char>, i: int)
    requires
        0 <= i,
    ensures
        find_key_from(es, k, i) matches Some(j) ==> i <= j < es.len() && es[j].0 == k && (forall|m: int| i <= m < j ==> es[m].0 != k),
        find_key_from(es, k, i) is None ==> forall|m: int| i <= m < es.len() ==> es[m].0 != k,
    decreases es.len() - i,
{
    if i < es.len() && es[i].0 != k {
        lemma_find_key_from(es, k, i + 1);
    }
}

pub proof fn lemma_find_key(es: Seq<(Seq<char>, JsonTree)>, k: Seq<char>)
    ensures
        find_key(es, k) matches Some(j) ==> 0 <= j < es.len() && es[j].0 == k && (forall|m: int| 0 <= m < j ==> es[m].0 != k),
        find_key(es, k) is None ==> forall|m: int| 0 <= m < es.len() ==> es[m].0 != k,
{
    lemma_find_key_from(es, k, 0);
}

/// The value of the first member named `k`.
pub open spec fn obj_get(es: Seq<(Seq<char>, JsonTree)>, k: Seq<char>) -> Option<JsonTree> {
    match find_key(es, k) {
        Some(i) => Some(es[i].1),
        None => None,
    }
}

/// `es` with the member named `k` set to `v`: in place when present, appended otherwise.
pub open spec fn obj_set(es: Seq<(Seq<char>, JsonTree)>, k: Seq<char>, v: JsonTree) -> Seq<(Seq<char>, JsonTree)> {
    match find_key(es, k) {
        Some(i) => es.update(i, (k, v)),
        None => es.push((k, v)),
    }
}

/// `es` without the first member named `k`; the others keep their order.
pub open spec fn obj_remove(es: Seq<(Seq<char>, JsonTree)>, k: Seq<char>) -> Seq<(Seq<char>, JsonTree)> {
    match find_key(es, k) {
        Some(i) => es.remove(i),
        None => es,
    }
}

/// The value at a key path (each part looked up in an object), from part `i`.
pub open spec fn get_path(t: JsonTree, parts: Seq<Seq<char>>, i: int) -> Option<JsonTree>
    decreases parts.len() - i,
{
    if i < 0 || i >= parts.len() {
        Some(t)
    } else {
        match t {
            JsonTree::Object(ms) => match obj_get(ms, parts[i]) {
                Some(v) => get_path(v, parts, i + 1),
                None => None,
            },
            _ => None,
        }
    }
}

/// Whether the string `s` holds exactly the characters `c`.
pub fn string_is(s: &String, c: &[char]) -> (r: bool)
    ensures
        r == (s@ == c@),
{
    let v = chars_of(s.as_str());
    seq_eq(&v, c)
}

/// Index of the first member named `k`.
pub fn find_key_exec(es: &Vec<(String, JsonValue)>, k: &[char]) -> (r: Option<usize>)
    ensures
        match r {
            Some(i) => find_key(entries_of(es@), k@) == Some(i as int),
            None => find_key(entries_of(es@), k@) is None,
        },
{
    proof {
        lemma_entries_of(es@);
    }
    let mut i: usize = 0;
    while i < es.len()
        invariant
            i <= es@.len(),
            entries_of(es@).len() == es@.len(),
            forall|j: int| 0 <= j < es@.len() ==> #[trigger] entries_of(es@)[j] == (es@[j].0@, tree_of(es@[j].1)),
            find_key(entries_of(es@), k@) == find_key_from(entries_of(es@), k@, i as int),
        decreases es.len() - i,
    {
        if string_is(&es[i].0, k) {
            return Some(i);
        }
        i = i + 1;
    }
    None
}

/// The value of the first member named `k`.
pub fn obj_get_exec<'a>(es: &'a Vec<(String, JsonValue)>, k: &[char]) -> (r: Option<&'a JsonValue>)
    ensures
        match r {
            Some(v) => obj_get(entries_of(es@), k@) == Some(v@),
            None => obj_get(entries_of(es@), k@) is None,
        },
{
    proof {
        lemma_entries_of(es@);
    }
    match find_key_exec(es, k) {
        Some(i) => {
            proof {
                lemma_find_key(entries_of(es@), k@);
            }
            Some(&es[i].1)
        },
        None => None,
    }
}

/// Sets the member named `k` to `v` (in place when present, appended otherwise).
pub fn obj_set_exec(es: &mut Vec<(String, JsonValue)>, k: String, v: JsonValue)
    ensures
        entries_of(final(es)@) == obj_set(entries_of(old(es)@), k@, v@),
{
    let kc = chars_of(k.as_str());
    let found = find_key_exec(es, &kc);
    let ghost vv = v@;
    proof {
        lemma_entries_of(es@);
        lemma_find_key(entries_of(es@), kc@);
    }
    match found {
        Some(i) => {
            es.set(i, (k, v));
            proof {
                lemma_entries_of(es@);
                assert(entries_of(es@) =~= entries_of(old(es)@).update(i as int, (kc@, vv)));
            }
        },
        None => {
            es.push((k, v));
            proof {
                lemma_entries_of(es@);
                assert(entries_of(es@) =~= entries_of(old(es)@).push((kc@, vv)));
            }
        },
    }
}

/// Removes the first member named `k`; returns whether one was removed.
pub fn obj_remove_exec(es: &mut Vec<(String, JsonValue)>, k: &[char]) -> (r: bool)
    ensures
        entries_of(final(es)@) == obj_remove(entries_of(old(es)@), k@),
        r == (find_key(entries_of(old(es)@), k@) is Some),
{
    let found = find_key_exec(es, k);
    proof {
        lemma_entries_of(es@);
        lemma_find_key(entries_of(es@), k@);
    }
    match found {
        Some(i) => {
            es.remove(i);
            proof {
                lemma_entries_of(es@);
                assert(entries_of(es@) =~= entries_of(old(es)@).remove(i as int));
            }
            true
        },
        None => false,
    }
}


/// A copy of a JSON value.
pub fn clone_json(v: &JsonValue) -> (r: JsonValue)
    ensures
        r@ == v@,
    decreases v,
{
    match v {
        JsonValue::Null => JsonValue::Null,
        JsonValue::Bool(b) => JsonValue::Bool(*b),
        JsonValue::Number(n) => JsonValue::Number(n.clone()),
        JsonValue::Str(st) => JsonValue::Str(st.clone()),
        JsonValue::Array(items) => {
            let mut out: Vec<JsonValue> = Vec::new();
            let mut i: usize = 0;
            proof {
                lemma_trees_of(items@);
            }
            while i < items.len()
                invariant
                    i <= items@.len(),
                    out@.len() == i,
                    forall|j: int| 0 <= j < i ==> tree_of(#[trigger] out@[j]) == tree_of(items@[j]),
                    *v == JsonValue::Array(*items),
                decreases items.len() - i,
            {
                proof {
                    assert(decreases_to!(*v => v->Array_0));
                    assert(decreases_to!(v->Array_0 => v->Array_0@));
                    assert(decreases_to!(v->Array_0@ => v->Array_0@[i as int]));
                }
                out.push(clone_json(&items[i]));
                i = i + 1;
            }
            proof {
                lemma_trees_of(out@);
                assert(trees_of(out@) =~= trees_of(items@));
            }
            JsonValue::Array(out)
        },
        JsonValue::Object(members) => {
            let mut out: Vec<(String, JsonValue)> = Vec::new();
            let mut i: usize = 0;
            proof {
                lemma_entries_of(members@);
            }
            while i < members.len()
                invariant
                    i <= members@.len(),
                    out@.len() == i,
                    forall|j: int| 0 <= j < i ==> (#[trigger] out@[j]).0@ == members@[j].0@ && tree_of(out@[j].1) == tree_of(members@[j].1),
                    *v == JsonValue::Object(*members),
                decreases members.len() - i,
            {
                proof {
                    assert(decreases_to!(*v => v->Object_0));
                    assert(decreases_to!(v->Object_0 => v->Object_0@));
                    assert(decreases_to!(v->Object_0@ => v->Object_0@[i as int]));
                    assert(decreases_to!(v->Object_0@[i as int] => v->Object_0@[i as int].1));
                }
                let k = members[i].0.clone();
                let x = clone_json(&members[i].1);
                out.push((k, x));
                i = i + 1;
            }
            proof {
                lemma_entries_of(out@);
                assert(entries_of(out@) =~= entries_of(members@));
            }
            JsonValue::Object(out)
        },
    }
}

/// Whether two JSON values are equal.
pub fn json_eq(a: &JsonValue, b: &JsonValue) -> (r: bool)
    ensures
        r == (a@ == b@),
    decreases a,
{
    match (a, b) {
        (JsonValue::Null, JsonValue::Null) => true,
        (JsonValue::Bool(x), JsonValue::Bool(y)) => *x == *y,
        (JsonValue::Number(x), JsonValue::Number(y)) => *x == *y,
        (JsonValue::Str(x), JsonValue::Str(y)) => *x == *y,
        (JsonValue::Array(x), JsonValue::Array(y)) => {
            proof {
                lemma_trees_of(x@);
                lemma_trees_of(y@);
            }
            if x.len() != y.len() {
                return false;
            }
            let mut i: usize = 0;
            while i < x.len()
                invariant
                    i <= x@.len(),
                    x@.len() == y@.len(),
                    trees_of(x@).len() == x@.len(),
                    trees_of(y@).len() == y@.len(),
                    forall|j: int| 0 <= j < x@.len() ==> #[trigger] trees_of(x@)[j] == tree_of(x@[j]),
                    forall|j: int| 0 <= j < y@.len() ==> #[trigger] trees_of(y@)[j] == tree_of(y@[j]),
                    forall|j: int| 0 <= j < i ==> tree_of(#[trigger] x@[j]) == tree_of(y@[j]),
                    *a == JsonValue::Array(*x),
                    *b == JsonValue::Array(*y),
                decreases x.len() - i,
            {
                proof {
                    assert(decreases_to!(*a => a->Array_0));
                    assert(decreases_to!(a->Array_0 => a->Array_0@));
                    assert(decreases_to!(a->Array_0@ => a->Array_0@[i as int]));
                }
                if !json_eq(&x[i], &y[i]) {
                    assert(trees_of(x@)[i as int] != trees_of(y@)[i as int]);
                    assert(trees_of(x@) != trees_of(y@));
                    return false;
                }
                i = i + 1;
            }
            assert(trees_of(x@) =~= trees_of(y@));
            true
        },
        (JsonValue::Object(x), JsonValue::Object(y)) => {
            proof {
                lemma_entries_of(x@);
                lemma_entries_of(y@);
            }
            if x.len() != y.len() {
                return false;
            }
            let mut i: usize = 0;
            while i < x.len()
                invariant
                    i <= x@.len(),
                    x@.len() == y@.len(),
                    entries_of(x@).len() == x@.len(),
                    entries_of(y@).len() == y@.len(),
                    forall|j: int| 0 <= j < x@.len() ==> #[trigger] entries_of(x@)[j] == (x@[j].0@, tree_of(x@[j].1)),
                    forall|j: int| 0 <= j < y@.len() ==> #[trigger] entries_of(y@)[j] == (y@[j].0@, tree_of(y@[j].1)),
                    forall|j: int| 0 <= j < i ==> (#[trigger] x@[j]).0@ == y@[j].0@ && tree_of(x@[j].1) == tree_of(y@[j].1),
                    *a == JsonValue::Object(*x),
                    *b == JsonValue::Object(*y),
                decreases x.len() - i,
            {
                proof {
                    assert(decreases_to!(*a => a->Object_0));
                    assert(decreases_to!(a->Object_0 => a->Object_0@));
                    assert(decreases_to!(a->Object_0@ => a->Object_0@[i as int]));
                    assert(decreases_to!(a->Object_0@[i as int] => a->Object_0@[i as int].1));
                }
                if !(x[i].0 == y[i].0) || !json_eq(&x[i].1, &y[i].1) {
                    assert(entries_of(x@)[i as int] != entries_of(y@)[i as int]);
                    assert(entries_of(x@) != entries_of(y@));
                    return false;
                }
                i = i + 1;
            }
            assert(entries_of(x@) =~= entries_of(y@));
            true
        },
        _ => false,
    }
}

impl Clone for JsonValue {
    fn clone(&self) -> (r: Self)
        ensures
            r@ == self@,
    {
        clone_json(self)
    }
}

impl PartialEq for JsonValue {
    fn eq(&self, other: &Self) -> (r: bool) {
        json_eq(self, other)
    }
}

impl vstd::std_specs::cmp::PartialEqSpecImpl for JsonValue {
    open spec fn obeys_eq_spec() -> bool {
        true
    }

    open spec fn eq_spec(&self, other: &JsonValue) -> bool {
        self@ == other@
    }
}

#[verifier::external_type_specification]
#[verifier::external_body]
pub struct ExSerdeJsonValue(serde_json::Value);

/// Converts a `serde_json::Value` into the library's own value, member order kept.
#[verifier::external_body]
pub(crate) fn json_from_serde(v: &serde_json::Value) -> JsonValue {
    match v {
        serde_json::Value::Null => JsonValue::Null,
        serde_json::Value::Bool(b) => JsonValue::Bool(*b),
        serde_json::Value::Number(n) => JsonValue::Number(n.to_string()),
        serde_json::Value::String(s) => JsonValue::Str(s.clone()),
        serde_json::Value::Array(a) => JsonValue::Array(a.iter().map(json_from_serde).collect()),
        serde_json::Value::Object(o) => JsonValue::Object(
            o.iter().map(|(k, x)| (k.clone(), json_from_serde(x))).collect(),
        ),
    }
}

/// What `serde_json::from_str` makes of a text, as a tree (`None` when it reports an error).
pub uninterp spec fn serde_json_parse(text: Seq<char>) -> Option<JsonTree>;

/// What `json5::from_str` makes of a text, as a tree (`None` when it reports an error).
pub uninterp spec fn json5_parse(text: Seq<char>) -> Option<JsonTree>;

/// The JSON string literal that `serde_json::to_string` writes for a string (quotes and escapes included).
pub uninterp spec fn serde_json_quote(s: Seq<char>) -> Seq<char>;

/// Parses JSON text with `serde_json::from_str` into a `serde_json::Value`, converted to
/// the library's value. The contract names the result; it claims nothing of its shape.
#[verifier::external_body]
pub(crate) fn parse_json_text(text: &str) -> (r: Option<JsonValue>)
    ensures
        match r {
            Some(v) => serde_json_parse(text@) == Some(v@),
            None => serde_json_parse(text@) is None,
        },
{
    match serde_json::from_str::<serde_json::Value>(text) {
        Ok(v) => Some(json_from_serde(&v)),
        Err(_) => None,
    }
}

/// Parses JSON5 text with `json5::from_str` into a `serde_json::Value`, converted to the
/// library's value. The contract names the result; it claims nothing of its shape.
#[verifier::external_body]
pub(crate) fn parse_json5_text(text: &str) -> (r: Option<JsonValue>)
    ensures
        match r {
            Some(v) => json5_parse(text@) == Some(v@),
            None => json5_parse(text@) is None,
        },
{
    match json5::from_str::<serde_json::Value>(text) {
        Ok(v) => Some(json_from_serde(&v)),
        Err(_) => None,
    }
}

/// The quoted, escaped form of a string as `serde_json::to_string` writes it. Serializing a
/// `str` cannot fail in serde_json; the result is named, not described.
#[verifier::external_body]
pub(crate) fn quote_json_string(s: &str) -> (r: Vec<char>)
    ensures
        r@ == serde_json_quote(s@),
{
    serde_json::to_string(s).unwrap_or_default().chars().collect()
}

/// How a JSON document is laid out when written.
pub struct Layout {
    /// One level of indentation.
    pub indent: Vec<char>,
    /// The line break.
    pub newline: Vec<char>,
    /// Whether an empty array or object is written as `[]` / `{}` on one line.
    pub compact_empty: bool,
}

pub open spec fn repeat(s: Seq<char>, n: nat) -> Seq<char>
    decreases n,
{
    if n == 0 {
        Seq::empty()
    } else {
        repeat(s, (n - 1) as nat) + s
    }
}

/// The text of `t` written at nesting `level` with the given indent, newline and empty-container style.
pub open spec fn render(t: JsonTree, ind: Seq<char>, nl: Seq<char>, compact: bool, level: nat) -> Seq<char>
    decreases t, 0nat,
{
    match t {
        JsonTree::Null => "null"@,
        JsonTree::Bool(b) => if b { "true"@ } else { "false"@ },
        JsonTree::Number(n) => n,
        JsonTree::Str(s) => serde_json_quote(s),
        JsonTree::Array(items) => if compact && items.len() == 0 {
            "[]"@
        } else {
            "["@ + render_items(items, ind, nl, compact, level + 1) + nl + repeat(ind, level) + "]"@
        },
        JsonTree::Object(members) => if compact && members.len() == 0 {
            "{}"@
        } else {
            "{"@ + render_members(members, ind, nl, compact, level + 1) + nl + repeat(ind, level)
                + "}"@
        },
    }
}

/// The separator written before the element at index `i`.
pub open spec fn elem_sep(i: int, nl: Seq<char>) -> Seq<char> {
    if i == 0 { nl } else { ","@ + nl }
}

pub open spec fn render_items(items: Seq<JsonTree>, ind: Seq<char>, nl: Seq<char>, compact: bool, level: nat) -> Seq<char>
    decreases items, items.len(),
{
    if items.len() == 0 {
        Seq::empty()
    } else {
        render_items(items.drop_last(), ind, nl, compact, level) + elem_sep(items.len() - 1, nl)
            + repeat(ind, level) + render(items.last(), ind, nl, compact, level)
    }
}

pub open spec fn render_members(members: Seq<(Seq<char>, JsonTree)>, ind: Seq<char>, nl: Seq<char>, compact: bool, level: nat) -> Seq<char>
    decreases members, members.len(),
{
    if members.len() == 0 {
        Seq::empty()
    } else {
        render_members(members.drop_last(), ind, nl, compact, level) + elem_sep(members.len() - 1, nl)
            + repeat(ind, level) + serde_json_quote(members.last().0) + ": "@ + render(
            members.last().1,
            ind,
            nl,
            compact,
            level,
        )
    }
}


fn render_into(v: &JsonValue, layout: &Layout, cur: &Vec<char>, Ghost(level): Ghost<nat>, out: &mut Vec<char>)
    requires
        cur@ == repeat(layout.indent@, level),
    ensures
        final(out)@ == old(out)@ + render(v@, layout.indent@, layout.newline@, layout.compact_empty, level),
    decreases v,
{
    let ghost ind = layout.indent@;
    let ghost nl = layout.newline@;
    let ghost compact = layout.compact_empty;
    match v {
        JsonValue::Null => {
            append_chars(out, &chars_of("null"));
        },
        JsonValue::Bool(b) => {
            if *b {
                append_chars(out, &chars_of("true"));
            } else {
                append_chars(out, &chars_of("false"));
            }
        },
        JsonValue::Number(n) => {
            append_chars(out, &chars_of(n.as_str()));
        },
        JsonValue::Str(st) => {
            append_chars(out, &quote_json_string(st.as_str()));
        },
        JsonValue::Array(items) => {
            proof {
                lemma_trees_of(items@);
            }
            if layout.compact_empty && items.len() == 0 {
                append_chars(out, &chars_of("[]"));
                return;
            }
            let ghost start = out@;
            append_chars(out, &chars_of("["));
            let inner = concat2(cur, &layout.indent);
            assert(inner@ == repeat(ind, level + 1));
            let mut i: usize = 0;
            while i < items.len()
                invariant
                    i <= items@.len(),
                    inner@ == repeat(ind, level + 1),
                    cur@ == repeat(ind, level),
                    ind == layout.indent@,
                    nl == layout.newline@,
                    compact == layout.compact_empty,
                    trees_of(items@).len() == items@.len(),
                    forall|j: int| 0 <= j < items@.len() ==> #[trigger] trees_of(items@)[j] == tree_of(items@[j]),
                    *v == JsonValue::Array(*items),
                    out@ == start + "["@ + render_items(trees_of(items@).subrange(0, i as int), ind, nl, compact, level + 1),
                decreases items.len() - i,
            {
                let ghost before = out@;
                if i == 0 {
                    append_chars(out, &layout.newline);
                } else {
                    append_chars(out, &concat2(&chars_of(","), &layout.newline));
                }
                append_chars(out, &inner);
                proof {
                    assert(decreases_to!(*v => v->Array_0));
                    assert(decreases_to!(v->Array_0 => v->Array_0@));
                    assert(decreases_to!(v->Array_0@ => v->Array_0@[i as int]));
                }
                render_into(&items[i], layout, &inner, Ghost(level + 1), out);
                proof {
                    let ts = trees_of(items@).subrange(0, i + 1);
                    assert(ts.drop_last() =~= trees_of(items@).subrange(0, i as int));
                    assert(ts.last() == tree_of(items@[i as int]));
                }
                i = i + 1;
            }
            assert(trees_of(items@).subrange(0, items@.len() as int) =~= trees_of(items@));
            append_chars(out, &layout.newline);
            append_chars(out, cur);
            append_chars(out, &chars_of("]"));
        },
        JsonValue::Object(members) => {
            proof {
                lemma_entries_of(members@);
            }
            if layout.compact_empty && members.len() == 0 {
                append_chars(out, &chars_of("{}"));
                return;
            }
            let ghost start = out@;
            append_chars(out, &chars_of("{"));
            let inner = concat2(cur, &layout.indent);
            assert(inner@ == repeat(ind, level + 1));
            let mut i: usize = 0;
            while i < members.len()
                invariant
                    i <= members@.len(),
                    inner@ == repeat(ind, level + 1),
                    cur@ == repeat(ind, level),
                    ind == layout.indent@,
                    nl == layout.newline@,
                    compact == layout.compact_empty,
                    entries_of(members@).len() == members@.len(),
                    forall|j: int| 0 <= j < members@.len() ==> #[trigger] entries_of(members@)[j] == (members@[j].0@, tree_of(members@[j].1)),
                    *v == JsonValue::Object(*members),
                    out@ == start + "{"@ + render_members(entries_of(members@).subrange(0, i as int), ind, nl, compact, level + 1),
                decreases members.len() - i,
            {
                if i == 0 {
                    append_chars(out, &layout.newline);
                } else {
                    append_chars(out, &concat2(&chars_of(","), &layout.newline));
                }
                append_chars(out, &inner);
                append_chars(out, &quote_json_string(members[i].0.as_str()));
                append_chars(out, &chars_of(": "));
                proof {
                    assert(decreases_to!(*v => v->Object_0));
                    assert(decreases_to!(v->Object_0 => v->Object_0@));
                    assert(decreases_to!(v->Object_0@ => v->Object_0@[i as int]));
                    assert(decreases_to!(v->Object_0@[i as int] => v->Object_0@[i as int].1));
                }
                render_into(&members[i].1, layout, &inner, Ghost(level + 1), out);
                proof {
                    let es = entries_of(members@).subrange(0, i + 1);
                    assert(es.drop_last() =~= entries_of(members@).subrange(0, i as int));
                    assert(es.last() == (members@[i as int].0@, tree_of(members@[i as int].1)));
                }
                i = i + 1;
            }
            assert(entries_of(members@).subrange(0, members@.len() as int) =~= entries_of(members@));
            append_chars(out, &layout.newline);
            append_chars(out, cur);
            append_chars(out, &chars_of("}"));
        },
    }
}

/// The text of a JSON value written with the given layout.
pub fn render_json(v: &JsonValue, layout: &Layout) -> (r: Vec<char>)
    ensures
        r@ == render(v@, layout.indent@, layout.newline@, layout.compact_empty, 0),
{
    let mut out: Vec<char> = Vec::new();
    let cur: Vec<char> = Vec::new();
    assert(cur@ =~= repeat(layout.indent@, 0));
    render_into(v, layout, &cur, Ghost(0), &mut out);
    assert(out@ =~= Seq::<char>::empty() + render(v@, layout.indent@, layout.newline@, layout.compact_empty, 0));
    out
}


/// The compact text of a value, as `serde_json`'s `Display` writes it: no spaces or line
/// breaks.
pub open spec fn compact(t: JsonTree) -> Seq<char>
    decreases t, 0nat,
{
    match t {
        JsonTree::Null => "null"@,
        JsonTree::Bool(b) => if b { "true"@ } else { "false"@ },
        JsonTree::Number(n) => n,
        JsonTree::Str(s) => serde_json_quote(s),
        JsonTree::Array(items) => "["@ + compact_items(items) + "]"@,
        JsonTree::Object(members) => "{"@ + compact_members(members) + "}"@,
    }
}

/// The compact texts of array elements, comma-separated.
pub open spec fn compact_items(items: Seq<JsonTree>) -> Seq<char>
    decreases items, items.len(),
{
    if items.len() == 0 {
        Seq::empty()
    } else {
        compact_items(items.drop_last()) + (if items.len() == 1 { Seq::empty() } else { ","@ }) + compact(items.last())
    }
}

/// The compact texts of object members, comma-separated.
pub open spec fn compact_members(members: Seq<(Seq<char>, JsonTree)>) -> Seq<char>
    decreases members, members.len(),
{
    if members.len() == 0 {
        Seq::empty()
    } else {
        compact_members(members.drop_last()) + (if members.len() == 1 { Seq::empty() } else { ","@ })
            + serde_json_quote(members.last().0) + ":"@ + compact(members.last().1)
    }
}

fn compact_into(v: &JsonValue, out: &mut Vec<char>)
    ensures
        final(out)@ == old(out)@ + compact(v@),
    decreases v,
{
    match v {
        JsonValue::Null => {
            append_chars(out, &chars_of("null"));
        },
        JsonValue::Bool(b) => {
            if *b {
                append_chars(out, &chars_of("true"));
            } else {
                append_chars(out, &chars_of("false"));
            }
        },
        JsonValue::Number(n) => {
            append_chars(out, &chars_of(n.as_str()));
        },
        JsonValue::Str(st) => {
            append_chars(out, &quote_json_string(st.as_str()));
        },
        JsonValue::Array(items) => {
            proof {
                lemma_trees_of(items@);
            }
            let ghost start = out@;
            append_chars(out, &chars_of("["));
            let mut i: usize = 0;
            while i < items.len()
                invariant
                    i <= items@.len(),
                    trees_of(items@).len() == items@.len(),
                    forall|j: int| 0 <= j < items@.len() ==> #[trigger] trees_of(items@)[j] == tree_of(items@[j]),
                    *v == JsonValue::Array(*items),
                    out@ == start + "["@ + compact_items(trees_of(items@).subrange(0, i as int)),
                decreases items.len() - i,
            {
                if i > 0 {
                    append_chars(out, &chars_of(","));
                }
                proof {
                    assert(decreases_to!(*v => v->Array_0));
                    assert(decreases_to!(v->Array_0 => v->Array_0@));
                    assert(decreases_to!(v->Array_0@ => v->Array_0@[i as int]));
                }
                compact_into(&items[i], out);
                proof {
                    let ts = trees_of(items@).subrange(0, i + 1);
                    assert(ts.drop_last() =~= trees_of(items@).subrange(0, i as int));
                    assert(ts.last() == tree_of(items@[i as int]));
                }
                i = i + 1;
            }
            assert(trees_of(items@).subrange(0, items@.len() as int) =~= trees_of(items@));
            append_chars(out, &chars_of("]"));
        },
        JsonValue::Object(members) => {
            proof {
                lemma_entries_of(members@);
            }
            let ghost start = out@;
            append_chars(out, &chars_of("{"));
            let mut i: usize = 0;
            while i < members.len()
                invariant
                    i <= members@.len(),
                    entries_of(members@).len() == members@.len(),
                    forall|j: int| 0 <= j < members@.len() ==> #[trigger] entries_of(members@)[j] == (members@[j].0@, tree_of(members@[j].1)),
                    *v == JsonValue::Object(*members),
                    out@ == start + "{"@ + compact_members(entries_of(members@).subrange(0, i as int)),
                decreases members.len() - i,
            {
                if i > 0 {
                    append_chars(out, &chars_of(","));
                }
                append_chars(out, &quote_json_string(members[i].0.as_str()));
                append_chars(out, &chars_of(":"));
                proof {
                    assert(decreases_to!(*v => v->Object_0));
                    assert(decreases_to!(v->Object_0 => v->Object_0@));
                    assert(decreases_to!(v->Object_0@ => v->Object_0@[i as int]));
                    assert(decreases_to!(v->Object_0@[i as int] => v->Object_0@[i as int].1));
                }
                compact_into(&members[i].1, out);
                proof {
                    let es = entries_of(members@).subrange(0, i + 1);
                    assert(es.drop_last() =~= entries_of(members@).subrange(0, i as int));
                    assert(es.last() == (members@[i as int].0@, tree_of(members@[i as int].1)));
                }
                i = i + 1;
            }
            assert(entries_of(members@).subrange(0, members@.len() as int) =~= entries_of(members@));
            append_chars(out, &chars_of("}"));
        },
    }
}

/// The compact text of a JSON value (see [`compact`]).
pub fn compact_json(v: &JsonValue) -> (r: Vec<char>)
    ensures
        r@ == compact(v@),
{
    let mut out: Vec<char> = Vec::new();
    compact_into(v, &mut out);
    assert(out@ =~= compact(v@));
    out
}

} // verus!
