//! TypeScript type definitions for translation resources.
use crate::cleanup::{file_stem, LocaleText};
use crate::config::EnableSelector;
use crate::json::{
    entries_of, lemma_entries_of, obj_set, obj_set_exec, parse_json_text, repeat, serde_json_parse, tree_of, JsonTree,
    JsonValue,
};
use crate::locale::{lemma_text_lt_asym, lemma_text_lt_total, lemma_text_lt_trans, text_lt, text_lt_exec};
use crate::text::{append_chars, chars_of, concat2, concat3, contains, has_char, split, string_of, views};
use vstd::prelude::*;

verus! {

/// What `char::to_uppercase` maps a character to.
pub uninterp spec fn uppercase(c: char) -> Seq<char>;

/// The upper-case mapping of a character (`char::to_uppercase`); the result is named, not
/// described.
#[verifier::external_body]
fn to_uppercase(c: char) -> (r: Vec<char>)
    ensures
        r@ == uppercase(c),
{
    c.to_uppercase().collect()
}

/// Whether a character separates the words of a namespace name.
pub open spec fn is_word_sep(c: char) -> bool {
    c == '-' || c == '_' || c == '.'
}

/// The words of `s[..n]` so far, with the word being read (`cur`) not yet included.
pub open spec fn pascal_from(s: Seq<char>, i: int, cur: Seq<char>) -> Seq<char>
    decreases s.len() - i,
{
    if i < 0 || i >= s.len() {
        capitalized(cur)
    } else if is_word_sep(s[i]) {
        capitalized(cur) + pascal_from(s, i + 1, Seq::empty())
    } else {
        pascal_from(s, i + 1, cur.push(s[i]))
    }
}

/// A word with its first character upper-cased.
pub open spec fn capitalized(w: Seq<char>) -> Seq<char> {
    if w.len() == 0 {
        Seq::empty()
    } else {
        uppercase(w[0]) + w.drop_first()
    }
}

/// A namespace name in PascalCase: split at `-`, `_` and `.`, empty words dropped, each
/// word's first character upper-cased, the words joined.
pub open spec fn pascal_case(s: Seq<char>) -> Seq<char> {
    pascal_from(s, 0, Seq::empty())
}

/// The PascalCase form of a namespace name (see [`pascal_case`]).
pub fn to_pascal_case(s: &str) -> (r: String)
    ensures
        r@ == pascal_case(s@),
{
    let c = chars_of(s);
    let mut out: Vec<char> = Vec::new();
    let mut cur: Vec<char> = Vec::new();
    let mut i: usize = 0;
    while i < c.len()
        invariant
            i <= c@.len(),
            out@ + pascal_from(c@, i as int, cur@) == pascal_case(s@),
            c@ == s@,
        decreases c.len() - i,
    {
        if c[i] == '-' || c[i] == '_' || c[i] == '.' {
            let w = capitalize(&cur);
            let ghost o = out@;
            append_chars(&mut out, &w);
            assert(o + pascal_from(c@, i as int, cur@) =~= out@ + pascal_from(c@, i + 1, Seq::empty()));
            cur = Vec::new();
            assert(cur@ =~= Seq::<char>::empty());
        } else {
            cur.push(c[i]);
        }
        i = i + 1;
    }
    let w = capitalize(&cur);
    append_chars(&mut out, &w);
    string_of(&out)
}

/// A word with its first character upper-cased.
fn capitalize(w: &Vec<char>) -> (r: Vec<char>)
    ensures
        r@ == capitalized(w@),
{
    if w.len() == 0 {
        return Vec::new();
    }
    let mut r = to_uppercase(w[0]);
    append_chars(&mut r, &crate::text::slice_vec(w, 1, w.len()));
    assert(w@.subrange(1, w@.len() as int) =~= w@.drop_first());
    r
}

/// The resources of the default locale's files: each file under the namespace its name
/// gives; with merged namespaces, each member of a file's object under its own name.
/// Later entries replace earlier ones of the same name. `Err(i)` for the first file `i`
/// that is not JSON.
pub open spec fn resources_of(files: Seq<LocaleText>, merge_namespaces: bool, n: int) -> Result<Seq<(Seq<char>, JsonTree)>, int>
    decreases n,
{
    if n <= 0 {
        Ok(Seq::empty())
    } else {
        match resources_of(files, merge_namespaces, n - 1) {
            Err(i) => Err(i),
            Ok(res) => match serde_json_parse(files[n - 1].content@) {
                None => Err(n - 1),
                Some(t) => Ok(
                    if merge_namespaces && t is Object {
                        insert_all(res, t->Object_0, t->Object_0.len() as int)
                    } else {
                        obj_set(res, file_stem(files[n - 1].path@), t)
                    },
                ),
            },
        }
    }
}

/// The members set one after another into `res`.
pub open spec fn insert_all(res: Seq<(Seq<char>, JsonTree)>, ms: Seq<(Seq<char>, JsonTree)>, n: int) -> Seq<(Seq<char>, JsonTree)>
    decreases n,
{
    if n <= 0 || n > ms.len() {
        res
    } else {
        obj_set(insert_all(res, ms, n - 1), ms[n - 1].0, ms[n - 1].1)
    }
}

/// A resource file whose text is not JSON, with its path.
#[derive(Debug, Clone)]
pub struct TypegenError {
    pub file_path: String,
}

/// Gathers the resources of the default locale's files (see [`resources_of`]).
pub fn load_resources(files: &[LocaleText], merge_namespaces: bool) -> (r: Result<Vec<(String, JsonValue)>, TypegenError>)
    ensures
        match r {
            Ok(res) => resources_of(files@, merge_namespaces, files@.len() as int) == Ok::<Seq<(Seq<char>, JsonTree)>, int>(entries_of(res@)),
            Err(e) => resources_of(files@, merge_namespaces, files@.len() as int) matches Err(i) && 0 <= i < files@.len()
                && e.file_path@ == files@[i].path@,
        },
{
    let mut res: Vec<(String, JsonValue)> = Vec::new();
    assert(entries_of(res@) =~= Seq::<(Seq<char>, JsonTree)>::empty());
    let mut f: usize = 0;
    while f < files.len()
        invariant
            f <= files@.len(),
            resources_of(files@, merge_namespaces, f as int) == Ok::<Seq<(Seq<char>, JsonTree)>, int>(entries_of(res@)),
        decreases files.len() - f,
    {
        let file = &files[f];
        match parse_json_text(file.content.as_str()) {
            None => {
                proof {
                    lemma_resources_err(files@, merge_namespaces, f as int + 1, f as int);
                }
                return Err(TypegenError { file_path: file.path.clone() });
            },
            Some(v) => {
                let is_obj = match &v {
                    JsonValue::Object(_) => true,
                    _ => false,
                };
                if merge_namespaces && is_obj {
                    let ghost start = entries_of(res@);
                    match v {
                        JsonValue::Object(ms) => {
                            let ghost mv = entries_of(ms@);
                            proof {
                                lemma_entries_of(ms@);
                            }
                            let mut source = ms;
                            let n = source.len();
                            let mut rest: Vec<(String, JsonValue)> = Vec::new();
                            let ghost orig = source@;
                            while source.len() > 0
                                invariant
                                    n == orig.len(),
                                    source@.len() + rest@.len() == n,
                                    forall|j: int| 0 <= j < source@.len() ==> #[trigger] source@[j] == orig[j],
                                    forall|j: int| 0 <= j < rest@.len() ==> #[trigger] rest@[j] == orig[n - 1 - j],
                                decreases source.len(),
                            {
                                let x = source.pop().unwrap();
                                rest.push(x);
                            }
                            let mut j: usize = 0;
                            while j < n
                                invariant
                                    n == orig.len(),
                                    j <= n,
                                    rest@.len() == n - j,
                                    forall|m: int| 0 <= m < n - j ==> #[trigger] rest@[m] == orig[n - 1 - m],
                                    mv == entries_of(orig),
                                    mv.len() == n,
                                    forall|m: int| 0 <= m < n ==> #[trigger] mv[m] == (orig[m].0@, tree_of(orig[m].1)),
                                    entries_of(res@) == insert_all(start, mv, j as int),
                                decreases n - j,
                            {
                                let (k, x) = rest.pop().unwrap();
                                assert((k, x) == orig[j as int]);
                                obj_set_exec(&mut res, k, x);
                                j = j + 1;
                            }
                        },
                        _ => {},
                    }
                } else {
                    let stem = crate::cleanup::file_stem_of(file.path.as_str());
                    obj_set_exec(&mut res, stem, v);
                }
            },
        }
        f = f + 1;
    }
    Ok(res)
}

/// Once a file is not JSON, every longer prefix reports that file.
proof fn lemma_resources_err(files: Seq<LocaleText>, merge: bool, n: int, i: int)
    requires
        0 <= n <= files.len(),
        resources_of(files, merge, n) == Err::<Seq<(Seq<char>, JsonTree)>, int>(i),
    ensures
        resources_of(files, merge, files.len() as int) == Err::<Seq<(Seq<char>, JsonTree)>, int>(i),
    decreases files.len() - n,
{
    if n < files.len() {
        lemma_resources_err(files, merge, n + 1, i);
    }
}


/// A member name as written in an interface: quoted when it holds `.` or `-`.
pub open spec fn safe_key(k: Seq<char>) -> Seq<char> {
    if k.contains('.') || k.contains('-') {
        "\""@ + k + "\""@
    } else {
        k
    }
}

/// A member name is written between double quotes when it holds a `-` or a `.`, which a
/// bare TypeScript property name cannot, and as it is otherwise.
pub proof fn lemma_member_name_quoted(k: Seq<char>)
    ensures
        safe_key(k) == k || safe_key(k) == "\""@ + k + "\""@,
        (k.contains('-') || k.contains('.')) ==> safe_key(k) == "\""@ + k + "\""@,
        !(k.contains('-') || k.contains('.')) ==> safe_key(k) == k,
{
}

/// In a generated interface, a string member whose name holds a `-` or a `.` is declared
/// under its quoted name.
pub proof fn lemma_string_member_line(ms: Seq<(Seq<char>, JsonTree)>, k: Seq<char>, s: Seq<char>, ind: Seq<char>, depth: nat)
    requires
        k.contains('-') || k.contains('.'),
    ensures
        members_text(ms.push((k, JsonTree::Str(s))), ind, depth) == members_text(ms, ind, depth) + repeat(ind, depth) + "\""@ + k
            + "\": string;\n"@,
{
    let m2 = ms.push((k, JsonTree::Str(s)));
    assert(m2.drop_last() =~= ms);
    assert(m2.last() == (k, JsonTree::Str(s)));
    lemma_member_name_quoted(k);
    reveal_strlit("\"");
    reveal_strlit(": string;\n");
    reveal_strlit("\": string;\n");
    assert(("\""@ + k + "\""@) + ": string;\n"@ =~= "\""@ + k + "\": string;\n"@);
}

/// The interface lines of a value at nesting `depth`: one line per member of an object
/// (`string` for strings, a nested block for objects, `unknown` otherwise); nothing for
/// other values.
pub open spec fn body_text(t: JsonTree, ind: Seq<char>, depth: nat) -> Seq<char>
    decreases t, 0nat,
{
    match t {
        JsonTree::Object(ms) => members_text(ms, ind, depth),
        _ => Seq::empty(),
    }
}

/// The interface lines of members at nesting `depth`.
pub open spec fn members_text(ms: Seq<(Seq<char>, JsonTree)>, ind: Seq<char>, depth: nat) -> Seq<char>
    decreases ms, ms.len(),
{
    if ms.len() == 0 {
        Seq::empty()
    } else {
        let (k, v) = ms.last();
        let pad = repeat(ind, depth);
        members_text(ms.drop_last(), ind, depth) + match v {
            JsonTree::Object(_) => pad + safe_key(k) + ": {\n"@ + body_text(v, ind, depth + 1) + pad + "};\n"@,
            JsonTree::Str(_) => pad + safe_key(k) + ": string;\n"@,
            _ => pad + safe_key(k) + ": unknown;\n"@,
        }
    }
}

/// A member name as written in an interface (see [`safe_key`]).
fn safe_key_exec(k: &[char]) -> (r: Vec<char>)
    ensures
        r@ == safe_key(k@),
{
    if has_char(k, '.') || has_char(k, '-') {
        concat3(&chars_of("\""), k, &chars_of("\""))
    } else {
        crate::text::slice_vec(k, 0, k.len())
    }
}

/// Writes the interface lines of members (see [`members_text`]).
fn write_members(ms: &Vec<(String, JsonValue)>, ind: &[char], Ghost(depth): Ghost<nat>, pad: &Vec<char>, out: &mut Vec<char>)
    requires
        pad@ == repeat(ind@, depth),
    ensures
        final(out)@ == old(out)@ + members_text(entries_of(ms@), ind@, depth),
    decreases ms,
{
    proof {
        lemma_entries_of(ms@);
    }
    let ghost es = entries_of(ms@);
    let ghost start = out@;
    assert(es.take(0) =~= Seq::<(Seq<char>, JsonTree)>::empty());
    let mut i: usize = 0;
    while i < ms.len()
        invariant
            i <= ms@.len(),
            es == entries_of(ms@),
            es.len() == ms@.len(),
            pad@ == repeat(ind@, depth),
            forall|j: int| 0 <= j < ms@.len() ==> #[trigger] es[j] == (ms@[j].0@, tree_of(ms@[j].1)),
            out@ == start + members_text(es.take(i as int), ind@, depth),
        decreases ms.len() - i,
    {
        let ghost t = es.take(i as int + 1);
        assert(t.drop_last() =~= es.take(i as int));
        assert(t.last() == es[i as int]);
        let ghost before = out@;
        let k = safe_key_exec(&chars_of(ms[i].0.as_str()));
        append_chars(out, pad);
        append_chars(out, &k);
        match &ms[i].1 {
            JsonValue::Object(nested) => {
                append_chars(out, &chars_of(": {\n"));
                proof {
                    assert(decreases_to!(*ms => ms@));
                    assert(decreases_to!(ms@ => ms@[i as int]));
                    assert(decreases_to!(ms@[i as int] => ms@[i as int].1));
                    assert(decreases_to!(ms@[i as int].1 => (ms@[i as int].1)->Object_0));
                }
                let inner_pad = concat2(pad, ind);
                assert(inner_pad@ == repeat(ind@, depth + 1));
                write_members(nested, ind, Ghost(depth + 1), &inner_pad, out);
                append_chars(out, pad);
                append_chars(out, &chars_of("};\n"));
                assert(es[i as int].1 == JsonTree::Object(entries_of(nested@)));
                assert(body_text(es[i as int].1, ind@, depth + 1) == members_text(entries_of(nested@), ind@, depth + 1));
                assert(out@ =~= before + (pad@ + safe_key(es[i as int].0) + ": {\n"@ + body_text(es[i as int].1, ind@, depth + 1) + pad@ + "};\n"@));
            },
            JsonValue::Str(_) => {
                append_chars(out, &chars_of(": string;\n"));
                assert(out@ =~= before + (pad@ + safe_key(es[i as int].0) + ": string;\n"@));
            },
            _ => {
                append_chars(out, &chars_of(": unknown;\n"));
                assert(out@ =~= before + (pad@ + safe_key(es[i as int].0) + ": unknown;\n"@));
            },
        }
        assert(out@ =~= start + members_text(t, ind@, depth));
        i = i + 1;
    }
    assert(es.take(ms@.len() as int) =~= es);
}


/// The selector keys of a namespace's value: `namespace.path` for each leaf that is not an
/// object, depth first, in member order.
pub open spec fn selector_keys(ns: Seq<char>, t: JsonTree, prefix: Seq<char>) -> Seq<Seq<char>>
    decreases t, 0nat,
{
    match t {
        JsonTree::Object(ms) => selector_members(ns, ms, prefix),
        _ => Seq::empty(),
    }
}

/// The selector keys of members under a prefix.
pub open spec fn selector_members(ns: Seq<char>, ms: Seq<(Seq<char>, JsonTree)>, prefix: Seq<char>) -> Seq<Seq<char>>
    decreases ms, ms.len(),
{
    if ms.len() == 0 {
        Seq::empty()
    } else {
        let (k, v) = ms.last();
        let next = if prefix.len() == 0 { k } else { prefix + "."@ + k };
        selector_members(ns, ms.drop_last(), prefix) + match v {
            JsonTree::Object(_) => selector_keys(ns, v, next),
            _ => seq![ns + "."@ + next],
        }
    }
}

/// Whether texts are in strictly increasing `String` order.
pub open spec fn strictly_sorted(s: Seq<Seq<char>>) -> bool {
    forall|i: int, j: int| 0 <= i < j < s.len() ==> text_lt(#[trigger] s[i], #[trigger] s[j])
}

/// Adds the selector keys of members to `out` (see [`selector_members`]).
fn collect_selector_keys(ns: &[char], ms: &Vec<(String, JsonValue)>, prefix: &[char], out: &mut Vec<Vec<char>>)
    ensures
        crate::text::cviews(final(out)@) == crate::text::cviews(old(out)@) + selector_members(ns@, entries_of(ms@), prefix@),
    decreases ms,
{
    proof {
        lemma_entries_of(ms@);
    }
    let ghost es = entries_of(ms@);
    let ghost start = crate::text::cviews(out@);
    assert(es.take(0) =~= Seq::<(Seq<char>, JsonTree)>::empty());
    let mut i: usize = 0;
    while i < ms.len()
        invariant
            i <= ms@.len(),
            es == entries_of(ms@),
            es.len() == ms@.len(),
            forall|j: int| 0 <= j < ms@.len() ==> #[trigger] es[j] == (ms@[j].0@, tree_of(ms@[j].1)),
            crate::text::cviews(out@) == start + selector_members(ns@, es.take(i as int), prefix@),
        decreases ms.len() - i,
    {
        let ghost t = es.take(i as int + 1);
        assert(t.drop_last() =~= es.take(i as int));
        assert(t.last() == es[i as int]);
        let ghost before = crate::text::cviews(out@);
        let k = chars_of(ms[i].0.as_str());
        let next = if prefix.len() == 0 {
            k
        } else {
            concat3(prefix, &chars_of("."), &k)
        };
        assert(next@ == (if prefix@.len() == 0 { es[i as int].0 } else { prefix@ + "."@ + es[i as int].0 }));
        match &ms[i].1 {
            JsonValue::Object(nested) => {
                proof {
                    assert(decreases_to!(*ms => ms@));
                    assert(decreases_to!(ms@ => ms@[i as int]));
                    assert(decreases_to!(ms@[i as int] => ms@[i as int].1));
                    assert(decreases_to!(ms@[i as int].1 => (ms@[i as int].1)->Object_0));
                }
                collect_selector_keys(ns, nested, &next, out);
                assert(es[i as int].1 == JsonTree::Object(entries_of(nested@)));
                assert(selector_keys(ns@, es[i as int].1, next@) == selector_members(ns@, entries_of(nested@), next@));
                assert(crate::text::cviews(out@) =~= start + selector_members(ns@, t, prefix@));
            },
            _ => {
                let key = concat3(ns, &chars_of("."), &next);
                out.push(key);
                assert(crate::text::cviews(out@) =~= before.push(key@));
                assert(crate::text::cviews(out@) =~= start + selector_members(ns@, t, prefix@));
            },
        }
        i = i + 1;
    }
    assert(es.take(ms@.len() as int) =~= es);
}

/// Adds a text to a strictly sorted list unless it holds it already.
pub fn insert_unique(out: &mut Vec<Vec<char>>, x: Vec<char>)
    requires
        strictly_sorted(crate::text::cviews(old(out)@)),
    ensures
        strictly_sorted(crate::text::cviews(final(out)@)),
        crate::text::cviews(final(out)@).to_set() == crate::text::cviews(old(out)@).to_set().insert(x@),
{
    let ghost s = crate::text::cviews(out@);
    let mut lo: usize = 0;
    let mut hi: usize = out.len();
    while lo < hi
        invariant
            lo <= hi <= out@.len(),
            s == crate::text::cviews(out@),
            strictly_sorted(s),
            forall|j: int| 0 <= j < lo ==> text_lt(#[trigger] s[j], x@),
            forall|j: int| hi <= j < s.len() ==> !text_lt(#[trigger] s[j], x@),
        decreases hi - lo,
    {
        let mid = lo + (hi - lo) / 2;
        assert(s[mid as int] == out@[mid as int]@);
        if text_lt_exec(&out[mid], &x) {
            assert forall|j: int| 0 <= j <= mid implies text_lt(#[trigger] s[j], x@) by {
                if j < mid {
                    lemma_text_lt_trans(s[j], s[mid as int], x@);
                }
            }
            lo = mid + 1;
        } else {
            assert forall|j: int| mid <= j < s.len() implies !text_lt(#[trigger] s[j], x@) by {
                if j > mid {
                    if text_lt(s[j], x@) {
                        lemma_text_lt_trans(s[mid as int], s[j], x@);
                    }
                }
            }
            hi = mid;
        }
    }
    if lo < out.len() && crate::text::seq_eq(&out[lo], &x) {
        assert(s[lo as int] == x@);
        assert(s.to_set().insert(x@) =~= s.to_set());
        return;
    }
    let ghost xv = x@;
    proof {
        if lo < s.len() {
            assert(s[lo as int] == out@[lo as int]@);
            assert(s[lo as int] != xv);
            lemma_text_lt_total(s[lo as int], xv);
        }
    }
    out.insert(lo, x);
    let ghost r = crate::text::cviews(out@);
    assert(r =~= s.insert(lo as int, xv));
    assert forall|i: int, j: int| 0 <= i < j < r.len() implies text_lt(#[trigger] r[i], #[trigger] r[j]) by {
        if j == lo {
            assert(r[i] == s[i]);
        } else if i == lo {
            assert(r[j] == s[j - 1]);
            if j - 1 > lo {
                lemma_text_lt_trans(xv, s[lo as int], s[j - 1]);
            }
        } else {
            let a = if i < lo { i } else { i - 1 };
            let b = if j < lo { j } else { j - 1 };
            assert(r[i] == s[a]);
            assert(r[j] == s[b]);
        }
    }
    assert(r.to_set() =~= s.to_set().insert(xv)) by {
        assert forall|y: Seq<char>| r.to_set().contains(y) <==> s.to_set().insert(xv).contains(y) by {
            if r.contains(y) {
                let k = choose|k: int| 0 <= k < r.len() && r[k] == y;
                if k < lo {
                    assert(s[k] == y);
                } else if k > lo {
                    assert(s[k - 1] == y);
                }
            }
            if s.contains(y) {
                let k = choose|k: int| 0 <= k < s.len() && s[k] == y;
                if k < lo {
                    assert(r[k] == y);
                } else {
                    assert(r[k + 1] == y);
                }
            }
            if y == xv {
                assert(r[lo as int] == y);
            }
        }
    }
}


/// The interface of each of the first `n` namespaces, in order.
pub open spec fn interfaces_text(res: Seq<(Seq<char>, JsonTree)>, ind: Seq<char>, n: int) -> Seq<char>
    decreases n,
{
    if n <= 0 || n > res.len() {
        Seq::empty()
    } else {
        interfaces_text(res, ind, n - 1) + "interface "@ + pascal_case(res[n - 1].0) + " {\n"@ + body_text(res[n - 1].1, ind, 1)
            + "}\n\n"@
    }
}

/// The lines of the `Resources` interface for the first `n` namespaces.
pub open spec fn resource_lines(res: Seq<(Seq<char>, JsonTree)>, ind: Seq<char>, n: int) -> Seq<char>
    decreases n,
{
    if n <= 0 || n > res.len() {
        Seq::empty()
    } else {
        resource_lines(res, ind, n - 1) + ind + "\""@ + res[n - 1].0 + "\": "@ + pascal_case(res[n - 1].0) + ";\n"@
    }
}

/// The selector keys of the first `n` namespaces, in order.
pub open spec fn all_selector_keys(res: Seq<(Seq<char>, JsonTree)>, n: int) -> Seq<Seq<char>>
    decreases n,
{
    if n <= 0 || n > res.len() {
        Seq::empty()
    } else {
        all_selector_keys(res, n - 1) + selector_keys(res[n - 1].0, res[n - 1].1, Seq::empty())
    }
}

/// The lines listing selector keys.
pub open spec fn key_lines(keys: Seq<Seq<char>>, ind: Seq<char>) -> Seq<char>
    decreases keys.len(),
{
    if keys.len() == 0 {
        Seq::empty()
    } else {
        key_lines(keys.drop_last(), ind) + ind + "| \""@ + keys.last() + "\"\n"@
    }
}

/// The selector declarations: none unless selectors are enabled; with `optimize`, the
/// union of the (sorted, distinct) selector keys too.
pub open spec fn selector_text(sel: Option<EnableSelector>, keys: Seq<Seq<char>>, ind: Seq<char>) -> Seq<char> {
    match sel {
        Some(s) => if (match s {
            EnableSelector::Bool(v) => v,
            EnableSelector::Mode(m) => m@ == "optimize"@,
        }) {
            "\nexport type SelectorRoot = Resources;\n"@ + "export type SelectorFn<T = unknown> = ($: SelectorRoot) => T;\n"@
                + "export declare function keyFromSelector<T>(selector: SelectorFn<T>): string;\n"@ + if s matches EnableSelector::Mode(m)
                && m@ == "optimize"@ {
                if keys.len() == 0 {
                    "export type SelectorKey = never;\n"@
                } else {
                    "export type SelectorKey =\n"@ + key_lines(keys, ind) + ";\n"@
                }
            } else {
                Seq::empty()
            }
        } else {
            Seq::empty()
        },
        None => Seq::empty(),
    }
}

/// The type definitions of the resources: a header, one interface per namespace, the
/// `Resources` interface, its exports (the default export when asked for), and the
/// selector declarations; `keys` are the selector keys, sorted and distinct.
pub open spec fn ts_text(res: Seq<(Seq<char>, JsonTree)>, ind: Seq<char>, default_export: bool, sel: Option<EnableSelector>, keys: Seq<Seq<char>>) -> Seq<char> {
    "// This file is auto-generated by i18next-turbo\n// Do not edit manually\n\n"@ + interfaces_text(res, ind, res.len() as int)
        + "interface Resources {\n"@ + resource_lines(res, ind, res.len() as int) + "}\n\n"@ + "export { Resources };\n"@ + (
    if default_export {
        "export default Resources;\n"@
    } else {
        Seq::empty()
    }) + selector_text(sel, keys, ind)
}

/// The selector setting given, if any.
pub open spec fn selector_of(o: Option<&EnableSelector>) -> Option<EnableSelector> {
    match o {
        Some(s) => Some(*s),
        None => None,
    }
}

/// The indentation given, two spaces by default.
pub open spec fn indentation_of(o: Option<&str>) -> Seq<char> {
    match o {
        Some(i) => i@,
        None => "  "@,
    }
}

/// Writes the interface of each namespace (see [`interfaces_text`]).
fn write_interfaces(resources: &Vec<(String, JsonValue)>, ind: &Vec<char>, out: &mut Vec<char>)
    ensures
        final(out)@ == old(out)@ + interfaces_text(entries_of(resources@), ind@, resources@.len() as int),
{
    proof {
        lemma_entries_of(resources@);
    }
    let ghost res = entries_of(resources@);
    let ghost head = out@;
    let mut pad: Vec<char> = Vec::new();
    append_chars(&mut pad, ind);
    assert(pad@ == repeat(ind@, 1)) by {
        assert(repeat(ind@, 0) =~= Seq::<char>::empty());
        assert(pad@ =~= repeat(ind@, 0) + ind@);
    }
    let mut i: usize = 0;
    while i < resources.len()
        invariant
            i <= resources@.len(),
            res == entries_of(resources@),
            res.len() == resources@.len(),
            forall|j: int| 0 <= j < resources@.len() ==> #[trigger] res[j] == (resources@[j].0@, tree_of(resources@[j].1)),
            pad@ == repeat(ind@, 1),
            out@ == head + interfaces_text(res, ind@, i as int),
        decreases resources.len() - i,
    {
        let ghost before = out@;
        append_chars(out, &chars_of("interface "));
        append_chars(out, &chars_of(to_pascal_case(resources[i].0.as_str()).as_str()));
        append_chars(out, &chars_of(" {\n"));
        match &resources[i].1 {
            JsonValue::Object(ms) => {
                write_members(ms, ind, Ghost(1), &pad, out);
                assert(res[i as int].1 == JsonTree::Object(entries_of(ms@)));
            },
            _ => {},
        }
        append_chars(out, &chars_of("}\n\n"));
        assert(out@ =~= before + "interface "@ + pascal_case(res[i as int].0) + " {\n"@ + body_text(res[i as int].1, ind@, 1) + "}\n\n"@);
        i = i + 1;
    }
}

/// Writes the lines of the `Resources` interface (see [`resource_lines`]).
fn write_resource_lines(resources: &Vec<(String, JsonValue)>, ind: &Vec<char>, out: &mut Vec<char>)
    ensures
        final(out)@ == old(out)@ + resource_lines(entries_of(resources@), ind@, resources@.len() as int),
{
    proof {
        lemma_entries_of(resources@);
    }
    let ghost res = entries_of(resources@);
    let ghost head = out@;
    let mut i: usize = 0;
    while i < resources.len()
        invariant
            i <= resources@.len(),
            res == entries_of(resources@),
            res.len() == resources@.len(),
            forall|j: int| 0 <= j < resources@.len() ==> #[trigger] res[j] == (resources@[j].0@, tree_of(resources@[j].1)),
            out@ == head + resource_lines(res, ind@, i as int),
        decreases resources.len() - i,
    {
        let ghost before = out@;
        append_chars(out, ind);
        append_chars(out, &chars_of("\""));
        append_chars(out, &chars_of(resources[i].0.as_str()));
        append_chars(out, &chars_of("\": "));
        append_chars(out, &chars_of(to_pascal_case(resources[i].0.as_str()).as_str()));
        append_chars(out, &chars_of(";\n"));
        assert(out@ =~= before + ind@ + "\""@ + res[i as int].0 + "\": "@ + pascal_case(res[i as int].0) + ";\n"@);
        i = i + 1;
    }
}

/// The selector keys of all namespaces, sorted and each once.
fn sorted_selector_keys(resources: &Vec<(String, JsonValue)>) -> (r: Vec<Vec<char>>)
    ensures
        strictly_sorted(crate::text::cviews(r@)),
        crate::text::cviews(r@).to_set() == all_selector_keys(entries_of(resources@), resources@.len() as int).to_set(),
{
    proof {
        lemma_entries_of(resources@);
    }
    let ghost res = entries_of(resources@);
    let mut all: Vec<Vec<char>> = Vec::new();
    let mut i: usize = 0;
    assert(crate::text::cviews(all@) =~= all_selector_keys(res, 0));
    while i < resources.len()
        invariant
            i <= resources@.len(),
            res == entries_of(resources@),
            res.len() == resources@.len(),
            forall|j: int| 0 <= j < resources@.len() ==> #[trigger] res[j] == (resources@[j].0@, tree_of(resources@[j].1)),
            crate::text::cviews(all@) == all_selector_keys(res, i as int),
        decreases resources.len() - i,
    {
        let ghost before = crate::text::cviews(all@);
        match &resources[i].1 {
            JsonValue::Object(ms) => {
                let empty: Vec<char> = Vec::new();
                collect_selector_keys(&chars_of(resources[i].0.as_str()), ms, &empty, &mut all);
                assert(res[i as int].1 == JsonTree::Object(entries_of(ms@)));
            },
            _ => {},
        }
        assert(crate::text::cviews(all@) =~= before + selector_keys(res[i as int].0, res[i as int].1, Seq::empty()));
        i = i + 1;
    }
    let ghost allv = crate::text::cviews(all@);
    let mut sorted: Vec<Vec<char>> = Vec::new();
    let mut j: usize = 0;
    assert(allv.take(0).to_set() =~= Set::<Seq<char>>::empty());
    assert(crate::text::cviews(sorted@).to_set() =~= Set::<Seq<char>>::empty());
    while j < all.len()
        invariant
            j <= all@.len(),
            allv == crate::text::cviews(all@),
            strictly_sorted(crate::text::cviews(sorted@)),
            crate::text::cviews(sorted@).to_set() == allv.take(j as int).to_set(),
        decreases all.len() - j,
    {
        let x = crate::text::slice_vec(&all[j], 0, all[j].len());
        assert(x@ == allv[j as int]);
        insert_unique(&mut sorted, x);
        assert forall|y: Seq<char>| allv.take(j as int + 1).to_set().contains(y) <==> allv.take(j as int).to_set().insert(allv[j as int]).contains(y) by {
            let t = allv.take(j as int + 1);
            let p = allv.take(j as int);
            if t.contains(y) {
                let k = choose|k: int| 0 <= k < t.len() && t[k] == y;
                if k < j {
                    assert(p[k] == y);
                }
            }
            if p.contains(y) {
                let k = choose|k: int| 0 <= k < p.len() && p[k] == y;
                assert(t[k] == y);
            }
            if y == allv[j as int] {
                assert(t[j as int] == y);
            }
        }
        assert(allv.take(j as int + 1).to_set() =~= allv.take(j as int).to_set().insert(allv[j as int]));
        j = j + 1;
    }
    assert(allv.take(all@.len() as int) =~= allv);
    sorted
}

/// Writes the selector declarations (see [`selector_text`]).
fn write_selector_section(enable_selector: Option<&EnableSelector>, keys: &Vec<Vec<char>>, ind: &Vec<char>, out: &mut Vec<char>)
    ensures
        final(out)@ == old(out)@ + selector_text(selector_of(enable_selector), crate::text::cviews(keys@), ind@),
{
    let ghost kv = crate::text::cviews(keys@);
    match enable_selector {
        Some(s) => {
            if s.enabled() {
                append_chars(out, &chars_of("\nexport type SelectorRoot = Resources;\n"));
                append_chars(out, &chars_of("export type SelectorFn<T = unknown> = ($: SelectorRoot) => T;\n"));
                append_chars(out, &chars_of("export declare function keyFromSelector<T>(selector: SelectorFn<T>): string;\n"));
                if s.optimize() {
                    if keys.len() == 0 {
                        append_chars(out, &chars_of("export type SelectorKey = never;\n"));
                    } else {
                        append_chars(out, &chars_of("export type SelectorKey =\n"));
                        let ghost kstart = out@;
                        let mut k: usize = 0;
                        assert(kv.take(0) =~= Seq::<Seq<char>>::empty());
                        while k < keys.len()
                            invariant
                                k <= keys@.len(),
                                kv == crate::text::cviews(keys@),
                                out@ == kstart + key_lines(kv.take(k as int), ind@),
                            decreases keys.len() - k,
                        {
                            let ghost before = out@;
                            append_chars(out, ind);
                            append_chars(out, &chars_of("| \""));
                            append_chars(out, &keys[k]);
                            append_chars(out, &chars_of("\"\n"));
                            proof {
                                let t = kv.take(k as int + 1);
                                assert(t.drop_last() =~= kv.take(k as int));
                                assert(t.last() == keys@[k as int]@);
                            }
                            assert(out@ =~= before + ind@ + "| \""@ + keys@[k as int]@ + "\"\n"@);
                            k = k + 1;
                        }
                        assert(kv.take(keys@.len() as int) =~= kv);
                        append_chars(out, &chars_of(";\n"));
                    }
                }
            }
        },
        None => {},
    }
}

/// The type definitions of the resources (see [`ts_text`]); the selector keys are those
/// of all namespaces, sorted and each once.
pub fn write_ts_content(
    resources: &Vec<(String, JsonValue)>,
    indentation: &str,
    include_default_export: bool,
    enable_selector: Option<&EnableSelector>,
) -> (r: String)
    ensures
        exists|keys: Seq<Seq<char>>|
            strictly_sorted(keys) && keys.to_set() == all_selector_keys(entries_of(resources@), resources@.len() as int).to_set()
                && r@ == #[trigger] ts_text(
                entries_of(resources@),
                indentation@,
                include_default_export,
                selector_of(enable_selector),
                keys,
            ),
{
    proof {
        lemma_entries_of(resources@);
    }
    let ghost res = entries_of(resources@);
    let ind = chars_of(indentation);
    let mut out: Vec<char> = chars_of("// This file is auto-generated by i18next-turbo\n// Do not edit manually\n\n");
    write_interfaces(resources, &ind, &mut out);
    append_chars(&mut out, &chars_of("interface Resources {\n"));
    write_resource_lines(resources, &ind, &mut out);
    append_chars(&mut out, &chars_of("}\n\n"));
    append_chars(&mut out, &chars_of("export { Resources };\n"));
    if include_default_export {
        append_chars(&mut out, &chars_of("export default Resources;\n"));
    }
    let ghost body = out@;
    assert(body =~= "// This file is auto-generated by i18next-turbo\n// Do not edit manually\n\n"@ + interfaces_text(res, ind@, res.len() as int)
        + "interface Resources {\n"@ + resource_lines(res, ind@, res.len() as int) + "}\n\n"@ + "export { Resources };\n"@ + (
    if include_default_export {
        "export default Resources;\n"@
    } else {
        Seq::empty()
    }));
    let sorted = sorted_selector_keys(resources);
    let ghost keys = crate::text::cviews(sorted@);
    write_selector_section(enable_selector, &sorted, &ind, &mut out);
    assert(out@ =~= body + selector_text(selector_of(enable_selector), keys, ind@));
    assert(out@ =~= ts_text(res, ind@, include_default_export, selector_of(enable_selector), keys));
    string_of(&out)
}

/// Type definitions to write: the main file, and, when asked for, the resources file
/// (the same without the default export).
#[derive(Debug)]
pub struct TypeFiles {
    pub main: String,
    pub resources: Option<String>,
}

/// Generates type definitions for the default locale's files (see [`load_resources`] and
/// [`write_ts_content`]): nothing when they hold no resources; indentation defaults to two
/// spaces.
pub fn generate_types_with_options(
    files: &[LocaleText],
    indentation: Option<&str>,
    with_resources_file: bool,
    enable_selector: Option<&EnableSelector>,
    merge_namespaces: bool,
) -> (r: Result<Option<TypeFiles>, TypegenError>)
    ensures
        match r {
            Ok(None) => resources_of(files@, merge_namespaces, files@.len() as int) == Ok::<Seq<(Seq<char>, JsonTree)>, int>(Seq::empty()),
            Ok(Some(t)) => exists|res: Seq<(Seq<char>, JsonTree)>, keys: Seq<Seq<char>>|
                resources_of(files@, merge_namespaces, files@.len() as int) == Ok::<Seq<(Seq<char>, JsonTree)>, int>(res)
                && res.len() > 0 && strictly_sorted(keys) && keys.to_set() == all_selector_keys(res, res.len() as int).to_set()
                && t.main@ == #[trigger] ts_text(
                    res,
                    indentation_of(indentation),
                    true,
                    selector_of(enable_selector),
                    keys,
                ) && match t.resources {
                    Some(text) => with_resources_file && text@ == ts_text(
                        res,
                        indentation_of(indentation),
                        false,
                        selector_of(enable_selector),
                        keys,
                    ),
                    None => !with_resources_file,
                },
            Err(e) => resources_of(files@, merge_namespaces, files@.len() as int) matches Err(i) && 0 <= i < files@.len()
                && e.file_path@ == files@[i].path@,
        },
{
    let resources = match load_resources(files, merge_namespaces) {
        Ok(r) => r,
        Err(e) => {
            return Err(e);
        },
    };
    proof {
        lemma_entries_of(resources@);
    }
    if resources.len() == 0 {
        assert(entries_of(resources@) =~= Seq::<(Seq<char>, JsonTree)>::empty());
        return Ok(None);
    }
    let ind: &str = match indentation {
        Some(i) => i,
        None => "  ",
    };
    assert(ind@ == indentation_of(indentation));
    let main = write_ts_content(&resources, ind, true, enable_selector);
    let extra = if with_resources_file {
        Some(write_ts_content(&resources, ind, false, enable_selector))
    } else {
        None
    };
    proof {
        let res = entries_of(resources@);
        let sel = selector_of(enable_selector);
        let keys = choose|keys: Seq<Seq<char>>|
            strictly_sorted(keys) && keys.to_set() == all_selector_keys(res, resources@.len() as int).to_set()
                && main@ == #[trigger] ts_text(res, ind@, true, sel, keys);
        if with_resources_file {
            let text = extra->Some_0;
            let keys2 = choose|keys: Seq<Seq<char>>|
                strictly_sorted(keys) && keys.to_set() == all_selector_keys(res, resources@.len() as int).to_set()
                    && text@ == #[trigger] ts_text(res, ind@, false, sel, keys);
            lemma_sorted_set_unique(keys, keys2);
            assert(text@ == ts_text(res, indentation_of(indentation), false, sel, keys));
        }
        assert(res.len() > 0 && strictly_sorted(keys) && keys.to_set() == all_selector_keys(res, res.len() as int).to_set()
            && main@ == ts_text(res, ind@, true, sel, keys));
    }
    Ok(Some(TypeFiles { main, resources: extra }))
}

/// Two strictly sorted lists with the same elements are equal.
pub proof fn lemma_sorted_set_unique(a: Seq<Seq<char>>, b: Seq<Seq<char>>)
    requires
        strictly_sorted(a),
        strictly_sorted(b),
        a.to_set() == b.to_set(),
    ensures
        a == b,
    decreases a.len(),
{
    if a.len() == 0 {
        if b.len() > 0 {
            assert(b.to_set().contains(b[0]));
        }
        assert(a =~= b);
    } else if b.len() == 0 {
        assert(a.to_set().contains(a[0]));
    } else {
        // the first elements are the least, hence equal
        assert(a.to_set().contains(a[0]));
        assert(b.to_set().contains(b[0]));
        let i = choose|i: int| 0 <= i < b.len() && b[i] == a[0];
        let j = choose|j: int| 0 <= j < a.len() && a[j] == b[0];
        if i > 0 {
            assert(text_lt(b[0], b[i]));
            if j > 0 {
                assert(text_lt(a[0], a[j]));
                lemma_text_lt_asym(a[0], b[0]);
            }
        }
        assert(a[0] == b[0]) by {
            if a[0] != b[0] {
                if i > 0 && j > 0 {
                    assert(text_lt(b[0], a[0]));
                    assert(text_lt(a[0], b[0]));
                    lemma_text_lt_asym(a[0], b[0]);
                }
            }
        }
        let a1 = a.drop_first();
        let b1 = b.drop_first();
        assert forall|x: Seq<char>| a1.to_set().contains(x) <==> b1.to_set().contains(x) by {
            if a1.contains(x) {
                let k = choose|k: int| 0 <= k < a1.len() && a1[k] == x;
                assert(a[k + 1] == x);
                assert(text_lt(a[0], x));
                lemma_text_lt_asym(a[0], x);
                assert(b.to_set().contains(x));
                let m = choose|m: int| 0 <= m < b.len() && b[m] == x;
                assert(m != 0);
                assert(b1[m - 1] == x);
            }
            if b1.contains(x) {
                let k = choose|k: int| 0 <= k < b1.len() && b1[k] == x;
                assert(b[k + 1] == x);
                assert(text_lt(b[0], x));
                lemma_text_lt_asym(b[0], x);
                assert(a.to_set().contains(x));
                let m = choose|m: int| 0 <= m < a.len() && a[m] == x;
                assert(m != 0);
                assert(a1[m - 1] == x);
            }
        }
        assert(a1.to_set() =~= b1.to_set());
        lemma_sorted_set_unique(a1, b1);
        assert(a =~= seq![a[0]] + a1);
        assert(b =~= seq![b[0]] + b1);
    }
}

/// Generates type definitions for the default locale's files with the default settings:
/// two-space indentation, no resources file, no selectors.
pub fn generate_types(files: &[LocaleText]) -> (r: Result<Option<String>, TypegenError>)
    ensures
        match r {
            Ok(None) => resources_of(files@, false, files@.len() as int) == Ok::<Seq<(Seq<char>, JsonTree)>, int>(Seq::empty()),
            Ok(Some(t)) => exists|res: Seq<(Seq<char>, JsonTree)>|
                resources_of(files@, false, files@.len() as int) == Ok::<Seq<(Seq<char>, JsonTree)>, int>(res) && res.len() > 0
                && t@ == #[trigger] ts_text(res, "  "@, true, None, all_selector_keys(res, 0)),
            Err(e) => resources_of(files@, false, files@.len() as int) matches Err(i) && 0 <= i < files@.len()
                && e.file_path@ == files@[i].path@,
        },
{
    match generate_types_with_options(files, None, false, None, false) {
        Ok(Some(t)) => {
            proof {
                let res = choose|res: Seq<(Seq<char>, JsonTree)>, keys: Seq<Seq<char>>|
                    resources_of(files@, false, files@.len() as int) == Ok::<Seq<(Seq<char>, JsonTree)>, int>(res)
                    && res.len() > 0 && strictly_sorted(keys) && keys.to_set() == all_selector_keys(res, res.len() as int).to_set()
                    && t.main@ == #[trigger] ts_text(res, "  "@, true, None, keys);
                assert(ts_text(res.0, "  "@, true, None, res.1) == ts_text(res.0, "  "@, true, None, all_selector_keys(res.0, 0)));
            }
            Ok(Some(t.main))
        },
        Ok(None) => Ok(None),
        Err(e) => Err(e),
    }
}

/// The glob a typegen input pattern stands for: the pattern itself when it holds a `/`,
/// else the pattern inside the default locale's directory.
pub open spec fn typegen_glob(locale_dir: Seq<char>, pattern: Seq<char>) -> Seq<char> {
    if contains(pattern, "/"@) {
        pattern
    } else {
        crate::locale::join_path(locale_dir, pattern)
    }
}

/// The glob a typegen input pattern stands for (see [`typegen_glob`]).
pub fn typegen_pattern(locale_dir: &str, pattern: &str) -> (r: String)
    ensures
        r@ == typegen_glob(locale_dir@, pattern@),
{
    let p = chars_of(pattern);
    if crate::text::contains_exec(&p, &chars_of("/")) {
        string_of(&p)
    } else {
        string_of(&crate::locale::join_path_exec(&chars_of(locale_dir), &p))
    }
}

/// Whether a path names a `.json` file.
pub open spec fn is_json_path(p: Seq<char>) -> bool {
    crate::extractor::extension_of(crate::extractor::file_name(p)) == Some("json"@)
}

/// The files typegen reads: the `.json` ones among the paths found, sorted and each once.
pub fn typegen_files(paths: &[String]) -> (r: Vec<String>)
    ensures
        strictly_sorted(views(r@)),
        views(r@).to_set() == views(paths@).to_set().filter(|p: Seq<char>| is_json_path(p)),
{
    let mut json: Vec<String> = Vec::new();
    let mut i: usize = 0;
    while i < paths.len()
        invariant
            i <= paths@.len(),
            views(json@).to_set() == views(paths@).take(i as int).to_set().filter(|p: Seq<char>| is_json_path(p)),
        decreases paths.len() - i,
    {
        let is_json = match crate::extractor::path_extension(&chars_of(paths[i].as_str())) {
            Some(e) => {
                proof {
                    reveal_strlit("json");
                }
                crate::text::seq_eq(&e, &chars_of("json"))
            },
            None => false,
        };
        let ghost before = json@;
        if is_json {
            json.push(string_of(&chars_of(paths[i].as_str())));
        }
        proof {
            assert(views(paths@).take(i as int + 1) =~= views(paths@).take(i as int).push(paths@[i as int]@));
            views(paths@).take(i as int).lemma_push_to_set_commute(paths@[i as int]@);
            if is_json {
                assert(views(json@) =~= views(before).push(paths@[i as int]@));
                views(before).lemma_push_to_set_commute(paths@[i as int]@);
            } else {
                assert(views(json@) =~= views(before));
            }
            assert(views(json@).to_set() =~= views(paths@).take(i as int + 1).to_set().filter(|p: Seq<char>| is_json_path(p)));
        }
        i = i + 1;
    }
    proof {
        assert(views(paths@).take(paths@.len() as int) =~= views(paths@));
    }
    crate::detect::sorted_names(&json)
}

} // verus!
