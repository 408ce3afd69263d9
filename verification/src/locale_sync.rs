//! Bringing secondary languages in line with the primary one: keys the primary locale has
//! are added (as empty strings), and, on request, keys it lacks are removed.
use crate::batch::capped;
use crate::config::OutputFormat;
use crate::json::{
    entries_of, find_key, find_key_exec, lemma_entries_of, lemma_find_key, obj_get, obj_set, obj_set_exec, tree_of,
    JsonTree, JsonValue,
};
use crate::locale::{locale_map, obj_swap_remove, parse_locale_map, LocaleParseError};
use crate::rename::{rewrite, rewritten};
use crate::text::{chars_of, string_of};
use vstd::prelude::*;

verus! {

/// The number of string leaves of a value.
pub open spec fn leaf_count(t: JsonTree) -> nat
    decreases t, 0int,
{
    match t {
        JsonTree::Object(ms) => members_leaf_count(ms, ms.len() as int),
        JsonTree::Str(_) => 1,
        _ => 0,
    }
}

/// The number of string leaves of the first `n` members.
pub open spec fn members_leaf_count(ms: Seq<(Seq<char>, JsonTree)>, n: int) -> nat
    decreases ms, n,
{
    if n <= 0 || n > ms.len() {
        0
    } else {
        members_leaf_count(ms, n - 1) + leaf_count(ms[n - 1].1)
    }
}

/// The empty counterpart of a value: objects keep their keys, everything else becomes an
/// empty string.
pub open spec fn skeleton(t: JsonTree) -> JsonTree
    decreases t, 0int,
{
    match t {
        JsonTree::Object(ms) => JsonTree::Object(skeleton_members(ms, ms.len() as int)),
        _ => JsonTree::Str(Seq::empty()),
    }
}

/// The empty counterparts of the first `n` members, set one after another into an empty
/// object.
pub open spec fn skeleton_members(ms: Seq<(Seq<char>, JsonTree)>, n: int) -> Seq<(Seq<char>, JsonTree)>
    decreases ms, n,
{
    if n <= 0 || n > ms.len() {
        Seq::empty()
    } else {
        obj_set(skeleton_members(ms, n - 1), ms[n - 1].0, skeleton(ms[n - 1].1))
    }
}

/// The secondary's members after the first `n` members of the primary were visited, with
/// the leaves added and removed so far: a key the secondary lacks gets the empty
/// counterpart of the primary's value (its leaves counted as added); a key both have, with
/// an object in the primary, is brought in line recursively.
pub open spec fn sync_members(p: Seq<(Seq<char>, JsonTree)>, s: Seq<(Seq<char>, JsonTree)>, n: int, remove: bool) -> (
    Seq<(Seq<char>, JsonTree)>,
    nat,
    nat,
)
    decreases p, n,
{
    if n <= 0 || n > p.len() {
        (s, 0, 0)
    } else {
        let (m, a, r) = sync_members(p, s, n - 1, remove);
        let k = p[n - 1].0;
        let pv = p[n - 1].1;
        match obj_get(m, k) {
            None => (obj_set(m, k, skeleton(pv)), a + leaf_count(pv), r),
            Some(sv) => if pv is Object {
                let (nv, a2, r2) = sync_tree(pv, sv, remove);
                (obj_set(m, k, nv), a + a2, r + r2)
            } else {
                (m, a, r)
            },
        }
    }
}

/// The secondary's keys, in order, that the primary lacks.
pub open spec fn stale_keys(s: Seq<(Seq<char>, JsonTree)>, p: Seq<(Seq<char>, JsonTree)>, n: int) -> Seq<Seq<char>>
    decreases n,
{
    if n <= 0 || n > s.len() {
        Seq::empty()
    } else if find_key(p, s[n - 1].0) is None {
        stale_keys(s, p, n - 1).push(s[n - 1].0)
    } else {
        stale_keys(s, p, n - 1)
    }
}

/// The members with the listed keys removed one after another (each removal moves the
/// last member into the freed place), and the leaves removed.
pub open spec fn drop_keys(s: Seq<(Seq<char>, JsonTree)>, keys: Seq<Seq<char>>) -> (Seq<(Seq<char>, JsonTree)>, nat)
    decreases keys.len(),
{
    if keys.len() == 0 {
        (s, 0)
    } else {
        let (m, c) = drop_keys(s, keys.drop_last());
        let k = keys.last();
        (obj_swap_remove(m, k), c + match obj_get(m, k) {
            Some(v) => leaf_count(v),
            None => 0,
        })
    }
}

/// A secondary value brought in line with a primary one, with the leaves added and
/// removed: only when both are objects; keys the primary lacks are removed when asked.
pub open spec fn sync_tree(p: JsonTree, s: JsonTree, remove: bool) -> (JsonTree, nat, nat)
    decreases p, 0int,
{
    match p {
        JsonTree::Object(pm) => match s {
            JsonTree::Object(sm) => {
                let (m, a, r) = sync_members(pm, sm, pm.len() as int, remove);
                if remove {
                    let (m2, r2) = drop_keys(m, stale_keys(m, pm, m.len() as int));
                    (JsonTree::Object(m2), a, r + r2)
                } else {
                    (JsonTree::Object(m), a, r)
                }
            },
            _ => (s, 0, 0),
        },
        _ => (s, 0, 0),
    }
}

/// The number of string leaves of a value (see [`leaf_count`]), capped at `usize::MAX`.
fn leaf_count_exec(v: &JsonValue) -> (r: usize)
    ensures
        r == capped(leaf_count(v@)),
    decreases v,
{
    match v {
        JsonValue::Object(members) => {
            let ghost es = entries_of(members@);
            proof {
                lemma_entries_of(members@);
            }
            let mut total: usize = 0;
            let mut i: usize = 0;
            while i < members.len()
                invariant
                    i <= members@.len(),
                    es == entries_of(members@),
                    es.len() == members@.len(),
                    forall|j: int| 0 <= j < members@.len() ==> #[trigger] es[j] == (members@[j].0@, tree_of(members@[j].1)),
                    total == capped(members_leaf_count(es, i as int)),
                    *v == JsonValue::Object(*members),
                decreases members.len() - i,
            {
                proof {
                    assert(decreases_to!(*v => v->Object_0));
                    assert(decreases_to!(v->Object_0 => v->Object_0@));
                    assert(decreases_to!(v->Object_0@ => v->Object_0@[i as int]));
                    assert(decreases_to!(v->Object_0@[i as int] => v->Object_0@[i as int].1));
                    assert(es[i as int] == (members@[i as int].0@, tree_of(members@[i as int].1)));
                }
                let c = leaf_count_exec(&members[i].1);
                total = total.saturating_add(c);
                i = i + 1;
            }
            total
        },
        JsonValue::Str(_) => 1,
        _ => 0,
    }
}

/// The empty counterpart of a value (see [`skeleton`]).
fn skeleton_exec(v: &JsonValue) -> (r: JsonValue)
    ensures
        r@ == skeleton(v@),
    decreases v,
{
    match v {
        JsonValue::Object(members) => {
            let ghost es = entries_of(members@);
            proof {
                lemma_entries_of(members@);
            }
            let mut out: Vec<(String, JsonValue)> = Vec::new();
            proof {
                assert(entries_of(out@) =~= Seq::<(Seq<char>, JsonTree)>::empty());
            }
            let mut i: usize = 0;
            while i < members.len()
                invariant
                    i <= members@.len(),
                    es == entries_of(members@),
                    es.len() == members@.len(),
                    forall|j: int| 0 <= j < members@.len() ==> #[trigger] es[j] == (members@[j].0@, tree_of(members@[j].1)),
                    entries_of(out@) == skeleton_members(es, i as int),
                    *v == JsonValue::Object(*members),
                decreases members.len() - i,
            {
                proof {
                    assert(decreases_to!(*v => v->Object_0));
                    assert(decreases_to!(v->Object_0 => v->Object_0@));
                    assert(decreases_to!(v->Object_0@ => v->Object_0@[i as int]));
                    assert(decreases_to!(v->Object_0@[i as int] => v->Object_0@[i as int].1));
                    assert(es[i as int] == (members@[i as int].0@, tree_of(members@[i as int].1)));
                }
                let x = skeleton_exec(&members[i].1);
                obj_set_exec(&mut out, members[i].0.clone(), x);
                i = i + 1;
            }
            JsonValue::Object(out)
        },
        _ => JsonValue::Str(string_of(&Vec::new())),
    }
}

/// The keys of `s`, in order, that `p` lacks (see [`stale_keys`]).
fn stale_keys_exec(s: &Vec<(String, JsonValue)>, p: &Vec<(String, JsonValue)>) -> (r: Vec<Vec<char>>)
    ensures
        crate::text::cviews(r@) == stale_keys(entries_of(s@), entries_of(p@), s@.len() as int),
{
    proof {
        lemma_entries_of(s@);
    }
    let mut out: Vec<Vec<char>> = Vec::new();
    let mut i: usize = 0;
    while i < s.len()
        invariant
            i <= s@.len(),
            entries_of(s@).len() == s@.len(),
            forall|j: int| 0 <= j < s@.len() ==> #[trigger] entries_of(s@)[j] == (s@[j].0@, tree_of(s@[j].1)),
            crate::text::cviews(out@) == stale_keys(entries_of(s@), entries_of(p@), i as int),
        decreases s.len() - i,
    {
        let k = chars_of(s[i].0.as_str());
        assert(entries_of(s@)[i as int].0 == k@);
        if find_key_exec(p, &k).is_none() {
            out.push(k);
            assert(crate::text::cviews(out@) =~= stale_keys(entries_of(s@), entries_of(p@), i as int + 1));
        }
        i = i + 1;
    }
    out
}

/// Removes the listed keys one after another (see [`drop_keys`]); gives the leaves removed,
/// capped at `usize::MAX`.
fn drop_keys_exec(s: &mut Vec<(String, JsonValue)>, keys: &Vec<Vec<char>>) -> (r: usize)
    ensures
        entries_of(final(s)@) == drop_keys(entries_of(old(s)@), crate::text::cviews(keys@)).0,
        r == capped(drop_keys(entries_of(old(s)@), crate::text::cviews(keys@)).1),
{
    let ghost s0 = entries_of(s@);
    let ghost kv = crate::text::cviews(keys@);
    let mut removed: usize = 0;
    let mut t: usize = 0;
    proof {
        assert(kv.take(0) =~= Seq::<Seq<char>>::empty());
    }
    while t < keys.len()
        invariant
            t <= keys@.len(),
            kv == crate::text::cviews(keys@),
            kv.len() == keys@.len(),
            entries_of(s@) == drop_keys(s0, kv.take(t as int)).0,
            removed == capped(drop_keys(s0, kv.take(t as int)).1),
        decreases keys.len() - t,
    {
        proof {
            assert(kv.take(t as int + 1).drop_last() =~= kv.take(t as int));
            assert(kv[t as int] == keys@[t as int]@);
            lemma_entries_of(s@);
            lemma_find_key(entries_of(s@), kv[t as int]);
        }
        match find_key_exec(s, &keys[t]) {
            Some(j) => {
                let c = leaf_count_exec(&s[j].1);
                let ghost e = entries_of(s@);
                s.swap_remove(j);
                proof {
                    lemma_entries_of(s@);
                    assert(entries_of(s@) =~= e.update(j as int, e.last()).drop_last());
                }
                removed = removed.saturating_add(c);
            },
            None => {},
        }
        t = t + 1;
    }
    proof {
        assert(kv.take(kv.len() as int) =~= kv);
    }
    removed
}

/// Brings a secondary value in line with a primary one (see [`sync_tree`]); gives the
/// leaves added and removed, each capped at `usize::MAX`.
fn sync_value(primary: &JsonValue, secondary: &mut JsonValue, remove: bool) -> (r: (usize, usize))
    ensures
        final(secondary)@ == sync_tree(primary@, old(secondary)@, remove).0,
        r.0 == capped(sync_tree(primary@, old(secondary)@, remove).1),
        r.1 == capped(sync_tree(primary@, old(secondary)@, remove).2),
    decreases primary,
{
    match primary {
        JsonValue::Object(pm) => match secondary {
            JsonValue::Object(sm) => {
                let ghost pe = entries_of(pm@);
                let ghost se = entries_of(sm@);
                assert(old(secondary)@ == JsonTree::Object(se));
                assert(primary@ == JsonTree::Object(pe));
                proof {
                    lemma_entries_of(pm@);
                }
                let mut added: usize = 0;
                let mut removed: usize = 0;
                let mut i: usize = 0;
                while i < pm.len()
                    invariant
                        i <= pm@.len(),
                        pe == entries_of(pm@),
                        pe.len() == pm@.len(),
                        forall|j: int| 0 <= j < pm@.len() ==> #[trigger] pe[j] == (pm@[j].0@, tree_of(pm@[j].1)),
                        entries_of(sm@) == sync_members(pe, se, i as int, remove).0,
                        added == capped(sync_members(pe, se, i as int, remove).1),
                        removed == capped(sync_members(pe, se, i as int, remove).2),
                        *primary == JsonValue::Object(*pm),
                    decreases pm.len() - i,
                {
                    proof {
                        assert(decreases_to!(*primary => primary->Object_0));
                        assert(decreases_to!(primary->Object_0 => primary->Object_0@));
                        assert(decreases_to!(primary->Object_0@ => primary->Object_0@[i as int]));
                        assert(decreases_to!(primary->Object_0@[i as int] => primary->Object_0@[i as int].1));
                        assert(pe[i as int] == (pm@[i as int].0@, tree_of(pm@[i as int].1)));
                        lemma_entries_of(sm@);
                        lemma_find_key(entries_of(sm@), pe[i as int].0);
                    }
                    let k = chars_of(pm[i].0.as_str());
                    match find_key_exec(sm, &k) {
                        None => {
                            let c = leaf_count_exec(&pm[i].1);
                            let x = skeleton_exec(&pm[i].1);
                            obj_set_exec(sm, pm[i].0.clone(), x);
                            added = added.saturating_add(c);
                        },
                        Some(j) => {
                            match &pm[i].1 {
                                JsonValue::Object(_) => {
                                    let ghost e = entries_of(sm@);
                                    let (name, mut inner) = sm.remove(j);
                                    let (a2, r2) = sync_value(&pm[i].1, &mut inner, remove);
                                    let ghost iv = inner@;
                                    sm.insert(j, (name, inner));
                                    proof {
                                        lemma_entries_of(sm@);
                                        assert(entries_of(sm@) =~= e.update(j as int, (pe[i as int].0, iv)));
                                    }
                                    added = added.saturating_add(a2);
                                    removed = removed.saturating_add(r2);
                                },
                                _ => {},
                            }
                        },
                    }
                    i = i + 1;
                }
                let ghost m = entries_of(sm@);
                assert(m.len() == sm@.len()) by {
                    lemma_entries_of(sm@);
                }
                if remove {
                    let stale = stale_keys_exec(sm, pm);
                    let r2 = drop_keys_exec(sm, &stale);
                    removed = removed.saturating_add(r2);
                }
                (added, removed)
            },
            _ => (0, 0),
        },
        _ => (0, 0),
    }
}

/// A secondary locale file brought in line with the primary one: the leaves added and
/// removed (each capped at `usize::MAX`) and the file's new text.
#[derive(Debug)]
pub struct SecondarySync {
    pub added: usize,
    pub removed: usize,
    pub text: String,
}

/// What bringing a secondary file in line with a primary file gives: nothing for a blank
/// primary file; otherwise both maps are read (the secondary as an empty map when its file
/// does not exist), synced (see [`sync_tree`]), and the result written sorted by key in the
/// format and the secondary file's layout.
pub open spec fn synced_secondary(
    primary: Seq<char>,
    secondary: Option<Seq<char>>,
    format: OutputFormat,
    remove: bool,
) -> Result<Option<(nat, nat, Seq<char>)>, LocaleParseError> {
    if crate::text::is_blank(primary) {
        Ok(None)
    } else {
        match locale_map(primary, format) {
            Err(e) => Err(e),
            Ok(pm) => {
                let parsed = match secondary {
                    Some(c) => locale_map(c, format),
                    None => Ok(Seq::empty()),
                };
                match parsed {
                    Err(e) => Err(e),
                    Ok(sm) => {
                        let (t, a, r) = sync_tree(JsonTree::Object(pm), JsonTree::Object(sm), remove);
                        Ok(Some((a, r, rewritten(t->Object_0, format, secondary))))
                    },
                }
            },
        }
    }
}

/// Brings a secondary locale file (its text, or `None` when it does not exist) in line with
/// the primary locale's file of the same namespace (see [`synced_secondary`]).
pub fn sync_secondary_file(
    primary: &str,
    secondary: Option<&str>,
    format: OutputFormat,
    remove_unused: bool,
) -> (r: Result<Option<SecondarySync>, LocaleParseError>)
    ensures
        match r {
            Ok(None) => synced_secondary(primary@, match secondary { Some(c) => Some(c@), None => None }, format, remove_unused)
                == Ok::<Option<(nat, nat, Seq<char>)>, LocaleParseError>(None),
            Ok(Some(x)) => synced_secondary(primary@, match secondary { Some(c) => Some(c@), None => None }, format, remove_unused)
                matches Ok(Some((a, rm, text))) && x.added == capped(a) && x.removed == capped(rm) && x.text@ == text,
            Err(e) => synced_secondary(primary@, match secondary { Some(c) => Some(c@), None => None }, format, remove_unused)
                == Err::<Option<(nat, nat, Seq<char>)>, LocaleParseError>(e),
        },
{
    if crate::text::is_blank_exec(&chars_of(primary)) {
        return Ok(None);
    }
    let pm = match parse_locale_map(primary, format) {
        Ok(m) => m,
        Err(e) => {
            return Err(e);
        },
    };
    let sm = match secondary {
        Some(c) => match parse_locale_map(c, format) {
            Ok(m) => m,
            Err(e) => {
                return Err(e);
            },
        },
        None => Vec::new(),
    };
    proof {
        assert(entries_of(Seq::<(String, JsonValue)>::empty()) =~= Seq::<(Seq<char>, JsonTree)>::empty());
    }
    let p = JsonValue::Object(pm);
    let mut s = JsonValue::Object(sm);
    let (added, removed) = sync_value(&p, &mut s, remove_unused);
    let text = match s {
        JsonValue::Object(m) => rewrite(m, format, secondary),
        _ => string_of(&Vec::new()),
    };
    Ok(Some(SecondarySync { added, removed, text }))
}

/// Whether the members hold a member named `k`.
pub open spec fn has_member(es: Seq<(Seq<char>, JsonTree)>, k: Seq<char>) -> bool {
    exists|j: int| 0 <= j < es.len() && (#[trigger] es[j]).0 == k
}

proof fn lemma_has_member_find(es: Seq<(Seq<char>, JsonTree)>, k: Seq<char>)
    ensures
        has_member(es, k) <==> find_key(es, k) is Some,
{
    lemma_find_key(es, k);
    if find_key(es, k) is Some {
        let j = find_key(es, k)->0;
        assert(es[j].0 == k);
    }
}

/// Setting a member keeps every member name and adds the one set.
proof fn lemma_obj_set_members(es: Seq<(Seq<char>, JsonTree)>, k: Seq<char>, v: JsonTree, q: Seq<char>)
    ensures
        has_member(obj_set(es, k, v), k),
        has_member(es, q) ==> has_member(obj_set(es, k, v), q),
{
    lemma_find_key(es, k);
    let r = obj_set(es, k, v);
    match find_key(es, k) {
        Some(i) => {
            assert(r[i].0 == k);
            if has_member(es, q) {
                let j = choose|j: int| 0 <= j < es.len() && (#[trigger] es[j]).0 == q;
                assert(r[j].0 == q);
            }
        },
        None => {
            assert(r[es.len() as int].0 == k);
            if has_member(es, q) {
                let j = choose|j: int| 0 <= j < es.len() && (#[trigger] es[j]).0 == q;
                assert(r[j] == es[j]);
            }
        },
    }
}

/// Removing a member named `k` keeps every member with another name.
proof fn lemma_swap_remove_keeps(es: Seq<(Seq<char>, JsonTree)>, k: Seq<char>, q: Seq<char>)
    requires
        q != k,
        has_member(es, q),
    ensures
        has_member(obj_swap_remove(es, k), q),
{
    lemma_find_key(es, k);
    let j = choose|j: int| 0 <= j < es.len() && (#[trigger] es[j]).0 == q;
    match find_key(es, k) {
        Some(i) => {
            let r = obj_swap_remove(es, k);
            if j == es.len() - 1 {
                assert(r[i].0 == q);
            } else {
                assert(r[j].0 == q);
            }
        },
        None => {},
    }
}

/// The keys found stale are all missing from the primary.
proof fn lemma_stale_keys_missing(s: Seq<(Seq<char>, JsonTree)>, p: Seq<(Seq<char>, JsonTree)>, n: int)
    ensures
        forall|t: int| 0 <= t < stale_keys(s, p, n).len() ==> find_key(p, #[trigger] stale_keys(s, p, n)[t]) is None,
    decreases n,
{
    if n > 0 && n <= s.len() {
        lemma_stale_keys_missing(s, p, n - 1);
    }
}

/// Removing keys keeps every member whose name is not among them.
proof fn lemma_drop_keys_keeps(s: Seq<(Seq<char>, JsonTree)>, keys: Seq<Seq<char>>, q: Seq<char>)
    requires
        has_member(s, q),
        forall|t: int| 0 <= t < keys.len() ==> #[trigger] keys[t] != q,
    ensures
        has_member(drop_keys(s, keys).0, q),
    decreases keys.len(),
{
    if keys.len() > 0 {
        lemma_drop_keys_keeps(s, keys.drop_last(), q);
        assert(keys[keys.len() - 1] != q);
        lemma_swap_remove_keeps(drop_keys(s, keys.drop_last()).0, keys.last(), q);
    }
}

/// After the first `n` members of the primary are visited, the secondary holds each of
/// their names, and every name it held before.
proof fn lemma_sync_members_covers(p: Seq<(Seq<char>, JsonTree)>, s: Seq<(Seq<char>, JsonTree)>, n: int, remove: bool, q: Seq<char>)
    requires
        0 <= n <= p.len(),
    ensures
        (exists|j: int| 0 <= j < n && (#[trigger] p[j]).0 == q) ==> has_member(sync_members(p, s, n, remove).0, q),
        has_member(s, q) ==> has_member(sync_members(p, s, n, remove).0, q),
    decreases n,
{
    if n > 0 {
        lemma_sync_members_covers(p, s, n - 1, remove, q);
        let m = sync_members(p, s, n - 1, remove).0;
        let k = p[n - 1].0;
        lemma_has_member_find(m, k);
        lemma_obj_set_members(m, k, skeleton(p[n - 1].1), q);
        if obj_get(m, k) is Some && p[n - 1].1 is Object {
            let sv = obj_get(m, k)->0;
            lemma_obj_set_members(m, k, sync_tree(p[n - 1].1, sv, remove).0, q);
        }
        if exists|j: int| 0 <= j < n && (#[trigger] p[j]).0 == q {
            let j = choose|j: int| 0 <= j < n && (#[trigger] p[j]).0 == q;
            if j < n - 1 {
                assert(exists|j: int| 0 <= j < n - 1 && (#[trigger] p[j]).0 == q);
            }
        }
    }
}

/// Syncing a secondary object with a primary one leaves the secondary with every key the
/// primary has at its top level, whether or not unused keys are removed.
pub proof fn lemma_sync_covers_primary(
    pm: Seq<(Seq<char>, JsonTree)>,
    sm: Seq<(Seq<char>, JsonTree)>,
    remove: bool,
    q: Seq<char>,
)
    requires
        has_member(pm, q),
    ensures
        sync_tree(JsonTree::Object(pm), JsonTree::Object(sm), remove).0 matches JsonTree::Object(res) && has_member(res, q),
{
    lemma_sync_members_covers(pm, sm, pm.len() as int, remove, q);
    let j = choose|j: int| 0 <= j < pm.len() && (#[trigger] pm[j]).0 == q;
    assert(pm[j].0 == q);
    let m = sync_members(pm, sm, pm.len() as int, remove).0;
    if remove {
        let st = stale_keys(m, pm, m.len() as int);
        lemma_stale_keys_missing(m, pm, m.len() as int);
        lemma_has_member_find(pm, q);
        assert forall|t: int| 0 <= t < st.len() implies #[trigger] st[t] != q by {
            assert(find_key(pm, st[t]) is None);
        }
        lemma_drop_keys_keeps(m, st, q);
    }
}

} // verus!
