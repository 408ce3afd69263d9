//! The walk over a module's syntax tree that collects translation keys.
use crate::ast::{comment_map, field, field_exec, has_type, items_exec, items_of, span_hi, span_hi_exec, span_lo, span_lo_exec, text_exec, text_of, trees, type_is};
use crate::calls::{bool_prop, bool_prop_from, call_context, call_context_exec, callee_name, callee_name_exec, first_arg_key, first_arg_key_exec, has_prop, has_prop_exec, option_props, option_props_exec, string_prop, string_prop_from};
use crate::comments::{nested_keys, push_nested_keys};
use crate::json::{entries_of, lemma_entries_of, lemma_trees_of, trees_of, JsonTree, JsonValue};
use crate::keys::{context_keys, key_views, kv, plural_keys_with_context, push_context_keys, push_key, push_plural_keys_with_context, split_namespace, ExtractedKey, KeyView, ScanSettings};
use crate::scope::{apply_scope, apply_scope_exec, bound_t_name, bound_t_name_exec, get_fixed_t_scope, get_fixed_t_scope_exec, or_else, scope_view, scopes_view, use_translation_scope, use_translation_scope_exec, ScopeInfo};
use crate::text::{chars_of, concat2, contains, contains_exec, strings_contain, views};
use crate::trans::{attr_context, attr_context_from, attr_string, attr_string_from, children_text, children_text_exec, has_attr, has_attr_exec};
use vstd::prelude::*;

verus! {

/// What the walk has gathered: keys, bound translation functions, and the positions of
/// template literals that could not be read as keys.
pub struct VisitState {
    pub keys: Vec<ExtractedKey>,
    pub scopes: Vec<(String, ScopeInfo)>,
    pub warnings: Vec<u64>,
}

/// The mathematical content of a [`VisitState`].
pub struct StateView {
    pub keys: Seq<KeyView>,
    pub scopes: Seq<(Seq<char>, (Option<Seq<char>>, Option<Seq<char>>))>,
    pub warnings: Seq<int>,
}

pub open spec fn state_view(s: VisitState) -> StateView {
    StateView {
        keys: key_views(s.keys@),
        scopes: scopes_view(s.scopes@),
        warnings: s.warnings@.map_values(|w: u64| w as int),
    }
}

/// The comments of a script, by position.
pub struct CommentMaps {
    pub leading: Map<int, Seq<Seq<char>>>,
    pub trailing: Map<int, Seq<Seq<char>>>,
}

/// Whether a comment at `pos` (in `m`) contains `marker`.
pub open spec fn comment_says(m: Map<int, Seq<Seq<char>>>, pos: Option<int>, marker: Seq<char>) -> bool {
    match pos {
        Some(p) => m.contains_key(p) && exists|i: int| 0 <= i < m[p].len() && contains(m[p][i], marker),
        None => false,
    }
}

/// Whether a node is excluded by a magic comment: `i18next-extract-disable` just before it,
/// or `i18next-extract-disable-line` just after it.
pub open spec fn disabled(cm: CommentMaps, node: JsonTree) -> bool {
    comment_says(cm.leading, span_lo(node), "i18next-extract-disable"@)
        || comment_says(cm.trailing, span_hi(node), "i18next-extract-disable-line"@)
}

/// The characters of an optional character vector.
pub open spec fn vopt(o: Option<Vec<char>>) -> Option<Seq<char>> {
    match o {
        Some(v) => Some(v@),
        None => None,
    }
}

/// Where a warning about a node is reported: the start of its span.
pub open spec fn warning_pos(node: JsonTree) -> int {
    match span_lo(node) {
        Some(p) => if p <= u64::MAX {
            p
        } else {
            0
        },
        None => 0,
    }
}

/// `st` with keys appended.
pub open spec fn add_keys(st: StateView, ks: Seq<KeyView>) -> StateView {
    StateView { keys: st.keys + ks, ..st }
}

/// The keys of a translation call: those nested in its default value, then its own (the
/// `key.*` marker with `returnObjects`, plural keys with `count`, context variants with
/// `context`, the key itself otherwise).
pub open spec fn call_keys(
    cx: ScanSettings,
    scopes: Seq<(Seq<char>, (Option<Seq<char>>, Option<Seq<char>>))>,
    args: Seq<JsonTree>,
    key: Seq<char>,
    func: Option<Seq<char>>,
) -> Seq<KeyView> {
    let (ns, base) = match func {
        Some(f) => apply_scope(scopes, key, f),
        None => split_namespace(key),
    };
    let props = option_props(args);
    let has_count = match props {
        Some(ps) => has_prop(ps, "count"@),
        None => false,
    };
    let ctx = call_context(args);
    let ordinal = match props {
        Some(ps) => bool_prop_from(ps, "ordinal"@, 0) == Some(true),
        None => false,
    };
    let dv = match props {
        Some(ps) => string_prop_from(ps, "defaultValue"@, 0),
        None => None,
    };
    let ret_obj = match props {
        Some(ps) => bool_prop_from(ps, "returnObjects"@, 0) == Some(true),
        None => false,
    };
    let nested = match dv {
        Some(d) => nested_keys(cx, d),
        None => Seq::empty(),
    };
    let own = if ret_obj {
        seq![kv(base + ".*"@, ns, None)]
    } else if has_count {
        plural_keys_with_context(cx.plural, base, ns, dv, ctx, ordinal)
    } else {
        match ctx {
            Some((vals, dynamic)) => context_keys(cx.plural.context_separator@, base, ns, dv, vals, dynamic),
            None => seq![kv(base, ns, dv)],
        }
    };
    nested + own
}

/// A call expression: a configured translation function gives keys; a template literal
/// with substitutions as its key gives a warning instead.
pub open spec fn call_step(cx: ScanSettings, cm: CommentMaps, st: StateView, call: JsonTree) -> StateView {
    let func = match field(call, "callee"@) {
        Some(c) => callee_name(c),
        None => None,
    };
    let is_t = match func {
        Some(f) => views(cx.functions@).contains(f),
        None => false,
    };
    if disabled(cm, call) || !is_t {
        st
    } else {
        let args = items_of(field(call, "arguments"@));
        let (key, warn) = first_arg_key(args);
        let st1 = if warn {
            StateView { warnings: st.warnings.push(warning_pos(call)), ..st }
        } else {
            st
        };
        match key {
            Some(k) => add_keys(st1, call_keys(cx, st.scopes, args, k, func)),
            None => st1,
        }
    }
}

/// The keys of a `<Trans>` element: those nested in its default value, then its own (plural
/// keys with `count`, context variants with `context`, the key itself otherwise). The key
/// is `i18nKey` or else the children's text; the default value is `defaults` or else the
/// children's text.
pub open spec fn trans_keys(cx: ScanSettings, el: JsonTree, attrs: Seq<JsonTree>) -> Seq<KeyView> {
    let i18n = attr_string_from(attrs, "i18nKey"@, 0);
    let nsa = attr_string_from(attrs, "ns"@, 0);
    let defaults = attr_string_from(attrs, "defaults"@, 0);
    let ct = children_text(items_of(field(el, "children"@)));
    let has_count = has_attr(attrs, "count"@);
    let ctx = attr_context_from(attrs, 0);
    let key_dv: Option<(Seq<char>, Option<Seq<char>>)> = match i18n {
        Some(k) => Some((k, or_else(defaults, ct))),
        None => match ct {
            Some(c) => Some((c, Some(c))),
            None => None,
        },
    };
    match key_dv {
        Some((key, dv)) => {
            let nested = match dv {
                Some(d) => nested_keys(cx, d),
                None => Seq::empty(),
            };
            let (nsk, base) = split_namespace(key);
            let ns = or_else(nsa, nsk);
            let own = if has_count {
                plural_keys_with_context(cx.plural, base, ns, dv, ctx, false)
            } else {
                match ctx {
                    Some((vals, dynamic)) => context_keys(cx.plural.context_separator@, base, ns, dv, vals, dynamic),
                    None => seq![kv(base, ns, dv)],
                }
            };
            nested + own
        },
        None => Seq::empty(),
    }
}

/// The attributes of a JSX element that is a configured `<Trans>` component.
pub open spec fn trans_attrs(cx: ScanSettings, el: JsonTree) -> Option<Seq<JsonTree>> {
    match field(el, "opening"@) {
        Some(op) => match field(op, "name"@) {
            Some(nm) => if has_type(nm, "Identifier"@) && (match text_of(field(nm, "value"@)) {
                Some(t) => views(cx.trans_components@).contains(t),
                None => false,
            }) {
                Some(items_of(field(op, "attributes"@)))
            } else {
                None
            },
            None => None,
        },
        None => None,
    }
}

/// A JSX element: a configured `<Trans>` component gives keys.
pub open spec fn jsx_step(cx: ScanSettings, cm: CommentMaps, st: StateView, el: JsonTree) -> StateView {
    if disabled(cm, el) {
        st
    } else {
        match trans_attrs(cx, el) {
            Some(attrs) => add_keys(st, trans_keys(cx, el, attrs)),
            None => st,
        }
    }
}

/// A variable declarator: `const t = useTranslation(...)` (or `getFixedT(...)`) binds a
/// scope to the declared translation function.
pub open spec fn declarator_step(cx: ScanSettings, st: StateView, d: JsonTree) -> StateView {
    match field(d, "init"@) {
        Some(init) => if has_type(init, "CallExpression"@) {
            let scope = match use_translation_scope(cx.use_translation_names@, init) {
                Some(sc) => Some(sc),
                None => get_fixed_t_scope(init),
            };
            match scope {
                Some(sc) => match field(d, "id"@) {
                    Some(p) => match bound_t_name(p) {
                        Some(n) => StateView { scopes: st.scopes.push((n, sc)), ..st },
                        None => st,
                    },
                    None => st,
                },
                None => st,
            }
        } else {
            st
        },
        None => st,
    }
}

/// What one node contributes before its children are walked.
pub open spec fn node_step(cx: ScanSettings, cm: CommentMaps, st: StateView, t: JsonTree) -> StateView {
    if has_type(t, "VariableDeclarator"@) {
        declarator_step(cx, st, t)
    } else if has_type(t, "CallExpression"@) {
        call_step(cx, cm, st, t)
    } else if has_type(t, "JSXElement"@) {
        jsx_step(cx, cm, st, t)
    } else {
        st
    }
}

/// The state after walking a tree: each node is handled before its children, and children
/// in order.
pub open spec fn walk(cx: ScanSettings, cm: CommentMaps, st: StateView, t: JsonTree) -> StateView
    decreases t, 0nat,
{
    match t {
        JsonTree::Array(items) => walk_items(cx, cm, st, items, items.len() as int),
        JsonTree::Object(es) => walk_members(cx, cm, node_step(cx, cm, st, t), es, es.len() as int),
        _ => st,
    }
}

/// The state after walking the first `n` items.
pub open spec fn walk_items(cx: ScanSettings, cm: CommentMaps, st: StateView, items: Seq<JsonTree>, n: int) -> StateView
    decreases items, n + 1,
{
    if n <= 0 || n > items.len() {
        st
    } else {
        walk(cx, cm, walk_items(cx, cm, st, items, n - 1), items[n - 1])
    }
}

/// The state after walking the values of the first `n` members.
pub open spec fn walk_members(
    cx: ScanSettings,
    cm: CommentMaps,
    st: StateView,
    es: Seq<(Seq<char>, JsonTree)>,
    n: int,
) -> StateView
    decreases es, n + 1,
{
    if n <= 0 || n > es.len() {
        st
    } else {
        proof {
            assert(decreases_to!(es => es[n - 1]));
            assert(decreases_to!(es[n - 1] => es[n - 1].1));
        }
        walk(cx, cm, walk_members(cx, cm, st, es, n - 1), es[n - 1].1)
    }
}

/// The comment maps given by lists of entries.
pub open spec fn maps_of(lead: Seq<(u32, Vec<String>)>, trail: Seq<(u32, Vec<String>)>) -> CommentMaps {
    CommentMaps { leading: comment_map(lead), trailing: comment_map(trail) }
}

/// A position is in the comment map exactly when some entry has it, and its texts are
/// those of the last such entry.
proof fn lemma_comment_map_lookup(entries: Seq<(u32, Vec<String>)>, k: int)
    ensures
        comment_map(entries).contains_key(k) <==> exists|j: int| 0 <= j < entries.len() && entries[j].0 as int == k,
        forall|j: int|
            0 <= j < entries.len() && entries[j].0 as int == k && (forall|l: int| j < l < entries.len() ==> entries[l].0 as int != k)
                ==> comment_map(entries)[k] == views(#[trigger] entries[j].1@),
    decreases entries.len(),
{
    if entries.len() > 0 {
        let pre = entries.drop_last();
        let last = entries.last();
        lemma_comment_map_lookup(pre, k);
        assert(comment_map(entries) == comment_map(pre).insert(last.0 as int, views(last.1@)));
        assert forall|j: int| 0 <= j < pre.len() implies #[trigger] pre[j] == entries[j] by {}
        if exists|j: int| 0 <= j < entries.len() && entries[j].0 as int == k {
            let j = choose|j: int| 0 <= j < entries.len() && entries[j].0 as int == k;
            if j < pre.len() {
                assert(pre[j].0 as int == k);
            }
        }
        if comment_map(pre).contains_key(k) {
            let j = choose|j: int| 0 <= j < pre.len() && pre[j].0 as int == k;
            assert(entries[j].0 as int == k);
        }
        assert forall|j: int|
            0 <= j < entries.len() && entries[j].0 as int == k && (forall|l: int| j < l < entries.len() ==> entries[l].0 as int != k)
                implies comment_map(entries)[k] == views(#[trigger] entries[j].1@) by {
            if j < pre.len() {
                assert(last.0 as int != k);
                assert(pre[j].0 as int == k);
                assert(forall|l: int| j < l < pre.len() ==> pre[l].0 as int != k);
                assert(comment_map(pre)[k] == views(pre[j].1@));
            }
        }
    }
}

/// The index of the last entry at position `p`.
fn last_entry_at(entries: &Vec<(u32, Vec<String>)>, p: u64) -> (r: Option<usize>)
    ensures
        match r {
            Some(j) => j < entries@.len() && entries@[j as int].0 as int == p as int
                && forall|l: int| j < l < entries@.len() ==> entries@[l].0 as int != p as int,
            None => forall|l: int| 0 <= l < entries@.len() ==> entries@[l].0 as int != p as int,
        },
{
    let mut j: usize = entries.len();
    while j > 0
        invariant
            j <= entries@.len(),
            forall|l: int| j <= l < entries@.len() ==> entries@[l].0 as int != p as int,
        decreases j,
    {
        if entries[j - 1].0 as u64 == p {
            return Some(j - 1);
        }
        j = j - 1;
    }
    None
}

/// Whether a comment at `pos` contains `marker` (see [`comment_says`]).
fn comment_says_exec(entries: &Vec<(u32, Vec<String>)>, pos: Option<u64>, marker: &[char]) -> (r: bool)
    ensures
        r == comment_says(comment_map(entries@), match pos {
            Some(p) => Some(p as int),
            None => None,
        }, marker@),
{
    let p = match pos {
        Some(p) => p,
        None => {
            return false;
        },
    };
    proof {
        lemma_comment_map_lookup(entries@, p as int);
    }
    let j = match last_entry_at(entries, p) {
        Some(j) => j,
        None => {
            assert(!comment_map(entries@).contains_key(p as int));
            return false;
        },
    };
    let texts = &entries[j].1;
    assert(comment_map(entries@)[p as int] == views(texts@));
    assert(comment_map(entries@).contains_key(p as int));
    let mut i: usize = 0;
    while i < texts.len()
        invariant
            i <= texts@.len(),
            pos == Some(p),
            comment_map(entries@).contains_key(p as int),
            comment_map(entries@)[p as int] == views(texts@),
            forall|l: int| 0 <= l < i ==> !contains(texts@[l]@, marker@),
        decreases texts.len() - i,
    {
        if contains_exec(&chars_of(texts[i].as_str()), marker) {
            assert(views(texts@)[i as int] == texts@[i as int]@);
            return true;
        }
        i = i + 1;
    }
    proof {
        if exists|l: int| 0 <= l < views(texts@).len() && contains(views(texts@)[l], marker@) {
            let l = choose|l: int| 0 <= l < views(texts@).len() && contains(views(texts@)[l], marker@);
            assert(views(texts@)[l] == texts@[l]@);
        }
    }
    false
}

/// Whether a node is excluded by a magic comment (see [`disabled`]).
fn disabled_exec(lead: &Vec<(u32, Vec<String>)>, trail: &Vec<(u32, Vec<String>)>, node: &JsonValue) -> (r: bool)
    ensures
        r == disabled(maps_of(lead@, trail@), node@),
{
    let lo = span_lo_exec(node);
    let hi = span_hi_exec(node);
    let a = comment_says_exec(lead, lo, &chars_of("i18next-extract-disable"));
    let b = comment_says_exec(trail, hi, &chars_of("i18next-extract-disable-line"));
    proof {
        if lo is None && span_lo(node@) is Some {
            assert(span_lo(node@)->0 > u64::MAX);
            assert(!comment_map(lead@).contains_key(span_lo(node@)->0)) by {
                lemma_comment_map_lookup(lead@, span_lo(node@)->0);
            }
        }
        if hi is None && span_hi(node@) is Some {
            assert(!comment_map(trail@).contains_key(span_hi(node@)->0)) by {
                lemma_comment_map_lookup(trail@, span_hi(node@)->0);
            }
        }
    }
    a || b
}

/// A call expression (see [`call_step`]).
fn call_step_exec(
    cx: &ScanSettings,
    lead: &Vec<(u32, Vec<String>)>,
    trail: &Vec<(u32, Vec<String>)>,
    st: &mut VisitState,
    call: &JsonValue,
)
    requires
        cx.nesting_prefix@.len() + cx.nesting_suffix@.len() > 0,
    ensures
        state_view(*final(st)) == call_step(*cx, maps_of(lead@, trail@), state_view(*old(st)), call@),
{
    let func = match field_exec(call, &chars_of("callee")) {
        Some(c) => callee_name_exec(c),
        None => None,
    };
    let ghost funcv = vopt(func);
    let is_t = match &func {
        Some(f) => strings_contain(&cx.functions, f),
        None => false,
    };
    if disabled_exec(lead, trail, call) || !is_t {
        return;
    }
    let args = items_exec(field_exec(call, &chars_of("arguments")));
    assert(trees(args@) =~= items_of(field(call@, "arguments"@)));
    let (key, warn) = first_arg_key_exec(args);
    let ghost st0 = state_view(*st);
    if warn {
        let p = match span_lo_exec(call) {
            Some(p) => p,
            None => 0,
        };
        st.warnings.push(p);
        assert(st.warnings@.map_values(|w: u64| w as int) =~= st0.warnings.push(warning_pos(call@)));
    }
    let ghost st1 = state_view(*st);
    let k = match key {
        Some(k) => k,
        None => {
            return;
        },
    };
    let (ns, base) = match &func {
        Some(f) => apply_scope_exec(&st.scopes, &k, f),
        None => {
            let (ns, b) = crate::keys::parse_key_with_namespace(crate::text::string_of(&k).as_str());
            (ns, chars_of(b.as_str()))
        },
    };
    let props = option_props_exec(args);
    let has_count = match props {
        Some(ps) => has_prop_exec(ps, &chars_of("count")),
        None => false,
    };
    let ctx = call_context_exec(args);
    let ordinal = match props {
        Some(ps) => match bool_prop(ps, &chars_of("ordinal")) {
            Some(b) => b,
            None => false,
        },
        None => false,
    };
    let dv: Option<String> = match props {
        Some(ps) => match string_prop(ps, &chars_of("defaultValue")) {
            Some(d) => Some(crate::text::string_of(&d)),
            None => None,
        },
        None => None,
    };
    let ret_obj = match props {
        Some(ps) => match bool_prop(ps, &chars_of("returnObjects")) {
            Some(b) => b,
            None => false,
        },
        None => false,
    };
    let ghost start = key_views(st.keys@);
    match &dv {
        Some(d) => {
            push_nested_keys(&mut st.keys, cx, &chars_of(d.as_str()));
        },
        None => {},
    }
    let ghost mid = key_views(st.keys@);
    let none: Option<String> = None;
    if ret_obj {
        push_key(&mut st.keys, &concat2(&base, &chars_of(".*")), &ns, &none);
    } else if has_count {
        push_plural_keys_with_context(&mut st.keys, &cx.plural, &base, &ns, &dv, &ctx, ordinal);
    } else {
        match &ctx {
            Some(ci) => {
                push_context_keys(&mut st.keys, &chars_of(cx.plural.context_separator.as_str()), &base, &ns, &dv, ci);
            },
            None => {
                push_key(&mut st.keys, &base, &ns, &dv);
            },
        }
    }
    proof {
        let ks = call_keys(*cx, st0.scopes, trees(args@), k@, funcv);
        assert(key_views(st.keys@) =~= st1.keys + ks);
        assert(state_view(*st) == add_keys(st1, ks));
    }
}

/// A JSX element (see [`jsx_step`]).
fn jsx_step_exec(
    cx: &ScanSettings,
    lead: &Vec<(u32, Vec<String>)>,
    trail: &Vec<(u32, Vec<String>)>,
    st: &mut VisitState,
    el: &JsonValue,
)
    requires
        cx.nesting_prefix@.len() + cx.nesting_suffix@.len() > 0,
    ensures
        state_view(*final(st)) == jsx_step(*cx, maps_of(lead@, trail@), state_view(*old(st)), el@),
{
    if disabled_exec(lead, trail, el) {
        return;
    }
    let op = match field_exec(el, &chars_of("opening")) {
        Some(op) => op,
        None => {
            return;
        },
    };
    let nm = match field_exec(op, &chars_of("name")) {
        Some(nm) => nm,
        None => {
            return;
        },
    };
    if !type_is(nm, &chars_of("Identifier")) {
        return;
    }
    let is_trans = match text_exec(field_exec(nm, &chars_of("value"))) {
        Some(t) => strings_contain(&cx.trans_components, &chars_of(t.as_str())),
        None => false,
    };
    if !is_trans {
        return;
    }
    let attrs = items_exec(field_exec(op, &chars_of("attributes")));
    let ghost av = trees(attrs@);
    assert(av =~= items_of(field(op@, "attributes"@)));
    let i18n = attr_string(attrs, &chars_of("i18nKey"));
    let nsa = attr_string(attrs, &chars_of("ns"));
    let defaults = attr_string(attrs, &chars_of("defaults"));
    let children = items_exec(field_exec(el, &chars_of("children")));
    assert(trees(children@) =~= items_of(field(el@, "children"@)));
    let ct = match children_text_exec(children) {
        Some(t) => Some(crate::text::string_of(&t)),
        None => None,
    };
    let has_count = has_attr_exec(attrs, &chars_of("count"));
    let ctx = attr_context(attrs);
    let (key, dv) = match i18n {
        Some(k) => (k, match defaults {
            Some(d) => Some(d),
            None => ct,
        }),
        None => match ct {
            Some(c) => (c.clone(), Some(c)),
            None => {
                return;
            },
        },
    };
    let ghost st0 = state_view(*st);
    match &dv {
        Some(d) => {
            push_nested_keys(&mut st.keys, cx, &chars_of(d.as_str()));
        },
        None => {},
    }
    let (nsk, base) = crate::keys::parse_key_with_namespace(key.as_str());
    let ns = match nsa {
        Some(n) => Some(n),
        None => nsk,
    };
    let base_c = chars_of(base.as_str());
    if has_count {
        push_plural_keys_with_context(&mut st.keys, &cx.plural, &base_c, &ns, &dv, &ctx, false);
    } else {
        match &ctx {
            Some(ci) => {
                push_context_keys(&mut st.keys, &chars_of(cx.plural.context_separator.as_str()), &base_c, &ns, &dv, ci);
            },
            None => {
                push_key(&mut st.keys, &base_c, &ns, &dv);
            },
        }
    }
    proof {
        let ks = trans_keys(*cx, el@, av);
        assert(key_views(st.keys@) =~= st0.keys + ks);
        assert(state_view(*st) == add_keys(st0, ks));
    }
}

/// A variable declarator (see [`declarator_step`]).
fn declarator_step_exec(cx: &ScanSettings, st: &mut VisitState, d: &JsonValue)
    ensures
        state_view(*final(st)) == declarator_step(*cx, state_view(*old(st)), d@),
{
    let init = match field_exec(d, &chars_of("init")) {
        Some(i) => i,
        None => {
            return;
        },
    };
    if !type_is(init, &chars_of("CallExpression")) {
        return;
    }
    let scope = match use_translation_scope_exec(&cx.use_translation_names, init) {
        Some(sc) => Some(sc),
        None => get_fixed_t_scope_exec(init),
    };
    let sc = match scope {
        Some(sc) => sc,
        None => {
            return;
        },
    };
    let p = match field_exec(d, &chars_of("id")) {
        Some(p) => p,
        None => {
            return;
        },
    };
    match bound_t_name_exec(p) {
        Some(n) => {
            let ghost st0 = state_view(*st);
            let ghost entry = (n@, scope_view(sc));
            st.scopes.push((n, sc));
            assert(scopes_view(st.scopes@) =~= st0.scopes.push(entry));
        },
        None => {},
    }
}

/// What one node contributes before its children are walked (see [`node_step`]).
fn node_step_exec(
    cx: &ScanSettings,
    lead: &Vec<(u32, Vec<String>)>,
    trail: &Vec<(u32, Vec<String>)>,
    st: &mut VisitState,
    t: &JsonValue,
)
    requires
        cx.nesting_prefix@.len() + cx.nesting_suffix@.len() > 0,
    ensures
        state_view(*final(st)) == node_step(*cx, maps_of(lead@, trail@), state_view(*old(st)), t@),
{
    if type_is(t, &chars_of("VariableDeclarator")) {
        declarator_step_exec(cx, st, t);
    } else if type_is(t, &chars_of("CallExpression")) {
        call_step_exec(cx, lead, trail, st, t);
    } else if type_is(t, &chars_of("JSXElement")) {
        jsx_step_exec(cx, lead, trail, st, t);
    }
}

/// Walks a tree (see [`walk`]).
pub fn walk_exec(
    cx: &ScanSettings,
    lead: &Vec<(u32, Vec<String>)>,
    trail: &Vec<(u32, Vec<String>)>,
    st: &mut VisitState,
    v: &JsonValue,
)
    requires
        cx.nesting_prefix@.len() + cx.nesting_suffix@.len() > 0,
    ensures
        state_view(*final(st)) == walk(*cx, maps_of(lead@, trail@), state_view(*old(st)), v@),
    decreases v@, 0nat,
{
    let ghost cm = maps_of(lead@, trail@);
    match v {
        JsonValue::Array(items) => {
            let ghost tv = trees_of(items@);
            proof {
                lemma_trees_of(items@);
            }
            let ghost st0 = state_view(*st);
            let mut i: usize = 0;
            while i < items.len()
                invariant
                    i <= items@.len(),
                    tv == trees_of(items@),
                    tv.len() == items@.len(),
                    forall|j: int| 0 <= j < items@.len() ==> #[trigger] tv[j] == items@[j]@,
                    v@ == JsonTree::Array(tv),
                    cm == maps_of(lead@, trail@),
                    cx.nesting_prefix@.len() + cx.nesting_suffix@.len() > 0,
                    state_view(*st) == walk_items(*cx, cm, st0, tv, i as int),
                decreases items.len() - i,
            {
                assert(tv[i as int] == items@[i as int]@);
                assert(decreases_to!(v@ => v@->Array_0));
                assert(decreases_to!(tv => tv[i as int]));
                walk_exec(cx, lead, trail, st, &items[i]);
                i = i + 1;
            }
        },
        JsonValue::Object(es) => {
            node_step_exec(cx, lead, trail, st, v);
            let ghost ev = entries_of(es@);
            proof {
                lemma_entries_of(es@);
            }
            let ghost st0 = state_view(*st);
            let mut i: usize = 0;
            while i < es.len()
                invariant
                    i <= es@.len(),
                    ev == entries_of(es@),
                    ev.len() == es@.len(),
                    forall|j: int| 0 <= j < es@.len() ==> #[trigger] ev[j] == (es@[j].0@, es@[j].1@),
                    v@ == JsonTree::Object(ev),
                    cm == maps_of(lead@, trail@),
                    cx.nesting_prefix@.len() + cx.nesting_suffix@.len() > 0,
                    state_view(*st) == walk_members(*cx, cm, st0, ev, i as int),
                decreases es.len() - i,
            {
                assert(ev[i as int] == (es@[i as int].0@, es@[i as int].1@));
                assert(decreases_to!(v@ => v@->Object_0));
                assert(decreases_to!(ev => ev[i as int]));
                assert(decreases_to!(ev[i as int] => ev[i as int].1));
                walk_exec(cx, lead, trail, st, &es[i].1);
                i = i + 1;
            }
        },
        _ => {},
    }
}

} // verus!
