//! Translation functions bound by `useTranslation`-like hooks and `getFixedT`, with the
//! namespace and key prefix they carry.
use crate::ast::{field, field_exec, has_type, ident_name, ident_name_exec, items_exec, items_of, text_exec, text_of, trees, type_is};
use crate::calls::{arg_expr, arg_expr_exec, string_prop, string_prop_from};
use crate::config::{hook_key_prefix_arg, hook_name, hook_ns_arg, UseTranslationName};
use crate::json::{string_is, JsonTree, JsonValue};
use crate::keys::{opt_view, split_namespace};
use crate::text::{chars_of, string_of};
use vstd::prelude::*;

verus! {

/// The namespace and key prefix bound to a translation function.
#[derive(Debug, Clone, Default)]
pub struct ScopeInfo {
    /// Namespace from `useTranslation('namespace')`.
    pub namespace: Option<String>,
    /// Key prefix from `useTranslation(ns, { keyPrefix: 'prefix' })`.
    pub key_prefix: Option<String>,
}

/// The namespace and key prefix of a scope.
pub open spec fn scope_view(s: ScopeInfo) -> (Option<Seq<char>>, Option<Seq<char>>) {
    (opt_view(s.namespace), opt_view(s.key_prefix))
}

/// The namespace an argument names: a string literal, or the `ns` property of an object.
pub open spec fn arg_ns(e: Option<JsonTree>) -> Option<Seq<char>> {
    match e {
        Some(x) => if has_type(x, "StringLiteral"@) {
            crate::ast::string_lit(x)
        } else if has_type(x, "ObjectExpression"@) {
            string_prop_from(items_of(field(x, "properties"@)), "ns"@, 0)
        } else {
            None
        },
        None => None,
    }
}

/// The key prefix an argument names: the `keyPrefix` property of an object, or a string
/// literal.
pub open spec fn arg_key_prefix(e: Option<JsonTree>) -> Option<Seq<char>> {
    match e {
        Some(x) => if has_type(x, "ObjectExpression"@) {
            string_prop_from(items_of(field(x, "properties"@)), "keyPrefix"@, 0)
        } else if has_type(x, "StringLiteral"@) {
            crate::ast::string_lit(x)
        } else {
            None
        },
        None => None,
    }
}

/// `a` when it is set, `b` otherwise.
pub open spec fn or_else(a: Option<Seq<char>>, b: Option<Seq<char>>) -> Option<Seq<char>> {
    match a {
        Some(x) => Some(x),
        None => b,
    }
}

/// The index of the first hook named `name`.
pub open spec fn hook_index(hooks: Seq<UseTranslationName>, name: Seq<char>, i: int) -> Option<int>
    decreases hooks.len() - i,
{
    if i < 0 || i >= hooks.len() {
        None
    } else if hook_name(hooks[i]) == name {
        Some(i)
    } else {
        hook_index(hooks, name, i + 1)
    }
}

/// The scope a hook call binds: the namespace from its namespace argument, the key prefix
/// from its key-prefix argument, and, for a single object argument, `ns` and `keyPrefix`
/// read from it.
pub open spec fn hook_scope(h: UseTranslationName, args: Seq<JsonTree>) -> (Option<Seq<char>>, Option<Seq<char>>) {
    let nsi = hook_ns_arg(h) as int;
    let kpi = hook_key_prefix_arg(h) as int;
    let ns = if nsi < args.len() {
        arg_ns(arg_expr(args[nsi]))
    } else {
        None
    };
    let kp = if kpi < args.len() {
        arg_key_prefix(arg_expr(args[kpi]))
    } else {
        None
    };
    if args.len() == 1 && (match arg_expr(args[0]) {
        Some(x) => has_type(x, "ObjectExpression"@),
        None => false,
    }) {
        let props = items_of(field(arg_expr(args[0])->Some_0, "properties"@));
        (or_else(string_prop_from(props, "ns"@, 0), ns), or_else(string_prop_from(props, "keyPrefix"@, 0), kp))
    } else {
        (ns, kp)
    }
}

/// The scope bound by a call of a configured hook (`None` when the callee is no such hook).
pub open spec fn use_translation_scope(hooks: Seq<UseTranslationName>, call: JsonTree) -> Option<(Option<Seq<char>>, Option<Seq<char>>)> {
    match field(call, "callee"@) {
        Some(c) => if has_type(c, "Identifier"@) {
            match text_of(field(c, "value"@)) {
                Some(n) => match hook_index(hooks, n, 0) {
                    Some(h) => Some(hook_scope(hooks[h], items_of(field(call, "arguments"@)))),
                    None => None,
                },
                None => None,
            }
        } else {
            None
        },
        None => None,
    }
}

/// Whether a callee is `getFixedT` or `something.getFixedT`.
pub open spec fn is_get_fixed_t(c: JsonTree) -> bool {
    if has_type(c, "Identifier"@) {
        text_of(field(c, "value"@)) == Some("getFixedT"@)
    } else if has_type(c, "MemberExpression"@) {
        match field(c, "property"@) {
            Some(p) => has_type(p, "Identifier"@) && text_of(field(p, "value"@)) == Some("getFixedT"@),
            None => false,
        }
    } else {
        false
    }
}

/// The scope bound by `getFixedT(locale, ns, keyPrefix)` or `getFixedT(locale, { ns, keyPrefix })`.
pub open spec fn get_fixed_t_scope(call: JsonTree) -> Option<(Option<Seq<char>>, Option<Seq<char>>)> {
    match field(call, "callee"@) {
        Some(c) => if is_get_fixed_t(c) {
            let args = items_of(field(call, "arguments"@));
            let ns = if args.len() > 1 {
                arg_ns(arg_expr(args[1]))
            } else {
                None
            };
            let kp1 = if args.len() > 1 && (match arg_expr(args[1]) {
                Some(x) => has_type(x, "ObjectExpression"@),
                None => false,
            }) {
                string_prop_from(items_of(field(arg_expr(args[1])->Some_0, "properties"@)), "keyPrefix"@, 0)
            } else {
                None
            };
            let kp = if args.len() > 2 && (match arg_expr(args[2]) {
                Some(x) => has_type(x, "StringLiteral"@),
                None => false,
            }) {
                crate::ast::string_lit(arg_expr(args[2])->Some_0)
            } else {
                kp1
            };
            Some((ns, kp))
        } else {
            None
        },
        None => None,
    }
}

/// The name a declaration binds the translation function to: `t`, `{ t }`, `{ t: name }` or
/// `[t]`.
pub open spec fn bound_t_name(p: JsonTree) -> Option<Seq<char>> {
    if has_type(p, "Identifier"@) {
        text_of(field(p, "value"@))
    } else if has_type(p, "ObjectPattern"@) {
        object_pattern_t(items_of(field(p, "properties"@)), 0)
    } else if has_type(p, "ArrayPattern"@) {
        let els = items_of(field(p, "elements"@));
        if els.len() > 0 && has_type(els[0], "Identifier"@) {
            text_of(field(els[0], "value"@))
        } else {
            None
        }
    } else {
        None
    }
}

/// Whether a property key is the identifier `t`.
pub open spec fn key_is_t(k: Option<JsonTree>) -> bool {
    match k {
        Some(x) => ident_name(x) == Some("t"@),
        None => false,
    }
}

/// The binding of `t` in an object pattern, from the `i`-th property on.
pub open spec fn object_pattern_t(props: Seq<JsonTree>, i: int) -> Option<Seq<char>>
    decreases props.len() - i,
{
    if i < 0 || i >= props.len() {
        None
    } else if has_type(props[i], "AssignmentPatternProperty"@) && key_is_t(field(props[i], "key"@)) {
        Some("t"@)
    } else if has_type(props[i], "KeyValuePatternProperty"@) && key_is_t(field(props[i], "key"@)) && (match field(props[i], "value"@) {
        Some(v) => has_type(v, "Identifier"@),
        None => false,
    }) {
        text_of(field(field(props[i], "value"@)->Some_0, "value"@))
    } else {
        object_pattern_t(props, i + 1)
    }
}

/// The last scope bound to `name`.
pub open spec fn scope_lookup(scopes: Seq<(Seq<char>, (Option<Seq<char>>, Option<Seq<char>>))>, name: Seq<char>) -> Option<(Option<Seq<char>>, Option<Seq<char>>)>
    decreases scopes.len(),
{
    if scopes.len() == 0 {
        None
    } else if scopes.last().0 == name {
        Some(scopes.last().1)
    } else {
        scope_lookup(scopes.drop_last(), name)
    }
}

/// A key as a scoped function sees it: under the function's namespace, after its key
/// prefix; an unscoped function reads the namespace from `ns:key`.
pub open spec fn apply_scope(
    scopes: Seq<(Seq<char>, (Option<Seq<char>>, Option<Seq<char>>))>,
    key: Seq<char>,
    func: Seq<char>,
) -> (Option<Seq<char>>, Seq<char>) {
    match scope_lookup(scopes, func) {
        Some((ns, kp)) => (ns, match kp {
            Some(p) => p + "."@ + key,
            None => key,
        }),
        None => split_namespace(key),
    }
}

/// The views of the scopes bound so far.
pub open spec fn scopes_view(s: Seq<(String, ScopeInfo)>) -> Seq<(Seq<char>, (Option<Seq<char>>, Option<Seq<char>>))> {
    s.map_values(|e: (String, ScopeInfo)| (e.0@, scope_view(e.1)))
}

/// The namespace an argument names.
fn arg_ns_exec(e: Option<&JsonValue>) -> (r: Option<String>)
    ensures
        opt_view(r) == arg_ns(crate::ast::tree_opt(e)),
{
    match e {
        Some(x) => {
            if type_is(x, &chars_of("StringLiteral")) {
                match crate::ast::string_lit_exec(x) {
                    Some(s) => Some(s.clone()),
                    None => None,
                }
            } else if type_is(x, &chars_of("ObjectExpression")) {
                let props = items_exec(field_exec(x, &chars_of("properties")));
                assert(trees(props@) =~= items_of(field(x@, "properties"@)));
                match string_prop(props, &chars_of("ns")) {
                    Some(v) => Some(string_of(&v)),
                    None => None,
                }
            } else {
                None
            }
        },
        None => None,
    }
}

/// The key prefix an argument names.
fn arg_key_prefix_exec(e: Option<&JsonValue>) -> (r: Option<String>)
    ensures
        opt_view(r) == arg_key_prefix(crate::ast::tree_opt(e)),
{
    match e {
        Some(x) => {
            if type_is(x, &chars_of("ObjectExpression")) {
                let props = items_exec(field_exec(x, &chars_of("properties")));
                assert(trees(props@) =~= items_of(field(x@, "properties"@)));
                match string_prop(props, &chars_of("keyPrefix")) {
                    Some(v) => Some(string_of(&v)),
                    None => None,
                }
            } else if type_is(x, &chars_of("StringLiteral")) {
                match crate::ast::string_lit_exec(x) {
                    Some(s) => Some(s.clone()),
                    None => None,
                }
            } else {
                None
            }
        },
        None => None,
    }
}

/// `a` when it is set, `b` otherwise.
fn or_else_exec(a: Option<Vec<char>>, b: Option<String>) -> (r: Option<String>)
    ensures
        opt_view(r) == or_else(match a {
            Some(x) => Some(x@),
            None => None,
        }, opt_view(b)),
{
    match a {
        Some(x) => Some(string_of(&x)),
        None => b,
    }
}

/// The index of the first hook named `name`.
fn find_hook(hooks: &Vec<UseTranslationName>, name: &String) -> (r: Option<usize>)
    ensures
        match r {
            Some(h) => hook_index(hooks@, name@, 0) == Some(h as int) && h < hooks@.len(),
            None => hook_index(hooks@, name@, 0) is None,
        },
{
    let mut h: usize = 0;
    while h < hooks.len()
        invariant
            h <= hooks@.len(),
            hook_index(hooks@, name@, 0) == hook_index(hooks@, name@, h as int),
        decreases hooks.len() - h,
    {
        let hn = chars_of(hooks[h].name());
        if string_is(name, &hn) {
            return Some(h);
        }
        h = h + 1;
    }
    None
}

/// The scope bound by a call of a configured hook (see [`use_translation_scope`]).
pub fn use_translation_scope_exec(hooks: &Vec<UseTranslationName>, call: &JsonValue) -> (r: Option<ScopeInfo>)
    ensures
        match r {
            Some(s) => use_translation_scope(hooks@, call@) == Some(scope_view(s)),
            None => use_translation_scope(hooks@, call@) is None,
        },
{
    let c = match field_exec(call, &chars_of("callee")) {
        Some(c) => c,
        None => {
            return None;
        },
    };
    if !type_is(c, &chars_of("Identifier")) {
        return None;
    }
    let name = match text_exec(field_exec(c, &chars_of("value"))) {
        Some(n) => n,
        None => {
            return None;
        },
    };
    let h = match find_hook(hooks, name) {
        Some(h) => h,
        None => {
            return None;
        },
    };
    let hook = &hooks[h];
    let args = items_exec(field_exec(call, &chars_of("arguments")));
    let ghost av = trees(args@);
    assert(av =~= items_of(field(call@, "arguments"@)));
    let nsi = hook.ns_arg();
    let kpi = hook.key_prefix_arg();
    let ns = if nsi < args.len() {
        assert(av[nsi as int] == args@[nsi as int]@);
        arg_ns_exec(arg_expr_exec(&args[nsi]))
    } else {
        None
    };
    let kp = if kpi < args.len() {
        assert(av[kpi as int] == args@[kpi as int]@);
        arg_key_prefix_exec(arg_expr_exec(&args[kpi]))
    } else {
        None
    };
    if args.len() == 1 {
        assert(av[0] == args@[0]@);
        match arg_expr_exec(&args[0]) {
            Some(x) => {
                if type_is(x, &chars_of("ObjectExpression")) {
                    let props = items_exec(field_exec(x, &chars_of("properties")));
                    assert(trees(props@) =~= items_of(field(x@, "properties"@)));
                    let ns2 = or_else_exec(string_prop(props, &chars_of("ns")), ns);
                    let kp2 = or_else_exec(string_prop(props, &chars_of("keyPrefix")), kp);
                    return Some(ScopeInfo { namespace: ns2, key_prefix: kp2 });
                }
            },
            None => {},
        }
    }
    Some(ScopeInfo { namespace: ns, key_prefix: kp })
}

/// The scope bound by a `getFixedT` call (see [`get_fixed_t_scope`]).
pub fn get_fixed_t_scope_exec(call: &JsonValue) -> (r: Option<ScopeInfo>)
    ensures
        match r {
            Some(s) => get_fixed_t_scope(call@) == Some(scope_view(s)),
            None => get_fixed_t_scope(call@) is None,
        },
{
    let c = match field_exec(call, &chars_of("callee")) {
        Some(c) => c,
        None => {
            return None;
        },
    };
    let fixed = chars_of("getFixedT");
    let is_fixed = if type_is(c, &chars_of("Identifier")) {
        match text_exec(field_exec(c, &chars_of("value"))) {
            Some(n) => string_is(n, &fixed),
            None => false,
        }
    } else if type_is(c, &chars_of("MemberExpression")) {
        match field_exec(c, &chars_of("property")) {
            Some(p) => type_is(p, &chars_of("Identifier")) && match text_exec(field_exec(p, &chars_of("value"))) {
                Some(n) => string_is(n, &fixed),
                None => false,
            },
            None => false,
        }
    } else {
        false
    };
    if !is_fixed {
        return None;
    }
    let args = items_exec(field_exec(call, &chars_of("arguments")));
    let ghost av = trees(args@);
    assert(av =~= items_of(field(call@, "arguments"@)));
    let mut ns: Option<String> = None;
    let mut kp: Option<String> = None;
    if args.len() > 1 {
        assert(av[1] == args@[1]@);
        let e1 = arg_expr_exec(&args[1]);
        ns = arg_ns_exec(e1);
        match e1 {
            Some(x) => {
                if type_is(x, &chars_of("ObjectExpression")) {
                    let props = items_exec(field_exec(x, &chars_of("properties")));
                    assert(trees(props@) =~= items_of(field(x@, "properties"@)));
                    kp = match string_prop(props, &chars_of("keyPrefix")) {
                        Some(v) => Some(string_of(&v)),
                        None => None,
                    };
                }
            },
            None => {},
        }
    }
    if args.len() > 2 {
        assert(av[2] == args@[2]@);
        match arg_expr_exec(&args[2]) {
            Some(x) => {
                if type_is(x, &chars_of("StringLiteral")) {
                    kp = match crate::ast::string_lit_exec(x) {
                        Some(s) => Some(s.clone()),
                        None => None,
                    };
                }
            },
            None => {},
        }
    }
    Some(ScopeInfo { namespace: ns, key_prefix: kp })
}

/// The name a declaration binds the translation function to (see [`bound_t_name`]).
pub fn bound_t_name_exec(p: &JsonValue) -> (r: Option<String>)
    ensures
        opt_view(r) == bound_t_name(p@),
{
    if type_is(p, &chars_of("Identifier")) {
        return match text_exec(field_exec(p, &chars_of("value"))) {
            Some(n) => Some(n.clone()),
            None => None,
        };
    }
    if type_is(p, &chars_of("ObjectPattern")) {
        let props = items_exec(field_exec(p, &chars_of("properties")));
        let ghost pv = trees(props@);
        assert(pv =~= items_of(field(p@, "properties"@)));
        let t = chars_of("t");
        let mut i: usize = 0;
        while i < props.len()
            invariant
                i <= props@.len(),
                pv == trees(props@),
                t@ == "t"@,
                bound_t_name(p@) == object_pattern_t(pv, 0),
                object_pattern_t(pv, 0) == object_pattern_t(pv, i as int),
            decreases props.len() - i,
        {
            let q = &props[i];
            assert(pv[i as int] == q@);
            let key_t = match field_exec(q, &chars_of("key")) {
                Some(k) => match ident_name_exec(k) {
                    Some(n) => string_is(n, &t),
                    None => false,
                },
                None => false,
            };
            if type_is(q, &chars_of("AssignmentPatternProperty")) && key_t {
                return Some(string_of(&t));
            }
            if type_is(q, &chars_of("KeyValuePatternProperty")) && key_t {
                match field_exec(q, &chars_of("value")) {
                    Some(v) => {
                        if type_is(v, &chars_of("Identifier")) {
                            return match text_exec(field_exec(v, &chars_of("value"))) {
                                Some(n) => Some(n.clone()),
                                None => None,
                            };
                        }
                    },
                    None => {},
                }
            }
            i = i + 1;
        }
        return None;
    }
    if type_is(p, &chars_of("ArrayPattern")) {
        let els = items_exec(field_exec(p, &chars_of("elements")));
        if els.len() > 0 {
            assert(items_of(field(p@, "elements"@))[0] == els@[0]@);
            if type_is(&els[0], &chars_of("Identifier")) {
                return match text_exec(field_exec(&els[0], &chars_of("value"))) {
                    Some(n) => Some(n.clone()),
                    None => None,
                };
            }
        }
        return None;
    }
    None
}

/// The last scope bound to `name`.
pub fn scope_lookup_exec<'a>(scopes: &'a Vec<(String, ScopeInfo)>, name: &[char]) -> (r: Option<&'a ScopeInfo>)
    ensures
        match r {
            Some(s) => scope_lookup(scopes_view(scopes@), name@) == Some(scope_view(*s)),
            None => scope_lookup(scopes_view(scopes@), name@) is None,
        },
{
    let ghost sv = scopes_view(scopes@);
    let mut i: usize = scopes.len();
    assert(sv.take(sv.len() as int) =~= sv);
    while i > 0
        invariant
            i <= scopes@.len(),
            sv == scopes_view(scopes@),
            scope_lookup(sv, name@) == scope_lookup(sv.take(i as int), name@),
        decreases i,
    {
        let ghost t = sv.take(i as int);
        assert(t.drop_last() =~= sv.take(i as int - 1));
        assert(t.last() == (scopes@[i as int - 1].0@, scope_view(scopes@[i as int - 1].1)));
        if string_is(&scopes[i - 1].0, name) {
            return Some(&scopes[i - 1].1);
        }
        i = i - 1;
    }
    None
}

/// A key as the function `func` sees it (see [`apply_scope`]).
pub fn apply_scope_exec(scopes: &Vec<(String, ScopeInfo)>, key: &[char], func: &[char]) -> (r: (Option<String>, Vec<char>))
    ensures
        (opt_view(r.0), r.1@) == apply_scope(scopes_view(scopes@), key@, func@),
{
    match scope_lookup_exec(scopes, func) {
        Some(scope) => {
            let k = match &scope.key_prefix {
                Some(p) => crate::text::concat3(&chars_of(p.as_str()), &chars_of("."), key),
                None => crate::text::slice_vec(key, 0, key.len()),
            };
            assert(key@.subrange(0, key@.len() as int) =~= key@);
            (crate::keys::clone_opt(&scope.namespace), k)
        },
        None => {
            let (ns, k) = crate::keys::parse_key_with_namespace(string_of(key).as_str());
            (ns, chars_of(k.as_str()))
        },
    }
}

} // verus!
