//! What a translation call says: its callee, its key argument and its options object.
use crate::ast::{
    field, field_exec, has_type, ident_name, ident_name_exec, items_exec, items_of, lemma_field_decreases,
    string_lit, string_lit_exec, text_exec, text_of, tree_opt, trees, type_is,
};
use crate::json::{string_is, JsonTree, JsonValue};
use crate::text::{append_chars, chars_of, concat2, concat3, cviews, join, join_exec, seq_eq, slice_vec};
use vstd::prelude::*;

verus! {

/// The string value of an optional string literal node.
pub open spec fn opt_string_lit(o: Option<JsonTree>) -> Option<Seq<char>> {
    match o {
        Some(x) => string_lit(x),
        None => None,
    }
}

/// The key of a `key: value` property (an identifier or a string literal).
pub open spec fn prop_key(p: JsonTree) -> Option<Seq<char>> {
    if has_type(p, "KeyValueProperty"@) {
        match field(p, "key"@) {
            Some(k) => if has_type(k, "Identifier"@) {
                ident_name(k)
            } else {
                string_lit(k)
            },
            None => None,
        }
    } else {
        None
    }
}

/// The value of the first property `key` whose value is a string literal (for `count`, a
/// marker as soon as the property appears), from the `i`-th property on.
pub open spec fn string_prop_from(props: Seq<JsonTree>, key: Seq<char>, i: int) -> Option<Seq<char>>
    decreases props.len() - i,
{
    if i < 0 || i >= props.len() {
        None
    } else if prop_key(props[i]) == Some(key) {
        match opt_string_lit(field(props[i], "value"@)) {
            Some(s) => Some(s),
            None => if key == "count"@ {
                Some("__count__"@)
            } else {
                string_prop_from(props, key, i + 1)
            },
        }
    } else {
        string_prop_from(props, key, i + 1)
    }
}

/// The value of the first boolean-literal property `key` from the `i`-th property on; any
/// other value, and the shorthand `{ key }`, count as `true`.
pub open spec fn bool_prop_from(props: Seq<JsonTree>, key: Seq<char>, i: int) -> Option<bool>
    decreases props.len() - i,
{
    if i < 0 || i >= props.len() {
        None
    } else if has_type(props[i], "KeyValueProperty"@) {
        if prop_key(props[i]) == Some(key) {
            match field(props[i], "value"@) {
                Some(v) => if has_type(v, "BooleanLiteral"@) {
                    match field(v, "value"@) {
                        Some(JsonTree::Bool(b)) => Some(b),
                        _ => Some(true),
                    }
                } else {
                    Some(true)
                },
                None => Some(true),
            }
        } else {
            bool_prop_from(props, key, i + 1)
        }
    } else if ident_name(props[i]) == Some(key) {
        Some(true)
    } else {
        bool_prop_from(props, key, i + 1)
    }
}

/// Whether an object literal has the property `key` (as `key: value` or shorthand).
pub open spec fn has_prop(props: Seq<JsonTree>, key: Seq<char>) -> bool {
    exists|i: int| 0 <= i < props.len() && (prop_key(props[i]) == Some(key) || ident_name(props[i]) == Some(key))
}

/// The expression of a call argument.
pub open spec fn arg_expr(a: JsonTree) -> Option<JsonTree> {
    field(a, "expression"@)
}

/// The properties of the options object: the second argument, when it is an object literal.
pub open spec fn option_props(args: Seq<JsonTree>) -> Option<Seq<JsonTree>> {
    if args.len() < 2 {
        None
    } else {
        match arg_expr(args[1]) {
            Some(e) => if has_type(e, "ObjectExpression"@) {
                Some(items_of(field(e, "properties"@)))
            } else {
                None
            },
            None => None,
        }
    }
}

/// The first property `key` of an object literal.
pub fn string_prop(props: &[JsonValue], key: &[char]) -> (r: Option<Vec<char>>)
    ensures
        match r {
            Some(s) => string_prop_from(trees(props@), key@, 0) == Some(s@),
            None => string_prop_from(trees(props@), key@, 0) is None,
        },
{
    let ghost ps = trees(props@);
    let count = chars_of("count");
    let mut i: usize = 0;
    while i < props.len()
        invariant
            i <= props@.len(),
            ps == trees(props@),
            count@ == "count"@,
            string_prop_from(ps, key@, 0) == string_prop_from(ps, key@, i as int),
        decreases props.len() - i,
    {
        let p = &props[i];
        assert(ps[i as int] == p@);
        if key_is(p, key) {
            match value_string(p) {
                Some(s) => {
                    return Some(chars_of(s.as_str()));
                },
                None => {
                    if seq_eq(key, &count) {
                        return Some(chars_of("__count__"));
                    }
                },
            }
        }
        i = i + 1;
    }
    None
}

/// Whether a property is `key: value` with the given key.
fn key_is(p: &JsonValue, key: &[char]) -> (r: bool)
    ensures
        r == (prop_key(p@) == Some(key@)),
{
    if !type_is(p, &chars_of("KeyValueProperty")) {
        return false;
    }
    match field_exec(p, &chars_of("key")) {
        Some(k) => {
            let name = if type_is(k, &chars_of("Identifier")) {
                ident_name_exec(k)
            } else {
                string_lit_exec(k)
            };
            match name {
                Some(n) => string_is(n, key),
                None => false,
            }
        },
        None => false,
    }
}

/// The string-literal value of a property.
fn value_string(p: &JsonValue) -> (r: Option<&String>)
    ensures
        match r {
            Some(s) => opt_string_lit(field(p@, "value"@)) == Some(s@),
            None => opt_string_lit(field(p@, "value"@)) is None,
        },
{
    match field_exec(p, &chars_of("value")) {
        Some(v) => string_lit_exec(v),
        None => None,
    }
}

/// The first boolean property `key` of an object literal (see [`bool_prop_from`]).
pub fn bool_prop(props: &[JsonValue], key: &[char]) -> (r: Option<bool>)
    ensures
        r == bool_prop_from(trees(props@), key@, 0),
{
    let ghost ps = trees(props@);
    let mut i: usize = 0;
    while i < props.len()
        invariant
            i <= props@.len(),
            ps == trees(props@),
            bool_prop_from(ps, key@, 0) == bool_prop_from(ps, key@, i as int),
        decreases props.len() - i,
    {
        let p = &props[i];
        assert(ps[i as int] == p@);
        if type_is(p, &chars_of("KeyValueProperty")) {
            if key_is(p, key) {
                match field_exec(p, &chars_of("value")) {
                    Some(v) => {
                        if type_is(v, &chars_of("BooleanLiteral")) {
                            match field_exec(v, &chars_of("value")) {
                                Some(JsonValue::Bool(b)) => {
                                    return Some(*b);
                                },
                                _ => {
                                    return Some(true);
                                },
                            }
                        }
                        return Some(true);
                    },
                    None => {
                        return Some(true);
                    },
                }
            }
        } else {
            match ident_name_exec(p) {
                Some(n) => {
                    if string_is(n, key) {
                        return Some(true);
                    }
                },
                None => {},
            }
        }
        i = i + 1;
    }
    None
}

/// Whether an object literal has the property `key`.
pub fn has_prop_exec(props: &[JsonValue], key: &[char]) -> (r: bool)
    ensures
        r == has_prop(trees(props@), key@),
{
    let ghost ps = trees(props@);
    let mut i: usize = 0;
    while i < props.len()
        invariant
            i <= props@.len(),
            ps == trees(props@),
            forall|j: int| 0 <= j < i ==> !(prop_key(ps[j]) == Some(key@) || ident_name(ps[j]) == Some(key@)),
        decreases props.len() - i,
    {
        let p = &props[i];
        assert(ps[i as int] == p@);
        if key_is(p, key) {
            return true;
        }
        match ident_name_exec(p) {
            Some(n) => {
                if string_is(n, key) {
                    return true;
                }
            },
            None => {},
        }
        i = i + 1;
    }
    false
}

/// The expression of a call argument.
pub fn arg_expr_exec(a: &JsonValue) -> (r: Option<&JsonValue>)
    ensures
        tree_opt(r) == arg_expr(a@),
{
    field_exec(a, &chars_of("expression"))
}

/// The properties of the options object of a call.
pub fn option_props_exec(args: &[JsonValue]) -> (r: Option<&[JsonValue]>)
    ensures
        match r {
            Some(ps) => option_props(trees(args@)) == Some(trees(ps@)),
            None => option_props(trees(args@)) is None,
        },
{
    let ghost avs = trees(args@);
    if args.len() < 2 {
        return None;
    }
    assert(avs[1] == args@[1]@);
    match arg_expr_exec(&args[1]) {
        Some(e) => {
            if type_is(e, &chars_of("ObjectExpression")) {
                let ps = items_exec(field_exec(e, &chars_of("properties")));
                assert(trees(ps@) =~= items_of(field(e@, "properties"@)));
                Some(ps)
            } else {
                None
            }
        },
        None => None,
    }
}


/// The cooked text of the quasis of a template literal, concatenated.
pub open spec fn cooked_text(quasis: Seq<JsonTree>) -> Seq<char>
    decreases quasis.len(),
{
    if quasis.len() == 0 {
        Seq::empty()
    } else {
        cooked_text(quasis.drop_last()) + match text_of(field(quasis.last(), "cooked"@)) {
            Some(c) => c,
            None => Seq::empty(),
        }
    }
}

/// Every left string followed by every right string, left-major.
pub open spec fn cross(left: Seq<Seq<char>>, right: Seq<Seq<char>>) -> Seq<Seq<char>>
    decreases left.len(),
{
    if left.len() == 0 {
        Seq::empty()
    } else {
        cross(left.drop_last(), right) + right.map_values(|r: Seq<char>| left.last() + r)
    }
}

/// The strings an expression can evaluate to, as far as literals, template literals without
/// substitutions, parentheses, conditionals and `+` show them.
pub open spec fn possible_strings(e: JsonTree) -> Seq<Seq<char>>
    decreases e,
{
    proof {
        lemma_field_decreases(e, "expression"@);
        lemma_field_decreases(e, "consequent"@);
        lemma_field_decreases(e, "alternate"@);
        lemma_field_decreases(e, "left"@);
        lemma_field_decreases(e, "right"@);
    }
    if has_type(e, "StringLiteral"@) {
        match string_lit(e) {
            Some(s) => seq![s],
            None => Seq::empty(),
        }
    } else if has_type(e, "TemplateLiteral"@) {
        if items_of(field(e, "expressions"@)).len() == 0 {
            let t = cooked_text(items_of(field(e, "quasis"@)));
            if t.len() == 0 {
                Seq::empty()
            } else {
                seq![t]
            }
        } else {
            Seq::empty()
        }
    } else if has_type(e, "ParenthesisExpression"@) {
        match field(e, "expression"@) {
            Some(x) => possible_strings(x),
            None => Seq::empty(),
        }
    } else if has_type(e, "ConditionalExpression"@) {
        (match field(e, "consequent"@) {
            Some(x) => possible_strings(x),
            None => Seq::empty(),
        }) + (match field(e, "alternate"@) {
            Some(x) => possible_strings(x),
            None => Seq::empty(),
        })
    } else if has_type(e, "BinaryExpression"@) && text_of(field(e, "operator"@)) == Some("+"@) {
        match (field(e, "left"@), field(e, "right"@)) {
            (Some(l), Some(r)) => cross(possible_strings(l), possible_strings(r)),
            _ => Seq::empty(),
        }
    } else {
        Seq::empty()
    }
}

/// The non-empty strings of a list, in order.
pub open spec fn nonempty_only(s: Seq<Seq<char>>) -> Seq<Seq<char>>
    decreases s.len(),
{
    if s.len() == 0 {
        Seq::empty()
    } else if s.last().len() > 0 {
        nonempty_only(s.drop_last()).push(s.last())
    } else {
        nonempty_only(s.drop_last())
    }
}

/// The first occurrence of each string of a list, in order.
pub open spec fn dedup(s: Seq<Seq<char>>) -> Seq<Seq<char>>
    decreases s.len(),
{
    if s.len() == 0 {
        Seq::empty()
    } else if dedup(s.drop_last()).contains(s.last()) {
        dedup(s.drop_last())
    } else {
        dedup(s.drop_last()).push(s.last())
    }
}

/// The distinct non-empty values a context expression can take, in order.
pub open spec fn context_values(e: JsonTree) -> Seq<Seq<char>> {
    dedup(nonempty_only(possible_strings(e)))
}

/// Every left string followed by every right string, left-major.
fn cross_exec(left: &Vec<Vec<char>>, right: &Vec<Vec<char>>) -> (r: Vec<Vec<char>>)
    ensures
        cviews(r@) == cross(cviews(left@), cviews(right@)),
{
    let ghost rv = cviews(right@);
    let mut out: Vec<Vec<char>> = Vec::new();
    let mut i: usize = 0;
    while i < left.len()
        invariant
            i <= left@.len(),
            rv == cviews(right@),
            cviews(out@) == cross(cviews(left@).take(i as int), rv),
        decreases left.len() - i,
    {
        let ghost before = cviews(out@);
        let ghost l = left@[i as int]@;
        let ghost f = |r: Seq<char>| l + r;
        let mut j: usize = 0;
        while j < right.len()
            invariant
                j <= right@.len(),
                i < left@.len(),
                l == left@[i as int]@,
                rv == cviews(right@),
                f == (|r: Seq<char>| l + r),
                cviews(out@) == before + rv.take(j as int).map_values(f),
            decreases right.len() - j,
        {
            let x = concat2(&left[i], &right[j]);
            let ghost prev = cviews(out@);
            out.push(x);
            proof {
                assert(rv[j as int] == right@[j as int]@);
                assert(cviews(out@) =~= prev.push(x@));
                assert(rv.take(j as int + 1) =~= rv.take(j as int).push(rv[j as int]));
                assert(rv.take(j as int + 1).map_values(f) =~= rv.take(j as int).map_values(f).push(f(rv[j as int])));
                assert(cviews(out@) =~= before + rv.take(j as int + 1).map_values(f));
            }
            j = j + 1;
        }
        proof {
            assert(rv.take(rv.len() as int) =~= rv);
            let t = cviews(left@).take(i as int + 1);
            assert(t.drop_last() =~= cviews(left@).take(i as int));
            assert(t.last() == l);
        }
        i = i + 1;
    }
    assert(cviews(left@).take(left@.len() as int) =~= cviews(left@));
    out
}

/// The cooked text of the quasis of a template literal, concatenated.
fn cooked_text_exec(quasis: &[JsonValue]) -> (r: Vec<char>)
    ensures
        r@ == cooked_text(trees(quasis@)),
{
    let ghost qs = trees(quasis@);
    let mut out: Vec<char> = Vec::new();
    let mut i: usize = 0;
    while i < quasis.len()
        invariant
            i <= quasis@.len(),
            qs == trees(quasis@),
            out@ == cooked_text(qs.take(i as int)),
        decreases quasis.len() - i,
    {
        let q = &quasis[i];
        match text_exec(field_exec(q, &chars_of("cooked"))) {
            Some(c) => {
                let cc = chars_of(c.as_str());
                append_chars(&mut out, &cc);
            },
            None => {},
        }
        proof {
            let t = qs.take(i as int + 1);
            assert(t.drop_last() =~= qs.take(i as int));
            assert(t.last() == q@);
        }
        i = i + 1;
    }
    assert(qs.take(qs.len() as int) =~= qs);
    out
}

/// The strings an expression can evaluate to (see [`possible_strings`]).
pub fn possible_strings_exec(e: &JsonValue) -> (r: Vec<Vec<char>>)
    ensures
        cviews(r@) == possible_strings(e@),
    decreases e@,
{
    proof {
        lemma_field_decreases(e@, "expression"@);
        lemma_field_decreases(e@, "consequent"@);
        lemma_field_decreases(e@, "alternate"@);
        lemma_field_decreases(e@, "left"@);
        lemma_field_decreases(e@, "right"@);
    }
    let mut out: Vec<Vec<char>> = Vec::new();
    if type_is(e, &chars_of("StringLiteral")) {
        match string_lit_exec(e) {
            Some(s) => {
                out.push(chars_of(s.as_str()));
                assert(cviews(out@) =~= seq![s@]);
            },
            None => {},
        }
        return out;
    }
    if type_is(e, &chars_of("TemplateLiteral")) {
        let exprs = items_exec(field_exec(e, &chars_of("expressions")));
        if exprs.len() == 0 {
            let quasis = items_exec(field_exec(e, &chars_of("quasis")));
            assert(trees(quasis@) =~= items_of(field(e@, "quasis"@)));
            let t = cooked_text_exec(quasis);
            if t.len() > 0 {
                out.push(t);
                assert(cviews(out@) =~= seq![t@]);
            }
        }
        return out;
    }
    if type_is(e, &chars_of("ParenthesisExpression")) {
        return match field_exec(e, &chars_of("expression")) {
            Some(x) => possible_strings_exec(x),
            None => out,
        };
    }
    if type_is(e, &chars_of("ConditionalExpression")) {
        let mut a = match field_exec(e, &chars_of("consequent")) {
            Some(x) => possible_strings_exec(x),
            None => Vec::new(),
        };
        let mut b = match field_exec(e, &chars_of("alternate")) {
            Some(x) => possible_strings_exec(x),
            None => Vec::new(),
        };
        let ghost av = cviews(a@);
        let ghost bv = cviews(b@);
        a.append(&mut b);
        assert(cviews(a@) =~= av + bv);
        return a;
    }
    if type_is(e, &chars_of("BinaryExpression")) {
        let plus = match text_exec(field_exec(e, &chars_of("operator"))) {
            Some(op) => string_is(op, &chars_of("+")),
            None => false,
        };
        if plus {
            return match (field_exec(e, &chars_of("left")), field_exec(e, &chars_of("right"))) {
                (Some(l), Some(r)) => {
                    let lv = possible_strings_exec(l);
                    let rv = possible_strings_exec(r);
                    cross_exec(&lv, &rv)
                },
                _ => out,
            };
        }
    }
    assert(cviews(out@) =~= Seq::<Seq<char>>::empty());
    out
}

/// Whether a list of character vectors holds `c`.
fn contains_chars(v: &Vec<Vec<char>>, c: &[char]) -> (r: bool)
    ensures
        r == cviews(v@).contains(c@),
{
    let mut i: usize = 0;
    while i < v.len()
        invariant
            i <= v@.len(),
            forall|j: int| 0 <= j < i ==> v@[j]@ != c@,
        decreases v.len() - i,
    {
        if seq_eq(&v[i], c) {
            assert(cviews(v@)[i as int] == c@);
            return true;
        }
        i = i + 1;
    }
    proof {
        if cviews(v@).contains(c@) {
            let j = choose|j: int| 0 <= j < cviews(v@).len() && cviews(v@)[j] == c@;
            assert(v@[j]@ == c@);
        }
    }
    false
}

/// The distinct non-empty values a context expression can take (see [`context_values`]).
pub fn context_values_exec(e: &JsonValue) -> (r: Vec<Vec<char>>)
    ensures
        cviews(r@) == context_values(e@),
{
    let all = possible_strings_exec(e);
    let ghost av = cviews(all@);
    let mut kept: Vec<Vec<char>> = Vec::new();
    let mut i: usize = 0;
    while i < all.len()
        invariant
            i <= all@.len(),
            av == cviews(all@),
            cviews(kept@) == dedup(nonempty_only(av.take(i as int))),
        decreases all.len() - i,
    {
        let ghost t = av.take(i as int + 1);
        assert(t.drop_last() =~= av.take(i as int));
        assert(t.last() == all@[i as int]@);
        let ghost ne = nonempty_only(av.take(i as int));
        proof {
            if all@[i as int]@.len() > 0 {
                assert(nonempty_only(t) == ne.push(all@[i as int]@));
                assert(ne.push(all@[i as int]@).drop_last() =~= ne);
            } else {
                assert(nonempty_only(t) == ne);
            }
        }
        if all[i].len() > 0 {
            if !contains_chars(&kept, &all[i]) {
                let x = slice_vec(&all[i], 0, all[i].len());
                assert(all@[i as int]@.subrange(0, all@[i as int]@.len() as int) =~= all@[i as int]@);
                kept.push(x);
                assert(cviews(kept@) =~= dedup(nonempty_only(av.take(i as int))).push(all@[i as int]@));
            }
        }
        i = i + 1;
    }
    assert(av.take(av.len() as int) =~= av);
    kept
}


/// The first `context` property of an options object, from the `i`-th property on: a
/// non-empty literal alone, or the values of a computed context (`None` for an empty
/// literal).
pub open spec fn context_from(props: Seq<JsonTree>, i: int) -> Option<(Seq<Seq<char>>, bool)>
    decreases props.len() - i,
{
    if i < 0 || i >= props.len() {
        None
    } else if prop_key(props[i]) == Some("context"@) {
        match field(props[i], "value"@) {
            Some(v) => match string_lit(v) {
                Some(s) => if s.len() == 0 {
                    None
                } else {
                    Some((seq![s], false))
                },
                None => Some((context_values(v), true)),
            },
            None => context_from(props, i + 1),
        }
    } else {
        context_from(props, i + 1)
    }
}

/// The context option of a call.
pub open spec fn call_context(args: Seq<JsonTree>) -> Option<(Seq<Seq<char>>, bool)> {
    match option_props(args) {
        Some(ps) => context_from(ps, 0),
        None => None,
    }
}

/// The context option of a call (see [`call_context`]).
pub fn call_context_exec(args: &[JsonValue]) -> (r: Option<crate::keys::ContextInfo>)
    ensures
        crate::keys::opt_ctx_view(r) == call_context(trees(args@)),
{
    let props = match option_props_exec(args) {
        Some(ps) => ps,
        None => {
            return None;
        },
    };
    let ghost ps = trees(props@);
    let context = chars_of("context");
    let mut i: usize = 0;
    while i < props.len()
        invariant
            i <= props@.len(),
            ps == trees(props@),
            context@ == "context"@,
            call_context(trees(args@)) == context_from(ps, 0),
            context_from(ps, 0) == context_from(ps, i as int),
        decreases props.len() - i,
    {
        let p = &props[i];
        assert(ps[i as int] == p@);
        if key_is(p, &context) {
            match field_exec(p, &chars_of("value")) {
                Some(v) => {
                    match string_lit_exec(v) {
                        Some(s) => {
                            assert(field(ps[i as int], "value"@) == Some(v@));
                            assert(string_lit(v@) == Some(s@));
                            assert(context_from(ps, i as int) == (if s@.len() == 0 {
                                None
                            } else {
                                Some((seq![s@], false))
                            }));
                            if s.as_str().is_empty() {
                                return None;
                            }
                            let values = vec![s.clone()];
                            assert(crate::text::views(values@) =~= seq![s@]);
                            return Some(crate::keys::ContextInfo { values, is_dynamic: false });
                        },
                        None => {
                            let vals = context_values_exec(v);
                            return Some(crate::keys::ContextInfo { values: crate::text::strings_of(&vals), is_dynamic: true });
                        },
                    }
                },
                None => {},
            }
        }
        i = i + 1;
    }
    None
}

/// The key of a template literal without substitutions: its single quasi, cooked when the
/// cooked form exists.
pub open spec fn template_key(t: JsonTree) -> Option<Seq<char>> {
    let quasis = items_of(field(t, "quasis"@));
    if quasis.len() == 1 {
        match text_of(field(quasis[0], "cooked"@)) {
            Some(c) => Some(c),
            None => text_of(field(quasis[0], "raw"@)),
        }
    } else {
        None
    }
}

/// The path a selector expression walks from `root`: `$.a.b["c"]` gives `a`, `b`, `c`.
pub open spec fn selector_parts(e: JsonTree, root: Seq<char>) -> Option<Seq<Seq<char>>>
    decreases e,
{
    proof {
        lemma_field_decreases(e, "object"@);
    }
    if has_type(e, "Identifier"@) {
        if text_of(field(e, "value"@)) == Some(root) {
            Some(Seq::empty())
        } else {
            None
        }
    } else if has_type(e, "MemberExpression"@) {
        match field(e, "object"@) {
            Some(o) => match selector_parts(o, root) {
                Some(parts) => match field(e, "property"@) {
                    Some(p) => if has_type(p, "Identifier"@) {
                        match text_of(field(p, "value"@)) {
                            Some(n) => Some(parts.push(n)),
                            None => None,
                        }
                    } else if has_type(p, "Computed"@) {
                        match opt_string_lit(field(p, "expression"@)) {
                            Some(s) => Some(parts.push(s)),
                            None => None,
                        }
                    } else {
                        None
                    },
                    None => None,
                },
                None => None,
            },
            None => None,
        }
    } else {
        None
    }
}

/// The key of the selector form `t($ => $.a.b)`: the path, joined with dots.
pub open spec fn selector_key(arrow: JsonTree) -> Option<Seq<char>> {
    let params = items_of(field(arrow, "params"@));
    if params.len() != 1 {
        None
    } else {
        match ident_name(params[0]) {
            Some(root) => match field(arrow, "body"@) {
                Some(b) => if has_type(b, "BlockStatement"@) {
                    None
                } else {
                    match selector_parts(b, root) {
                        Some(parts) => if parts.len() == 0 {
                            None
                        } else {
                            Some(join(parts, "."@))
                        },
                        None => None,
                    }
                },
                None => None,
            },
            None => None,
        }
    }
}

/// The key given by the first argument of a call, and whether that argument is a template
/// literal with substitutions (which cannot be extracted and deserves a warning).
pub open spec fn first_arg_key(args: Seq<JsonTree>) -> (Option<Seq<char>>, bool) {
    if args.len() == 0 {
        (None, false)
    } else {
        match arg_expr(args[0]) {
            Some(e) => if has_type(e, "StringLiteral"@) {
                (string_lit(e), false)
            } else if has_type(e, "TemplateLiteral"@) {
                if items_of(field(e, "expressions"@)).len() > 0 {
                    (None, true)
                } else {
                    (template_key(e), false)
                }
            } else if has_type(e, "ArrowFunctionExpression"@) {
                (selector_key(e), false)
            } else {
                (None, false)
            },
            None => (None, false),
        }
    }
}

/// The name of a callee: `f` or `obj.f`.
pub open spec fn callee_name(c: JsonTree) -> Option<Seq<char>> {
    if has_type(c, "Identifier"@) {
        text_of(field(c, "value"@))
    } else if has_type(c, "MemberExpression"@) {
        match (field(c, "object"@), field(c, "property"@)) {
            (Some(o), Some(p)) => if has_type(p, "Identifier"@) && has_type(o, "Identifier"@) {
                match (text_of(field(o, "value"@)), text_of(field(p, "value"@))) {
                    (Some(a), Some(b)) => Some(a + "."@ + b),
                    _ => None,
                }
            } else {
                None
            },
            _ => None,
        }
    } else {
        None
    }
}

/// The key of a template literal without substitutions.
fn template_key_exec(t: &JsonValue) -> (r: Option<Vec<char>>)
    ensures
        match r {
            Some(k) => template_key(t@) == Some(k@),
            None => template_key(t@) is None,
        },
{
    let quasis = items_exec(field_exec(t, &chars_of("quasis")));
    if quasis.len() == 1 {
        let q = &quasis[0];
        match text_exec(field_exec(q, &chars_of("cooked"))) {
            Some(c) => Some(chars_of(c.as_str())),
            None => match text_exec(field_exec(q, &chars_of("raw"))) {
                Some(raw) => Some(chars_of(raw.as_str())),
                None => None,
            },
        }
    } else {
        None
    }
}

/// The path a selector expression walks from `root`.
fn selector_parts_exec(e: &JsonValue, root: &[char]) -> (r: Option<Vec<Vec<char>>>)
    ensures
        match r {
            Some(ps) => selector_parts(e@, root@) == Some(cviews(ps@)),
            None => selector_parts(e@, root@) is None,
        },
    decreases e@,
{
    proof {
        lemma_field_decreases(e@, "object"@);
    }
    if type_is(e, &chars_of("Identifier")) {
        return match text_exec(field_exec(e, &chars_of("value"))) {
            Some(n) => if string_is(n, root) {
                let v: Vec<Vec<char>> = Vec::new();
                assert(cviews(v@) =~= Seq::<Seq<char>>::empty());
                Some(v)
            } else {
                None
            },
            None => None,
        };
    }
    if !type_is(e, &chars_of("MemberExpression")) {
        return None;
    }
    let o = match field_exec(e, &chars_of("object")) {
        Some(o) => o,
        None => {
            return None;
        },
    };
    let mut parts = match selector_parts_exec(o, root) {
        Some(ps) => ps,
        None => {
            return None;
        },
    };
    let p = match field_exec(e, &chars_of("property")) {
        Some(p) => p,
        None => {
            return None;
        },
    };
    let ghost before = cviews(parts@);
    if type_is(p, &chars_of("Identifier")) {
        match text_exec(field_exec(p, &chars_of("value"))) {
            Some(n) => {
                let nc = chars_of(n.as_str());
                parts.push(nc);
                assert(cviews(parts@) =~= before.push(n@));
                Some(parts)
            },
            None => None,
        }
    } else if type_is(p, &chars_of("Computed")) {
        match field_exec(p, &chars_of("expression")) {
            Some(x) => match string_lit_exec(x) {
                Some(sv) => {
                    let sc = chars_of(sv.as_str());
                    parts.push(sc);
                    assert(cviews(parts@) =~= before.push(sv@));
                    Some(parts)
                },
                None => None,
            },
            None => None,
        }
    } else {
        None
    }
}

/// The key of the selector form `t($ => $.a.b)`.
fn selector_key_exec(arrow: &JsonValue) -> (r: Option<Vec<char>>)
    ensures
        match r {
            Some(k) => selector_key(arrow@) == Some(k@),
            None => selector_key(arrow@) is None,
        },
{
    let params = items_exec(field_exec(arrow, &chars_of("params")));
    if params.len() != 1 {
        return None;
    }
    let root = match ident_name_exec(&params[0]) {
        Some(n) => chars_of(n.as_str()),
        None => {
            return None;
        },
    };
    let body = match field_exec(arrow, &chars_of("body")) {
        Some(b) => b,
        None => {
            return None;
        },
    };
    if type_is(body, &chars_of("BlockStatement")) {
        return None;
    }
    match selector_parts_exec(body, &root) {
        Some(parts) => if parts.len() == 0 {
            None
        } else {
            Some(join_exec(&parts, &chars_of(".")))
        },
        None => None,
    }
}

/// The key given by the first argument of a call, and whether a warning is due (see
/// [`first_arg_key`]).
pub fn first_arg_key_exec(args: &[JsonValue]) -> (r: (Option<Vec<char>>, bool))
    ensures
        (match r.0 {
            Some(k) => Some(k@),
            None => None,
        }, r.1) == first_arg_key(trees(args@)),
{
    if args.len() == 0 {
        return (None, false);
    }
    assert(trees(args@)[0] == args@[0]@);
    let e = match arg_expr_exec(&args[0]) {
        Some(e) => e,
        None => {
            return (None, false);
        },
    };
    if type_is(e, &chars_of("StringLiteral")) {
        match string_lit_exec(e) {
            Some(s) => (Some(chars_of(s.as_str())), false),
            None => (None, false),
        }
    } else if type_is(e, &chars_of("TemplateLiteral")) {
        let exprs = items_exec(field_exec(e, &chars_of("expressions")));
        if exprs.len() > 0 {
            (None, true)
        } else {
            (template_key_exec(e), false)
        }
    } else if type_is(e, &chars_of("ArrowFunctionExpression")) {
        (selector_key_exec(e), false)
    } else {
        (None, false)
    }
}

/// The name of a callee: `f` or `obj.f`.
pub fn callee_name_exec(c: &JsonValue) -> (r: Option<Vec<char>>)
    ensures
        match r {
            Some(n) => callee_name(c@) == Some(n@),
            None => callee_name(c@) is None,
        },
{
    if type_is(c, &chars_of("Identifier")) {
        return match text_exec(field_exec(c, &chars_of("value"))) {
            Some(n) => Some(chars_of(n.as_str())),
            None => None,
        };
    }
    if !type_is(c, &chars_of("MemberExpression")) {
        return None;
    }
    match (field_exec(c, &chars_of("object")), field_exec(c, &chars_of("property"))) {
        (Some(o), Some(p)) => {
            if type_is(p, &chars_of("Identifier")) && type_is(o, &chars_of("Identifier")) {
                match (text_exec(field_exec(o, &chars_of("value"))), text_exec(field_exec(p, &chars_of("value")))) {
                    (Some(a), Some(b)) => Some(concat3(&chars_of(a.as_str()), &chars_of("."), &chars_of(b.as_str()))),
                    _ => None,
                }
            } else {
                None
            }
        },
        _ => None,
    }
}

} // verus!
