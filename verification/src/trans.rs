//! The `<Trans>` component: its attributes and the text of its children.
use crate::ast::{field, field_exec, has_type, lemma_field_decreases, string_lit, string_lit_exec, text_exec, text_of, trees, type_is};
use crate::calls::{context_values, context_values_exec, opt_string_lit};
use crate::json::{string_is, JsonTree, JsonValue};
use crate::keys::ContextInfo;
use crate::text::{append_chars, chars_of, concat3, cviews, join, join_exec, string_of, trim, trim_exec};
use vstd::prelude::*;

verus! {

/// Whether a JSX attribute has the given name.
pub open spec fn attr_named(a: JsonTree, name: Seq<char>) -> bool {
    has_type(a, "JSXAttribute"@) && match field(a, "name"@) {
        Some(n) => has_type(n, "Identifier"@) && text_of(field(n, "value"@)) == Some(name),
        None => false,
    }
}

/// The value of a JSX attribute, when it has one.
pub open spec fn attr_value(a: JsonTree) -> Option<JsonTree> {
    match field(a, "value"@) {
        Some(JsonTree::Null) => None,
        o => o,
    }
}

/// The string an attribute value gives: `"text"` or `{"text"}`.
pub open spec fn attr_value_string(v: JsonTree) -> Option<Seq<char>> {
    if has_type(v, "StringLiteral"@) {
        string_lit(v)
    } else if has_type(v, "JSXExpressionContainer"@) {
        opt_string_lit(field(v, "expression"@))
    } else {
        None
    }
}

/// The string of the first attribute `name` that has a value, from the `i`-th attribute on.
pub open spec fn attr_string_from(attrs: Seq<JsonTree>, name: Seq<char>, i: int) -> Option<Seq<char>>
    decreases attrs.len() - i,
{
    if i < 0 || i >= attrs.len() {
        None
    } else if attr_named(attrs[i], name) && attr_value(attrs[i]) is Some {
        attr_value_string(attr_value(attrs[i])->Some_0)
    } else {
        attr_string_from(attrs, name, i + 1)
    }
}

/// Whether some attribute has the given name.
pub open spec fn has_attr(attrs: Seq<JsonTree>, name: Seq<char>) -> bool {
    exists|i: int| 0 <= i < attrs.len() && attr_named(attrs[i], name)
}

/// The `context` attribute, from the `i`-th attribute on: a non-empty literal alone, or the
/// values of an expression (`None` for an empty literal).
pub open spec fn attr_context_from(attrs: Seq<JsonTree>, i: int) -> Option<(Seq<Seq<char>>, bool)>
    decreases attrs.len() - i,
{
    if i < 0 || i >= attrs.len() {
        None
    } else if attr_named(attrs[i], "context"@) && attr_value(attrs[i]) is Some {
        let v = attr_value(attrs[i])->Some_0;
        match attr_value_string(v) {
            Some(lit) => if lit.len() == 0 {
                None
            } else {
                Some((seq![lit], false))
            },
            None => if has_type(v, "JSXExpressionContainer"@) && (match field(v, "expression"@) {
                Some(x) => !has_type(x, "JSXEmptyExpression"@),
                None => false,
            }) {
                Some((context_values(field(v, "expression"@)->Some_0), true))
            } else {
                attr_context_from(attrs, i + 1)
            },
        }
    } else {
        attr_context_from(attrs, i + 1)
    }
}

/// The text of one child of a `<Trans>`: trimmed text, `{{name}}` for `{name}`, and nested
/// elements as `<tag>inner</tag>` (or `<tag/>` when self-closing and empty).
pub open spec fn child_text(c: JsonTree) -> Option<Seq<char>>
    decreases c, 0nat,
{
    if has_type(c, "JSXText"@) {
        match text_of(field(c, "value"@)) {
            Some(v) => if trim(v).len() > 0 {
                Some(trim(v))
            } else {
                None
            },
            None => None,
        }
    } else if has_type(c, "JSXExpressionContainer"@) {
        match field(c, "expression"@) {
            Some(x) => if has_type(x, "Identifier"@) {
                match text_of(field(x, "value"@)) {
                    Some(n) => Some("{{"@ + n + "}}"@),
                    None => None,
                }
            } else {
                None
            },
            None => None,
        }
    } else if has_type(c, "JSXElement"@) {
        match field(c, "opening"@) {
            Some(o) => match field(o, "name"@) {
                Some(nm) => if has_type(nm, "Identifier"@) {
                    match text_of(field(nm, "value"@)) {
                        Some(tag) => {
                            proof {
                                lemma_field_decreases(c, "children"@);
                            }
                            let inner = match field(c, "children"@) {
                                Some(JsonTree::Array(items)) => children_text(items),
                                _ => None,
                            };
                            match inner {
                                Some(inner) => Some("<"@ + tag + ">"@ + inner + "</"@ + tag + ">"@),
                                None => if field(c, "closing"@) == Some(JsonTree::Null) {
                                    Some("<"@ + tag + "/>"@)
                                } else {
                                    None
                                },
                            }
                        },
                        None => None,
                    }
                } else {
                    None
                },
                None => None,
            },
            None => None,
        }
    } else {
        None
    }
}

/// The texts of the first `n` children, those that give one.
pub open spec fn child_texts(cs: Seq<JsonTree>, n: int) -> Seq<Seq<char>>
    decreases cs, n + 1,
{
    if n <= 0 || n > cs.len() {
        Seq::empty()
    } else {
        let rest = child_texts(cs, n - 1);
        match child_text(cs[n - 1]) {
            Some(t) => rest.push(t),
            None => rest,
        }
    }
}

/// The text of a list of children, joined with spaces (`None` when no child gives text).
pub open spec fn children_text(cs: Seq<JsonTree>) -> Option<Seq<char>>
    decreases cs, cs.len() + 2,
{
    let parts = child_texts(cs, cs.len() as int);
    if parts.len() == 0 {
        None
    } else {
        Some(join(parts, " "@))
    }
}

/// The string of the first attribute `name` with a value (see [`attr_string_from`]).
pub fn attr_string(attrs: &[JsonValue], name: &[char]) -> (r: Option<String>)
    ensures
        crate::keys::opt_view(r) == attr_string_from(trees(attrs@), name@, 0),
{
    let ghost av = trees(attrs@);
    let mut i: usize = 0;
    while i < attrs.len()
        invariant
            i <= attrs@.len(),
            av == trees(attrs@),
            attr_string_from(av, name@, 0) == attr_string_from(av, name@, i as int),
        decreases attrs.len() - i,
    {
        let a = &attrs[i];
        assert(av[i as int] == a@);
        if attr_named_exec(a, name) {
            match attr_value_exec(a) {
                Some(v) => {
                    return attr_value_string_exec(v);
                },
                None => {},
            }
        }
        i = i + 1;
    }
    None
}

/// Whether a JSX attribute has the given name.
fn attr_named_exec(a: &JsonValue, name: &[char]) -> (r: bool)
    ensures
        r == attr_named(a@, name@),
{
    if !type_is(a, &chars_of("JSXAttribute")) {
        return false;
    }
    match field_exec(a, &chars_of("name")) {
        Some(n) => type_is(n, &chars_of("Identifier")) && match text_exec(field_exec(n, &chars_of("value"))) {
            Some(s) => string_is(s, name),
            None => false,
        },
        None => false,
    }
}

/// The value of a JSX attribute, when it has one.
fn attr_value_exec(a: &JsonValue) -> (r: Option<&JsonValue>)
    ensures
        crate::ast::tree_opt(r) == attr_value(a@),
{
    match field_exec(a, &chars_of("value")) {
        Some(JsonValue::Null) => None,
        o => o,
    }
}

/// The string an attribute value gives.
fn attr_value_string_exec(v: &JsonValue) -> (r: Option<String>)
    ensures
        crate::keys::opt_view(r) == attr_value_string(v@),
{
    if type_is(v, &chars_of("StringLiteral")) {
        match string_lit_exec(v) {
            Some(s) => Some(s.clone()),
            None => None,
        }
    } else if type_is(v, &chars_of("JSXExpressionContainer")) {
        match field_exec(v, &chars_of("expression")) {
            Some(x) => match string_lit_exec(x) {
                Some(s) => Some(s.clone()),
                None => None,
            },
            None => None,
        }
    } else {
        None
    }
}

/// Whether some attribute has the given name.
pub fn has_attr_exec(attrs: &[JsonValue], name: &[char]) -> (r: bool)
    ensures
        r == has_attr(trees(attrs@), name@),
{
    let ghost av = trees(attrs@);
    let mut i: usize = 0;
    while i < attrs.len()
        invariant
            i <= attrs@.len(),
            av == trees(attrs@),
            forall|j: int| 0 <= j < i ==> !attr_named(av[j], name@),
        decreases attrs.len() - i,
    {
        assert(av[i as int] == attrs@[i as int]@);
        if attr_named_exec(&attrs[i], name) {
            return true;
        }
        i = i + 1;
    }
    false
}

/// The `context` attribute (see [`attr_context_from`]).
pub fn attr_context(attrs: &[JsonValue]) -> (r: Option<ContextInfo>)
    ensures
        crate::keys::opt_ctx_view(r) == attr_context_from(trees(attrs@), 0),
{
    let ghost av = trees(attrs@);
    let context = chars_of("context");
    let mut i: usize = 0;
    while i < attrs.len()
        invariant
            i <= attrs@.len(),
            av == trees(attrs@),
            context@ == "context"@,
            attr_context_from(av, 0) == attr_context_from(av, i as int),
        decreases attrs.len() - i,
    {
        let a = &attrs[i];
        assert(av[i as int] == a@);
        if attr_named_exec(a, &context) {
            match attr_value_exec(a) {
                Some(v) => {
                    match attr_value_string_exec(v) {
                        Some(lit) => {
                            if lit.as_str().is_empty() {
                                return None;
                            }
                            let values = vec![lit];
                            assert(crate::text::views(values@) =~= seq![values@[0]@]);
                            return Some(ContextInfo { values, is_dynamic: false });
                        },
                        None => {
                            if type_is(v, &chars_of("JSXExpressionContainer")) {
                                match field_exec(v, &chars_of("expression")) {
                                    Some(x) => {
                                        if !type_is(x, &chars_of("JSXEmptyExpression")) {
                                            let vals = context_values_exec(x);
                                            let mut values: Vec<String> = Vec::new();
                                            let mut k: usize = 0;
                                            while k < vals.len()
                                                invariant
                                                    k <= vals@.len(),
                                                    crate::text::views(values@) == cviews(vals@).take(k as int),
                                                decreases vals.len() - k,
                                            {
                                                let s = string_of(&vals[k]);
                                                let ghost prev = crate::text::views(values@);
                                                values.push(s);
                                                assert(crate::text::views(values@) =~= prev.push(s@));
                                                assert(cviews(vals@).take(k as int + 1) =~= cviews(vals@).take(k as int).push(vals@[k as int]@));
                                                k = k + 1;
                                            }
                                            assert(cviews(vals@).take(vals@.len() as int) =~= cviews(vals@));
                                            return Some(ContextInfo { values, is_dynamic: true });
                                        }
                                    },
                                    None => {},
                                }
                            }
                        },
                    }
                },
                None => {},
            }
        }
        i = i + 1;
    }
    None
}

/// The text of one child of a `<Trans>` (see [`child_text`]).
fn child_text_exec(c: &JsonValue) -> (r: Option<Vec<char>>)
    ensures
        match r {
            Some(t) => child_text(c@) == Some(t@),
            None => child_text(c@) is None,
        },
    decreases c@, 0nat,
{
    if type_is(c, &chars_of("JSXText")) {
        return match text_exec(field_exec(c, &chars_of("value"))) {
            Some(v) => {
                let t = trim_exec(&chars_of(v.as_str()));
                if t.len() > 0 {
                    Some(t)
                } else {
                    None
                }
            },
            None => None,
        };
    }
    if type_is(c, &chars_of("JSXExpressionContainer")) {
        return match field_exec(c, &chars_of("expression")) {
            Some(x) => if type_is(x, &chars_of("Identifier")) {
                match text_exec(field_exec(x, &chars_of("value"))) {
                    Some(n) => Some(concat3(&chars_of("{{"), &chars_of(n.as_str()), &chars_of("}}"))),
                    None => None,
                }
            } else {
                None
            },
            None => None,
        };
    }
    if !type_is(c, &chars_of("JSXElement")) {
        return None;
    }
    let o = match field_exec(c, &chars_of("opening")) {
        Some(o) => o,
        None => {
            return None;
        },
    };
    let nm = match field_exec(o, &chars_of("name")) {
        Some(nm) => nm,
        None => {
            return None;
        },
    };
    if !type_is(nm, &chars_of("Identifier")) {
        return None;
    }
    let tag = match text_exec(field_exec(nm, &chars_of("value"))) {
        Some(t) => chars_of(t.as_str()),
        None => {
            return None;
        },
    };
    proof {
        lemma_field_decreases(c@, "children"@);
    }
    let inner = match field_exec(c, &chars_of("children")) {
        Some(JsonValue::Array(items)) => {
            proof {
                crate::json::lemma_trees_of(items@);
                assert(trees(items@) =~= crate::json::trees_of(items@));
                assert(decreases_to!(JsonTree::Array(crate::json::trees_of(items@)) => crate::json::trees_of(items@)));
            }
            children_text_exec(items.as_slice())
        },
        _ => None,
    };
    match inner {
        Some(inner) => {
            let mut out = concat3(&chars_of("<"), &tag, &chars_of(">"));
            append_chars(&mut out, &inner);
            append_chars(&mut out, &concat3(&chars_of("</"), &tag, &chars_of(">")));
            Some(out)
        },
        None => {
            match field_exec(c, &chars_of("closing")) {
                Some(JsonValue::Null) => Some(concat3(&chars_of("<"), &tag, &chars_of("/>"))),
                _ => None,
            }
        },
    }
}

/// The text of a list of children (see [`children_text`]).
pub fn children_text_exec(cs: &[JsonValue]) -> (r: Option<Vec<char>>)
    ensures
        match r {
            Some(t) => children_text(trees(cs@)) == Some(t@),
            None => children_text(trees(cs@)) is None,
        },
    decreases trees(cs@), cs@.len() + 2,
{
    let ghost cv = trees(cs@);
    let mut parts: Vec<Vec<char>> = Vec::new();
    let mut i: usize = 0;
    while i < cs.len()
        invariant
            i <= cs@.len(),
            cv == trees(cs@),
            cviews(parts@) == child_texts(cv, i as int),
        decreases cs.len() - i,
    {
        assert(cv[i as int] == cs@[i as int]@);
        assert(decreases_to!(cv => cv[i as int]));
        let ghost prev = cviews(parts@);
        match child_text_exec(&cs[i]) {
            Some(t) => {
                parts.push(t);
                assert(cviews(parts@) =~= prev.push(t@));
            },
            None => {},
        }
        i = i + 1;
    }
    if parts.len() == 0 {
        None
    } else {
        Some(join_exec(&parts, &chars_of(" ")))
    }
}

} // verus!
