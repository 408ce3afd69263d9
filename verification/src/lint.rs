//! Linting JSX for text that should be translated.
use crate::ast::{field, field_exec, has_type, items_exec, items_of, parse_script, span_lo_exec, swc_parse, text_exec, text_of, type_is};
use crate::config::{lowercase, to_lowercase};
use crate::extractor::{is_tsx_path, is_tsx_path_exec, locate, locate_exec, utf8_width};
use crate::json::{entries_of, lemma_entries_of, lemma_trees_of, trees_of, JsonTree, JsonValue};
use crate::text::{chars_of, concat3, seq_eq, string_of, trim, trim_exec};
use vstd::prelude::*;

verus! {

/// Whether `char::is_alphabetic` holds of a character (Unicode Alphabetic).
pub uninterp spec fn unicode_alphabetic(c: char) -> bool;

/// `char::is_alphabetic`; the result is named, not described.
#[verifier::external_body]
fn is_alphabetic(c: char) -> (r: bool)
    ensures
        r == unicode_alphabetic(c),
{
    c.is_alphabetic()
}

/// A lint issue found in source code.
#[derive(Debug)]
pub struct LintIssue {
    pub file_path: String,
    pub line: usize,
    pub column: usize,
    pub message: String,
    pub text: String,
}

/// What linting many files found.
#[derive(Debug, Default)]
pub struct LintResult {
    pub issues: Vec<LintIssue>,
    pub files_checked: usize,
}

/// The length in bytes of a text in UTF-8.
pub open spec fn utf8_len(s: Seq<char>) -> int
    decreases s.len(),
{
    if s.len() == 0 {
        0
    } else {
        utf8_len(s.drop_last()) + utf8_width(s.last())
    }
}

/// Texts that are never flagged.
pub open spec fn skip_text(t: Seq<char>) -> bool {
    t == "className"@ || t == "onClick"@ || t == "onChange"@ || t == "onSubmit"@ || t == "px"@ || t == "em"@ || t
        == "rem"@ || t == "%"@ || t == "vh"@ || t == "vw"@
}

/// Whether a text looks like it should be translated: once trimmed, it has a letter, is at
/// least two bytes long, does not start like code (`{`, `$`), and is not a known
/// non-translatable word.
pub open spec fn should_be_translated(text: Seq<char>) -> bool {
    let t = trim(text);
    &&& t.len() > 0
    &&& exists|i: int| 0 <= i < t.len() && unicode_alphabetic(#[trigger] t[i])
    &&& utf8_len(t) >= 2
    &&& t[0] != '{' && t[0] != '$'
    &&& !skip_text(t)
}

/// Whether a text looks like it should be translated (see [`should_be_translated`]).
pub fn should_be_translated_exec(text: &str) -> (r: bool)
    ensures
        r == should_be_translated(text@),
{
    let t = trim_exec(&chars_of(text));
    if t.len() == 0 {
        return false;
    }
    let mut letter = false;
    let mut bytes: usize = 0;
    let mut i: usize = 0;
    while i < t.len()
        invariant
            i <= t@.len(),
            letter == exists|j: int| 0 <= j < i && unicode_alphabetic(#[trigger] t@[j]),
            bytes == if utf8_len(t@.take(i as int)) >= 2 { 2 } else { utf8_len(t@.take(i as int)) },
        decreases t.len() - i,
    {
        let c = t[i];
        if is_alphabetic(c) {
            letter = true;
        }
        let w: usize = if (c as u32) < 0x80 {
            1
        } else if (c as u32) < 0x800 {
            2
        } else if (c as u32) < 0x10000 {
            3
        } else {
            4
        };
        proof {
            let s = t@.take(i as int + 1);
            assert(s.drop_last() =~= t@.take(i as int));
            assert(w == utf8_width(c));
        }
        bytes = if bytes + w >= 2 { 2 } else { bytes + w };
        i = i + 1;
    }
    assert(t@.take(t@.len() as int) =~= t@);
    if !letter || bytes < 2 || t[0] == '{' || t[0] == '$' {
        return false;
    }
    let skipped = seq_eq(&t, &chars_of("className")) || seq_eq(&t, &chars_of("onClick")) || seq_eq(&t, &chars_of("onChange"))
        || seq_eq(&t, &chars_of("onSubmit")) || seq_eq(&t, &chars_of("px")) || seq_eq(&t, &chars_of("em")) || seq_eq(
        &t,
        &chars_of("rem"),
    ) || seq_eq(&t, &chars_of("%")) || seq_eq(&t, &chars_of("vh")) || seq_eq(&t, &chars_of("vw"));
    !skipped
}

/// A finding: where (the node's start offset), the message, and the text.
pub struct Finding {
    pub offset: int,
    pub message: Seq<char>,
    pub text: Seq<char>,
}

/// Tags whose content is not linted.
pub open spec fn ignored_tag(name: Seq<char>) -> bool {
    name == "script"@ || name == "style"@ || name == "code"@ || name == "pre"@
}

/// Attributes whose string values are linted.
pub open spec fn checked_attribute(name: Seq<char>) -> bool {
    name == "alt"@ || name == "title"@ || name == "placeholder"@ || name == "aria-label"@ || name == "aria-description"@
}

/// The name of a JSX element when it is a plain identifier.
pub open spec fn element_name(el: JsonTree) -> Option<Seq<char>> {
    match field(el, "opening"@) {
        Some(op) => match field(op, "name"@) {
            Some(nm) => if has_type(nm, "Identifier"@) {
                text_of(field(nm, "value"@))
            } else {
                None
            },
            None => None,
        },
        None => None,
    }
}

/// The start offset of a node (0 when it has none or it does not fit in a `u64`).
pub open spec fn start_of(t: JsonTree) -> int {
    crate::visit::warning_pos(t)
}

/// The finding of one attribute: a checked attribute whose value is a string literal that
/// should be translated.
pub open spec fn attr_finding(a: JsonTree) -> Option<Finding> {
    if has_type(a, "JSXAttribute"@) {
        match field(a, "name"@) {
            Some(n) => if has_type(n, "Identifier"@) {
                match text_of(field(n, "value"@)) {
                    Some(name) => if checked_attribute(name) {
                        match field(a, "value"@) {
                            Some(v) => if has_type(v, "StringLiteral"@) {
                                match text_of(field(v, "value"@)) {
                                    Some(text) => if should_be_translated(text) {
                                        Some(
                                            Finding {
                                                offset: start_of(v),
                                                message: "Hardcoded string in '"@ + name + "' attribute should be translated"@,
                                                text,
                                            },
                                        )
                                    } else {
                                        None
                                    },
                                    None => None,
                                }
                            } else {
                                None
                            },
                            None => None,
                        }
                    } else {
                        None
                    },
                    None => None,
                }
            } else {
                None
            },
            None => None,
        }
    } else {
        None
    }
}

/// A JSX attribute whose value is a string literal that should be translated gives a
/// finding exactly when its name is `alt`, `title`, `placeholder`, `aria-label` or
/// `aria-description`; the finding holds the literal's text, starts where the literal
/// starts, and names the attribute in its message.
pub proof fn lemma_attribute_finding(a: JsonTree, n: JsonTree, name: Seq<char>, v: JsonTree, text: Seq<char>)
    requires
        has_type(a, "JSXAttribute"@),
        field(a, "name"@) == Some(n),
        has_type(n, "Identifier"@),
        text_of(field(n, "value"@)) == Some(name),
        field(a, "value"@) == Some(v),
        has_type(v, "StringLiteral"@),
        text_of(field(v, "value"@)) == Some(text),
        should_be_translated(text),
    ensures
        attr_finding(a) is Some <==> (name == "alt"@ || name == "title"@ || name == "placeholder"@ || name == "aria-label"@
            || name == "aria-description"@),
        attr_finding(a) matches Some(f) ==> f.text == text && f.offset == start_of(v) && f.message == "Hardcoded string in '"@
            + name + "' attribute should be translated"@,
{
}

/// The findings of the first `n` attributes, in order.
pub open spec fn attr_findings(attrs: Seq<JsonTree>, n: int) -> Seq<Finding>
    decreases n,
{
    if n <= 0 || n > attrs.len() {
        Seq::empty()
    } else {
        match attr_finding(attrs[n - 1]) {
            Some(f) => attr_findings(attrs, n - 1).push(f),
            None => attr_findings(attrs, n - 1),
        }
    }
}

/// The findings of the first `n` children that are JSX text, in order (the text trimmed).
pub open spec fn text_findings(children: Seq<JsonTree>, n: int) -> Seq<Finding>
    decreases n,
{
    if n <= 0 || n > children.len() {
        Seq::empty()
    } else {
        let c = children[n - 1];
        let before = text_findings(children, n - 1);
        if has_type(c, "JSXText"@) {
            match text_of(field(c, "value"@)) {
                Some(v) => if should_be_translated(v) {
                    before.push(Finding { offset: start_of(c), message: "Hardcoded text in JSX should be translated"@, text: trim(v) })
                } else {
                    before
                },
                None => before,
            }
        } else {
            before
        }
    }
}

/// The findings of a tree: a JSX element's own (its attributes, then its text children,
/// unless inside `<Trans>`), then those below it; an ignored tag (`script`, `style`,
/// `code`, `pre`, any case) is skipped whole.
pub open spec fn lint_tree(t: JsonTree, in_trans: bool) -> Seq<Finding>
    decreases t, 0nat,
{
    match t {
        JsonTree::Array(items) => lint_items(items, in_trans, items.len() as int),
        JsonTree::Object(es) => if has_type(t, "JSXElement"@) {
            match element_name(t) {
                Some(n) if ignored_tag(lowercase(n)) => Seq::empty(),
                name => {
                    let inside = in_trans || name == Some("Trans"@);
                    let own = if inside {
                        Seq::empty()
                    } else {
                        let attrs = items_of(match field(t, "opening"@) {
                            Some(op) => field(op, "attributes"@),
                            None => None,
                        });
                        let children = items_of(field(t, "children"@));
                        attr_findings(attrs, attrs.len() as int) + text_findings(children, children.len() as int)
                    };
                    own + lint_members(es, inside, es.len() as int)
                },
            }
        } else {
            lint_members(es, in_trans, es.len() as int)
        },
        _ => Seq::empty(),
    }
}

/// The findings of the first `n` items.
pub open spec fn lint_items(items: Seq<JsonTree>, in_trans: bool, n: int) -> Seq<Finding>
    decreases items, n + 1,
{
    if n <= 0 || n > items.len() {
        Seq::empty()
    } else {
        lint_items(items, in_trans, n - 1) + lint_tree(items[n - 1], in_trans)
    }
}

/// The findings of the values of the first `n` members.
pub open spec fn lint_members(es: Seq<(Seq<char>, JsonTree)>, in_trans: bool, n: int) -> Seq<Finding>
    decreases es, n + 1,
{
    if n <= 0 || n > es.len() {
        Seq::empty()
    } else {
        proof {
            assert(decreases_to!(es => es[n - 1]));
            assert(decreases_to!(es[n - 1] => es[n - 1].1));
        }
        lint_members(es, in_trans, n - 1) + lint_tree(es[n - 1].1, in_trans)
    }
}

/// A finding as found: offset, message, text.
pub struct RawFinding {
    pub offset: u64,
    pub message: String,
    pub text: String,
}

/// The content of a list of findings.
pub open spec fn raw_views(s: Seq<RawFinding>) -> Seq<Finding> {
    s.map_values(|f: RawFinding| Finding { offset: f.offset as int, message: f.message@, text: f.text@ })
}
/// The start offset of a node (see [`start_of`]).
fn start_exec(v: &JsonValue) -> (r: u64)
    ensures
        r as int == start_of(v@),
{
    match span_lo_exec(v) {
        Some(p) => p,
        None => 0,
    }
}

/// Whether a name is one of the checked attributes.
fn checked_attribute_exec(n: &[char]) -> (r: bool)
    ensures
        r == checked_attribute(n@),
{
    seq_eq(n, &chars_of("alt")) || seq_eq(n, &chars_of("title")) || seq_eq(n, &chars_of("placeholder")) || seq_eq(
        n,
        &chars_of("aria-label"),
    ) || seq_eq(n, &chars_of("aria-description"))
}

/// The finding of one attribute (see [`attr_finding`]).
fn attr_finding_exec(a: &JsonValue) -> (r: Option<RawFinding>)
    ensures
        match r {
            Some(f) => attr_finding(a@) == Some(Finding { offset: f.offset as int, message: f.message@, text: f.text@ }),
            None => attr_finding(a@) is None,
        },
{
    if !type_is(a, &chars_of("JSXAttribute")) {
        return None;
    }
    let n = match field_exec(a, &chars_of("name")) {
        Some(n) => n,
        None => {
            return None;
        },
    };
    if !type_is(n, &chars_of("Identifier")) {
        return None;
    }
    let name = match text_exec(field_exec(n, &chars_of("value"))) {
        Some(s) => s,
        None => {
            return None;
        },
    };
    if !checked_attribute_exec(&chars_of(name.as_str())) {
        return None;
    }
    let v = match field_exec(a, &chars_of("value")) {
        Some(v) => v,
        None => {
            return None;
        },
    };
    if !type_is(v, &chars_of("StringLiteral")) {
        return None;
    }
    let text = match text_exec(field_exec(v, &chars_of("value"))) {
        Some(t) => t,
        None => {
            return None;
        },
    };
    if !should_be_translated_exec(text.as_str()) {
        return None;
    }
    let message = concat3(&chars_of("Hardcoded string in '"), &chars_of(name.as_str()), &chars_of("' attribute should be translated"));
    Some(RawFinding { offset: start_exec(v), message: string_of(&message), text: text.clone() })
}

/// The name of a JSX element when it is a plain identifier.
fn element_name_exec(el: &JsonValue) -> (r: Option<&String>)
    ensures
        match r {
            Some(s) => element_name(el@) == Some(s@),
            None => element_name(el@) is None,
        },
{
    match field_exec(el, &chars_of("opening")) {
        Some(op) => match field_exec(op, &chars_of("name")) {
            Some(nm) => if type_is(nm, &chars_of("Identifier")) {
                text_exec(field_exec(nm, &chars_of("value")))
            } else {
                None
            },
            None => None,
        },
        None => None,
    }
}

/// Adds the element's own findings (see [`lint_tree`]).
fn own_findings(el: &JsonValue, out: &mut Vec<RawFinding>)
    ensures
        raw_views(final(out)@) == raw_views(old(out)@) + ({
            let attrs = items_of(match field(el@, "opening"@) {
                Some(op) => field(op, "attributes"@),
                None => None,
            });
            let children = items_of(field(el@, "children"@));
            attr_findings(attrs, attrs.len() as int) + text_findings(children, children.len() as int)
        }),
{
    let ghost start = raw_views(out@);
    let opening = field_exec(el, &chars_of("opening"));
    let attrs = match opening {
        Some(op) => items_exec(field_exec(op, &chars_of("attributes"))),
        None => items_exec(None),
    };
    let ghost av = items_of(match field(el@, "opening"@) {
        Some(op) => field(op, "attributes"@),
        None => None,
    });
    assert(attrs@.len() == av.len());
    let mut i: usize = 0;
    while i < attrs.len()
        invariant
            i <= attrs@.len(),
            attrs@.len() == av.len(),
            forall|j: int| 0 <= j < attrs@.len() ==> #[trigger] attrs@[j]@ == av[j],
            raw_views(out@) == start + attr_findings(av, i as int),
        decreases attrs.len() - i,
    {
        let ghost before = out@;
        assert(attrs@[i as int]@ == av[i as int]);
        match attr_finding_exec(&attrs[i]) {
            Some(f) => {
                out.push(f);
                assert(raw_views(out@) =~= raw_views(before).push(Finding { offset: f.offset as int, message: f.message@, text: f.text@ }));
            },
            None => {},
        }
        i = i + 1;
    }
    let ghost mid = raw_views(out@);
    let children = items_exec(field_exec(el, &chars_of("children")));
    let ghost cv = items_of(field(el@, "children"@));
    let mut i: usize = 0;
    while i < children.len()
        invariant
            i <= children@.len(),
            children@.len() == cv.len(),
            forall|j: int| 0 <= j < children@.len() ==> #[trigger] children@[j]@ == cv[j],
            raw_views(out@) == mid + text_findings(cv, i as int),
        decreases children.len() - i,
    {
        let ghost before = out@;
        let c = &children[i];
        assert(c@ == cv[i as int]);
        if type_is(c, &chars_of("JSXText")) {
            match text_exec(field_exec(c, &chars_of("value"))) {
                Some(v) => {
                    if should_be_translated_exec(v.as_str()) {
                        let f = RawFinding {
                            offset: start_exec(c),
                            message: string_of(&chars_of("Hardcoded text in JSX should be translated")),
                            text: string_of(&trim_exec(&chars_of(v.as_str()))),
                        };
                        out.push(f);
                        assert(raw_views(out@) =~= raw_views(before).push(Finding { offset: f.offset as int, message: f.message@, text: f.text@ }));
                    }
                },
                None => {},
            }
        }
        i = i + 1;
    }
}

/// Adds the findings of a tree (see [`lint_tree`]).
fn lint_into(v: &JsonValue, in_trans: bool, out: &mut Vec<RawFinding>)
    ensures
        raw_views(final(out)@) == raw_views(old(out)@) + lint_tree(v@, in_trans),
    decreases v,
{
    let ghost start = raw_views(out@);
    match v {
        JsonValue::Array(items) => {
            proof {
                lemma_trees_of(items@);
            }
            let mut i: usize = 0;
            while i < items.len()
                invariant
                    i <= items@.len(),
                    trees_of(items@).len() == items@.len(),
                    forall|j: int| 0 <= j < items@.len() ==> #[trigger] trees_of(items@)[j] == items@[j]@,
                    *v == JsonValue::Array(*items),
                    raw_views(out@) == start + lint_items(trees_of(items@), in_trans, i as int),
                decreases items.len() - i,
            {
                proof {
                    assert(decreases_to!(*v => v->Array_0));
                    assert(decreases_to!(v->Array_0 => v->Array_0@));
                    assert(decreases_to!(v->Array_0@ => v->Array_0@[i as int]));
                }
                lint_into(&items[i], in_trans, out);
                i = i + 1;
            }
        },
        JsonValue::Object(es) => {
            proof {
                lemma_entries_of(es@);
            }
            let mut inside = in_trans;
            if type_is(v, &chars_of("JSXElement")) {
                let name = element_name_exec(v);
                match name {
                    Some(n) => {
                        let lower = to_lowercase(n.as_str());
                        let lc = chars_of(lower.as_str());
                        if seq_eq(&lc, &chars_of("script")) || seq_eq(&lc, &chars_of("style")) || seq_eq(&lc, &chars_of("code"))
                            || seq_eq(&lc, &chars_of("pre")) {
                            assert(raw_views(out@) =~= start + lint_tree(v@, in_trans));
                            return;
                        }
                        if crate::json::string_is(n, &chars_of("Trans")) {
                            inside = true;
                        }
                    },
                    None => {},
                }
                if !inside {
                    own_findings(v, out);
                }
            }
            let ghost mid = raw_views(out@);
            let mut i: usize = 0;
            while i < es.len()
                invariant
                    i <= es@.len(),
                    entries_of(es@).len() == es@.len(),
                    forall|j: int| 0 <= j < es@.len() ==> #[trigger] entries_of(es@)[j] == (es@[j].0@, es@[j].1@),
                    *v == JsonValue::Object(*es),
                    raw_views(out@) == mid + lint_members(entries_of(es@), inside, i as int),
                decreases es.len() - i,
            {
                proof {
                    assert(decreases_to!(*v => v->Object_0));
                    assert(decreases_to!(v->Object_0 => v->Object_0@));
                    assert(decreases_to!(v->Object_0@ => v->Object_0@[i as int]));
                    assert(decreases_to!(v->Object_0@[i as int] => v->Object_0@[i as int].1));
                }
                lint_into(&es[i].1, inside, out);
                i = i + 1;
            }
            assert(raw_views(out@) =~= start + lint_tree(v@, in_trans));
        },
        _ => {},
    }
}

/// The issues of a parsed module: each finding placed at its line and column (1-based, in
/// characters) in the source.
pub open spec fn module_issues(src: Seq<char>, start: int, module: JsonTree, path: Seq<char>) -> Seq<(Seq<char>, int, int, Seq<char>, Seq<char>)> {
    lint_tree(module, false).map_values(|f: Finding| {
        let off = if f.offset >= start && f.offset - start <= u32::MAX { f.offset - start } else { if f.offset >= start { u32::MAX as int } else { 0 } };
        let (l, c) = locate(src, off);
        (path, (l as usize) as int, (c as usize) as int, f.message, f.text)
    })
}

/// The content of a list of issues.
pub open spec fn issue_views(s: Seq<LintIssue>) -> Seq<(Seq<char>, int, int, Seq<char>, Seq<char>)> {
    s.map_values(|i: LintIssue| (i.file_path@, i.line as int, i.column as int, i.message@, i.text@))
}

/// The issues of a source: only `.tsx` and `.jsx` files are linted, and a source that
/// does not parse has none.
pub open spec fn source_issues(source: Seq<char>, path: Seq<char>) -> Seq<(Seq<char>, int, int, Seq<char>, Seq<char>)> {
    if !is_tsx_path(path) {
        Seq::empty()
    } else {
        match swc_parse(source, true) {
            Ok((module, start, _, _)) => module_issues(source, start as int, module, path),
            Err(_) => Seq::empty(),
        }
    }
}

/// Lints a source for text in JSX that should be translated (see [`source_issues`]).
pub fn lint_source(source: &str, path: &str) -> (r: Vec<LintIssue>)
    ensures
        issue_views(r@) == source_issues(source@, path@),
{
    if !is_tsx_path_exec(path) {
        let none: Vec<LintIssue> = Vec::new();
        assert(issue_views(none@) =~= Seq::empty());
        return none;
    }
    match parse_script(source, true) {
        Err(_) => {
            let none: Vec<LintIssue> = Vec::new();
            assert(issue_views(none@) =~= Seq::empty());
            none
        },
        Ok(p) => {
            let mut found: Vec<RawFinding> = Vec::new();
            lint_into(&p.module, false, &mut found);
            assert(raw_views(found@) =~= lint_tree(p.module@, false));
            let src = chars_of(source);
            let ghost fv = raw_views(found@);
            let mut out: Vec<LintIssue> = Vec::new();
            let mut i: usize = 0;
            while i < found.len()
                invariant
                    i <= found@.len(),
                    fv == raw_views(found@),
                    src@ == source@,
                    issue_views(out@) == module_issues(source@, p.start as int, p.module@, path@).take(i as int),
                    fv == lint_tree(p.module@, false),
                decreases found.len() - i,
            {
                let f = &found[i];
                let off: u32 = if f.offset >= p.start as u64 {
                    let d = f.offset - p.start as u64;
                    if d <= u32::MAX as u64 {
                        d as u32
                    } else {
                        u32::MAX
                    }
                } else {
                    0
                };
                let pos = locate_exec(&src, off);
                let issue = LintIssue {
                    file_path: string_of(&chars_of(path)),
                    line: #[verifier::truncate] (pos.line as usize),
                    column: #[verifier::truncate] (pos.column as usize),
                    message: f.message.clone(),
                    text: f.text.clone(),
                };
                let ghost before = issue_views(out@);
                out.push(issue);
                proof {
                    assert(issue_views(out@) =~= before.push((issue.file_path@, issue.line as int, issue.column as int, issue.message@, issue.text@)));
                    let m = module_issues(source@, p.start as int, p.module@, path@);
                    assert(m.take(i as int + 1) =~= m.take(i as int).push(m[i as int]));
                }
                i = i + 1;
            }
            out
        },
    }
}

/// A file matched for linting: its path, and its text unless it could not be read.
pub struct LintFile {
    pub path: String,
    pub content: Option<String>,
}

/// The issues of the first `n` files, in order; a file that could not be read has none.
pub open spec fn files_issues(files: Seq<LintFile>, n: int) -> Seq<(Seq<char>, int, int, Seq<char>, Seq<char>)>
    decreases n,
{
    if n <= 0 || n > files.len() {
        Seq::empty()
    } else {
        files_issues(files, n - 1) + match files[n - 1].content {
            Some(c) => source_issues(c@, files[n - 1].path@),
            None => Seq::empty(),
        }
    }
}

/// Lints the files matched by the input patterns: each counts as checked, and the issues
/// of those that could be read are gathered in order (see [`files_issues`]).
pub fn lint_files(files: &[LintFile]) -> (r: LintResult)
    ensures
        r.files_checked == files@.len(),
        issue_views(r.issues@) == files_issues(files@, files@.len() as int),
{
    let mut issues: Vec<LintIssue> = Vec::new();
    assert(issue_views(issues@) =~= files_issues(files@, 0));
    let mut i: usize = 0;
    while i < files.len()
        invariant
            i <= files@.len(),
            issue_views(issues@) == files_issues(files@, i as int),
        decreases files.len() - i,
    {
        match &files[i].content {
            Some(c) => {
                let mut found = lint_source(c.as_str(), files[i].path.as_str());
                let ghost a = issue_views(issues@);
                let ghost b = issue_views(found@);
                issues.append(&mut found);
                assert(issue_views(issues@) =~= a + b);
            },
            None => {
                assert(files_issues(files@, i as int + 1) =~= files_issues(files@, i as int));
            },
        }
        i = i + 1;
    }
    LintResult { issues, files_checked: files.len() }
}

} // verus!
