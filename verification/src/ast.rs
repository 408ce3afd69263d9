//! The syntax tree of a script, read through the parser's JSON form.
//!
//! A node is a JSON object whose `"type"` member names its kind; its other
//! members are its fields. The helpers here read fields, literals and spans.
use crate::json::{find_key, json_from_serde, lemma_find_key, obj_get, obj_get_exec, JsonTree, JsonValue};
use crate::text::views;
use swc_common::comments::SingleThreadedComments;
use swc_common::sync::Lrc;
use swc_common::{FileName, SourceMap, Spanned};
use swc_ecma_parser::{lexer::Lexer, Parser, StringInput, Syntax, TsSyntax};
use crate::text::chars_of;
use vstd::prelude::*;

verus! {

/// The field `name` of a node (`None` when it is absent or `t` is no object).
pub open spec fn field(t: JsonTree, name: Seq<char>) -> Option<JsonTree> {
    match t {
        JsonTree::Object(es) => obj_get(es, name),
        _ => None,
    }
}

/// A field of a node is smaller than the node.
pub proof fn lemma_field_decreases(t: JsonTree, name: Seq<char>)
    ensures
        field(t, name) matches Some(c) ==> decreases_to!(t => c),
{
    if let JsonTree::Object(es) = t {
        lemma_find_key(es, name);
        if let Some(i) = find_key(es, name) {
            assert(decreases_to!(t => es));
            assert(decreases_to!(es => es[i]));
            assert(decreases_to!(es[i] => es[i].1));
        }
    }
}

/// An item of an array is smaller than the array.
pub proof fn lemma_items_decrease(t: JsonTree)
    ensures
        forall|i: int| #![trigger items_of(Some(t))[i]] 0 <= i < items_of(Some(t)).len() ==> decreases_to!(t => items_of(Some(t))[i]),
{
    if let JsonTree::Array(items) = t {
        assert forall|i: int| 0 <= i < items.len() implies decreases_to!(t => items[i]) by {
            assert(decreases_to!(t => items));
            assert(decreases_to!(items => items[i]));
        }
    }
}

/// The text held by an optional string value.
pub open spec fn text_of(t: Option<JsonTree>) -> Option<Seq<char>> {
    match t {
        Some(JsonTree::Str(s)) => Some(s),
        _ => None,
    }
}

/// The items held by an optional array value (empty for anything else).
pub open spec fn items_of(t: Option<JsonTree>) -> Seq<JsonTree> {
    match t {
        Some(JsonTree::Array(items)) => items,
        _ => Seq::empty(),
    }
}

/// Whether a node is of the given kind.
pub open spec fn has_type(t: JsonTree, ty: Seq<char>) -> bool {
    text_of(field(t, "type"@)) == Some(ty)
}

/// The name of an identifier node.
pub open spec fn ident_name(t: JsonTree) -> Option<Seq<char>> {
    if has_type(t, "Identifier"@) {
        text_of(field(t, "value"@))
    } else {
        None
    }
}

/// The value of a string literal node.
pub open spec fn string_lit(t: JsonTree) -> Option<Seq<char>> {
    if has_type(t, "StringLiteral"@) {
        text_of(field(t, "value"@))
    } else {
        None
    }
}

/// The trees of a list of values.
pub open spec fn trees(s: Seq<JsonValue>) -> Seq<JsonTree> {
    s.map_values(|v: JsonValue| v@)
}

/// The tree of an optional value.
pub open spec fn tree_opt(o: Option<&JsonValue>) -> Option<JsonTree> {
    match o {
        Some(x) => Some(x@),
        None => None,
    }
}

/// The field `name` of a node.
pub fn field_exec<'a>(v: &'a JsonValue, name: &[char]) -> (r: Option<&'a JsonValue>)
    ensures
        match r {
            Some(x) => field(v@, name@) == Some(x@),
            None => field(v@, name@) is None,
        },
{
    match v {
        JsonValue::Object(es) => obj_get_exec(es, name),
        _ => None,
    }
}

/// The text held by an optional string value.
pub fn text_exec<'a>(o: Option<&'a JsonValue>) -> (r: Option<&'a String>)
    ensures
        match r {
            Some(s) => text_of(tree_opt(o)) == Some(s@),
            None => text_of(tree_opt(o)) is None,
        },
{
    match o {
        Some(JsonValue::Str(s)) => Some(s),
        _ => None,
    }
}

/// The items held by an optional array value (empty for anything else).
pub fn items_exec<'a>(o: Option<&'a JsonValue>) -> (r: &'a [JsonValue])
    ensures
        r@.len() == items_of(tree_opt(o)).len(),
        forall|i: int| 0 <= i < r@.len() ==> #[trigger] r@[i]@ == items_of(tree_opt(o))[i],
{
    match o {
        Some(JsonValue::Array(items)) => {
            proof {
                crate::json::lemma_trees_of(items@);
            }
            items.as_slice()
        },
        _ => &[],
    }
}

/// Whether a node is of the given kind.
pub fn type_is(v: &JsonValue, ty: &[char]) -> (r: bool)
    ensures
        r == has_type(v@, ty@),
{
    let tname = chars_of("type");
    match text_exec(field_exec(v, &tname)) {
        Some(s) => crate::json::string_is(s, ty),
        None => false,
    }
}

/// The name of an identifier node.
pub fn ident_name_exec(v: &JsonValue) -> (r: Option<&String>)
    ensures
        match r {
            Some(s) => ident_name(v@) == Some(s@),
            None => ident_name(v@) is None,
        },
{
    if type_is(v, &chars_of("Identifier")) {
        text_exec(field_exec(v, &chars_of("value")))
    } else {
        None
    }
}

/// The value of a string literal node.
pub fn string_lit_exec(v: &JsonValue) -> (r: Option<&String>)
    ensures
        match r {
            Some(s) => string_lit(v@) == Some(s@),
            None => string_lit(v@) is None,
        },
{
    if type_is(v, &chars_of("StringLiteral")) {
        text_exec(field_exec(v, &chars_of("value")))
    } else {
        None
    }
}


/// The field `name` of an optional node.
pub open spec fn child(t: Option<JsonTree>, name: Seq<char>) -> Option<JsonTree> {
    match t {
        Some(x) => field(x, name),
        None => None,
    }
}

/// Whether every character is an ASCII digit.
pub open spec fn all_digits(s: Seq<char>) -> bool {
    forall|i: int| 0 <= i < s.len() ==> '0' <= #[trigger] s[i] <= '9'
}

/// The value of a string of decimal digits.
pub open spec fn digits_value(s: Seq<char>) -> int
    decreases s.len(),
{
    if s.len() == 0 {
        0
    } else {
        digits_value(s.drop_last()) * 10 + (s.last() as int - '0' as int)
    }
}

/// The value of an optional number written with decimal digits only.
pub open spec fn number_value(t: Option<JsonTree>) -> Option<int> {
    match t {
        Some(JsonTree::Number(s)) => if s.len() > 0 && all_digits(s) {
            Some(digits_value(s))
        } else {
            None
        },
        _ => None,
    }
}

/// The start position of a node's span.
pub open spec fn span_lo(t: JsonTree) -> Option<int> {
    number_value(child(field(t, "span"@), "start"@))
}

/// The end position of a node's span.
pub open spec fn span_hi(t: JsonTree) -> Option<int> {
    number_value(child(field(t, "span"@), "end"@))
}

/// The value of an optional number written with decimal digits only; `None` also when it
/// does not fit in a `u64`.
pub fn number_exec(o: Option<&JsonValue>) -> (r: Option<u64>)
    ensures
        match r {
            Some(n) => number_value(tree_opt(o)) == Some(n as int),
            None => number_value(tree_opt(o)) is None || number_value(tree_opt(o))->0 > u64::MAX,
        },
{
    match o {
        Some(JsonValue::Number(text)) => {
            let s = chars_of(text.as_str());
            assert(tree_opt(o) == Some(JsonTree::Number(s@)));
            if s.len() == 0 {
                return None;
            }
            let mut acc: u64 = 0;
            let mut i: usize = 0;
            while i < s.len()
                invariant
                    i <= s@.len(),
                    s@ == text@,
                    s@.len() > 0,
                    tree_opt(o) == Some(JsonTree::Number(s@)),
                    all_digits(s@.take(i as int)),
                    acc as int == digits_value(s@.take(i as int)),
                decreases s.len() - i,
            {
                let c = s[i];
                if c < '0' || c > '9' {
                    assert(!all_digits(s@)) by {
                        assert(s@[i as int] == c);
                    }
                    return None;
                }
                let d = (c as u32 - '0' as u32) as u64;
                assert(s@.take(i as int + 1).drop_last() =~= s@.take(i as int));
                assert(s@.take(i as int + 1).last() == c);
                assert(digits_value(s@.take(i as int + 1)) == digits_value(s@.take(i as int)) * 10 + (c as int - '0' as int));
                assert(all_digits(s@.take(i as int + 1))) by {
                    assert forall|j: int| 0 <= j < i + 1 implies '0' <= #[trigger] s@.take(i as int + 1)[j] <= '9' by {
                        if j < i {
                            assert(s@.take(i as int + 1)[j] == s@.take(i as int)[j]);
                        }
                    }
                }
                match acc.checked_mul(10) {
                    Some(m) => match m.checked_add(d) {
                        Some(n) => {
                            acc = n;
                        },
                        None => {
                            proof {
                                if all_digits(s@) {
                                    lemma_digits_value_grows(s@, i as int + 1);
                                }
                            }
                            return None;
                        },
                    },
                    None => {
                        proof {
                            if all_digits(s@) {
                                lemma_digits_value_grows(s@, i as int + 1);
                            }
                        }
                        return None;
                    },
                }
                i = i + 1;
            }
            assert(s@.take(s@.len() as int) =~= s@);
            Some(acc)
        },
        _ => None,
    }
}

/// The value of a digit string is at least that of any of its prefixes.
proof fn lemma_digits_value_grows(s: Seq<char>, k: int)
    requires
        0 <= k <= s.len(),
        all_digits(s),
    ensures
        digits_value(s) >= digits_value(s.take(k)),
        digits_value(s.take(k)) >= 0,
    decreases s.len(),
{
    if k == s.len() {
        assert(s.take(k) =~= s);
        lemma_digits_value_nonneg(s);
    } else {
        assert(s.drop_last().take(k) =~= s.take(k));
        assert(all_digits(s.drop_last())) by {
            assert forall|j: int| 0 <= j < s.drop_last().len() implies '0' <= #[trigger] s.drop_last()[j] <= '9' by {
                assert(s.drop_last()[j] == s[j]);
            }
        }
        lemma_digits_value_grows(s.drop_last(), k);
        lemma_digits_value_nonneg(s.drop_last());
        assert('0' <= s[s.len() - 1] <= '9');
    }
}

proof fn lemma_digits_value_nonneg(s: Seq<char>)
    requires
        all_digits(s),
    ensures
        digits_value(s) >= 0,
    decreases s.len(),
{
    if s.len() > 0 {
        assert(all_digits(s.drop_last())) by {
            assert forall|j: int| 0 <= j < s.drop_last().len() implies '0' <= #[trigger] s.drop_last()[j] <= '9' by {
                assert(s.drop_last()[j] == s[j]);
            }
        }
        lemma_digits_value_nonneg(s.drop_last());
        assert('0' <= s[s.len() - 1] <= '9');
    }
}

/// The start position of a node's span.
pub fn span_lo_exec(v: &JsonValue) -> (r: Option<u64>)
    ensures
        match r {
            Some(n) => span_lo(v@) == Some(n as int),
            None => span_lo(v@) is None || span_lo(v@)->0 > u64::MAX,
        },
{
    match field_exec(v, &chars_of("span")) {
        Some(sp) => number_exec(field_exec(sp, &chars_of("start"))),
        None => None,
    }
}

/// The end position of a node's span.
pub fn span_hi_exec(v: &JsonValue) -> (r: Option<u64>)
    ensures
        match r {
            Some(n) => span_hi(v@) == Some(n as int),
            None => span_hi(v@) is None || span_hi(v@)->0 > u64::MAX,
        },
{
    match field_exec(v, &chars_of("span")) {
        Some(sp) => number_exec(field_exec(sp, &chars_of("end"))),
        None => None,
    }
}

/// The comments of a script, keyed by position, each position with its comment texts.
pub open spec fn comment_map(entries: Seq<(u32, Vec<String>)>) -> Map<int, Seq<Seq<char>>>
    decreases entries.len(),
{
    if entries.len() == 0 {
        Map::empty()
    } else {
        comment_map(entries.drop_last()).insert(entries.last().0 as int, views(entries.last().1@))
    }
}

/// Whether no two entries share a position.
pub open spec fn distinct_positions(entries: Seq<(u32, Vec<String>)>) -> bool {
    forall|i: int, j: int| 0 <= i < j < entries.len() ==> entries[i].0 != entries[j].0
}

/// A script parsed into its syntax tree, with its comments.
pub struct ParsedScript {
    /// The module, in the parser's JSON form.
    pub module: JsonValue,
    /// The position of the first character of the source.
    pub start: u32,
    /// Comments that precede a token, by the token's start position.
    pub leading: Vec<(u32, Vec<String>)>,
    /// Comments that follow a token, by the token's end position.
    pub trailing: Vec<(u32, Vec<String>)>,
}

/// Why a script could not be parsed.
pub struct ScriptParseError {
    /// Where the parser stopped.
    pub pos: u32,
    /// The position of the first character of the source.
    pub start: u32,
    /// The parser's description of the error.
    pub message: String,
}

#[verifier::external_type_specification]
#[verifier::external_body]
pub struct ExSwcModule(swc_ecma_ast::Module);

#[verifier::external_type_specification]
#[verifier::external_body]
pub struct ExSwcParseError(swc_ecma_parser::error::Error);

#[verifier::external_type_specification]
#[verifier::external_body]
pub struct ExSwcComments(SingleThreadedComments);

/// What swc makes of a TypeScript source (`tsx` enables JSX): on success the module in its
/// serde JSON form, the position of the source's start, and the leading and trailing comment
/// texts by position; on failure the error's position, the source's start and the debug text
/// of the error kind.
pub uninterp spec fn swc_parse(source: Seq<char>, tsx: bool) -> Result<
    (JsonTree, int, Map<int, Seq<Seq<char>>>, Map<int, Seq<Seq<char>>>),
    (int, int, Seq<char>),
>;

/// Runs swc's lexer and parser on a source (`Parser::parse_module`), collecting comments.
#[verifier::external_body]
fn swc_parse_raw(source: &str, tsx: bool) -> (Result<swc_ecma_ast::Module, swc_ecma_parser::error::Error>, SingleThreadedComments, u32) {
    let cm: Lrc<SourceMap> = Default::default();
    let fm = cm.new_source_file(Lrc::new(FileName::Anon), source.to_string());
    let comments = SingleThreadedComments::default();
    let syntax = Syntax::Typescript(TsSyntax { tsx, decorators: true, ..Default::default() });
    let lexer = Lexer::new(syntax, Default::default(), StringInput::from(&*fm), Some(&comments));
    let parsed = Parser::new_from(lexer).parse_module();
    (parsed, comments, fm.start_pos.0)
}

/// The comments that swc collected, leading and trailing, each by position.
#[verifier::external_body]
fn swc_comment_entries(comments: &SingleThreadedComments) -> (Vec<(u32, Vec<String>)>, Vec<(u32, Vec<String>)>) {
    let (leading, trailing) = comments.borrow_all();
    let entries = |m: &swc_common::comments::SingleThreadedCommentsMapInner| -> Vec<(u32, Vec<String>)> {
        m.iter().map(|(p, cs)| (p.0, cs.iter().map(|c| c.text.to_string()).collect())).collect()
    };
    (entries(&leading), entries(&trailing))
}

/// Parses a TypeScript source with swc (JSX enabled when `tsx`). The module comes back in
/// the JSON form that swc's serde support gives it, and the comment maps as lists of
/// entries. The contract names the result and states that comment positions are distinct
/// (they are the keys of swc's comment maps); the order of the entries is left unsaid, as it
/// is the order in which a hash map is walked.
#[verifier::external_body]
pub(crate) fn parse_script(source: &str, tsx: bool) -> (r: Result<ParsedScript, ScriptParseError>)
    ensures
        match r {
            Ok(p) => swc_parse(source@, tsx) is Ok
                && swc_parse(source@, tsx)->Ok_0 == (p.module@, p.start as int, comment_map(p.leading@), comment_map(p.trailing@))
                && distinct_positions(p.leading@) && distinct_positions(p.trailing@),
            Err(e) => swc_parse(source@, tsx) is Err
                && swc_parse(source@, tsx)->Err_0 == (e.pos as int, e.start as int, e.message@),
        },
{
    let (parsed, comments, start) = swc_parse_raw(source, tsx);
    let (leading, trailing) = swc_comment_entries(&comments);
    match parsed {
        Ok(m) => Ok(ParsedScript { module: json_from_serde(&serde_json::to_value(&m).unwrap_or_default()), start, leading, trailing }),
        Err(e) => Err(ScriptParseError { pos: e.span().lo.0, start, message: format!("{:?}", e.kind()) }),
    }
}

} // verus!
