//! Keys written in comments (`// t('key')`) and nested in default values (`$t(key)`), and
//! the loose option syntax both use.
use crate::keys::{
    kv, key_views, opt_view, plural_keys, push_key, push_plural_keys, split_namespace, ExtractedKey, KeyView,
    ScanSettings,
};
use crate::patterns::{
    finds, finds_exec, first_group, first_group_exec, group_at, group_exec, match_view, matches_view,
    regex_captures_all, regex_escape, escape_regex, regex_matches,
};
use crate::scope::or_else;
use crate::text::{
    chars_of, concat2, concat3, find_from, find_from_exec, lemma_find_from_bounds, matches_at, matches_at_exec,
    slice_vec, string_of, trim, trim_exec,
};
use vstd::prelude::*;

verus! {

/// The start of an option pattern: a non-identifier character (or the start), then the
/// optionally quoted option name.
pub open spec fn option_head(esc: Seq<char>) -> Seq<char> {
    "(?s)(?:^|[^a-zA-Z0-9_])[\"']?"@ + esc + "[\"']?\\s*:"@
}

/// The value of `key: 'text'` (or with double quotes or backticks, tried in that order).
pub open spec fn string_option(text: Seq<char>, key: Seq<char>) -> Option<Seq<char>> {
    let b = option_head(regex_escape(key)) + "\\s*"@;
    match first_group(regex_matches(b + "'([^']+)'"@, text), 1) {
        Some(g) => g,
        None => match first_group(regex_matches(b + "\"([^\"]+)\""@, text), 1) {
            Some(g) => g,
            None => match first_group(regex_matches(b + "`([^`]+)`"@, text), 1) {
                Some(g) => g,
                None => None,
            },
        },
    }
}

/// Whether `key:` appears.
pub open spec fn option_exists(text: Seq<char>, key: Seq<char>) -> bool {
    finds(regex_matches(option_head(regex_escape(key)), text))
}

/// Whether `key: true` appears.
pub open spec fn option_truthy(text: Seq<char>, key: Seq<char>) -> bool {
    finds(regex_matches(option_head(regex_escape(key)) + "\\s*true(?:[^a-zA-Z0-9_]|$)"@, text))
}

/// The options written after a key in a comment or a nested translation.
pub struct CommentOptions {
    pub default_value: Option<String>,
    pub namespace: Option<String>,
    pub context: Option<String>,
    pub has_count: bool,
    pub has_ordinal: bool,
}

/// The options a text gives: `defaultValue`, `ns` and `context` strings, whether `count`
/// appears, and whether `ordinal` is `true`.
pub open spec fn comment_options(text: Seq<char>) -> (Option<Seq<char>>, Option<Seq<char>>, Option<Seq<char>>, bool, bool) {
    (
        string_option(text, "defaultValue"@),
        string_option(text, "ns"@),
        string_option(text, "context"@),
        option_exists(text, "count"@),
        option_truthy(text, "ordinal"@),
    )
}

/// The view of parsed options.
pub open spec fn options_view(o: CommentOptions) -> (Option<Seq<char>>, Option<Seq<char>>, Option<Seq<char>>, bool, bool) {
    (opt_view(o.default_value), opt_view(o.namespace), opt_view(o.context), o.has_count, o.has_ordinal)
}

/// The value of a string option (see [`string_option`]).
fn string_option_exec(text: &str, key: &str) -> (r: Option<String>)
    ensures
        opt_view(r) == string_option(text@, key@),
{
    let esc = escape_regex(key);
    let b = concat3(&chars_of("(?s)(?:^|[^a-zA-Z0-9_])[\"']?"), &chars_of(esc.as_str()), &chars_of("[\"']?\\s*:"));
    let b = concat2(&b, &chars_of("\\s*"));
    let p1 = string_of(&concat2(&b, &chars_of("'([^']+)'")));
    match first_group_exec(p1.as_str(), text, 1) {
        Some(g) => {
            return g;
        },
        None => {},
    }
    let p2 = string_of(&concat2(&b, &chars_of("\"([^\"]+)\"")));
    match first_group_exec(p2.as_str(), text, 1) {
        Some(g) => {
            return g;
        },
        None => {},
    }
    let p3 = string_of(&concat2(&b, &chars_of("`([^`]+)`")));
    match first_group_exec(p3.as_str(), text, 1) {
        Some(g) => g,
        None => None,
    }
}

/// The options a text gives (see [`comment_options`]).
pub fn comment_options_exec(text: &str) -> (r: CommentOptions)
    ensures
        options_view(r) == comment_options(text@),
{
    let count_head = string_of(&concat3(&chars_of("(?s)(?:^|[^a-zA-Z0-9_])[\"']?"), &chars_of(escape_regex("count").as_str()), &chars_of("[\"']?\\s*:")));
    let ordinal_head = concat3(&chars_of("(?s)(?:^|[^a-zA-Z0-9_])[\"']?"), &chars_of(escape_regex("ordinal").as_str()), &chars_of("[\"']?\\s*:"));
    let ordinal_pat = string_of(&concat2(&ordinal_head, &chars_of("\\s*true(?:[^a-zA-Z0-9_]|$)")));
    CommentOptions {
        default_value: string_option_exec(text, "defaultValue"),
        namespace: string_option_exec(text, "ns"),
        context: string_option_exec(text, "context"),
        has_count: finds_exec(count_head.as_str(), text),
        has_ordinal: finds_exec(ordinal_pat.as_str(), text),
    }
}

/// Where the braced block that starts at `i` ends (one past its closing brace), scanning
/// with the given depth and string state; quotes of any kind delimit strings, in which a
/// backslash escapes the next character.
pub open spec fn brace_scan(s: Seq<char>, i: int, depth: int, quote: Option<char>, esc: bool) -> Option<int>
    decreases s.len() - i,
{
    if i < 0 || i >= s.len() {
        None
    } else {
        let ch = s[i];
        match quote {
            Some(q) => if esc {
                brace_scan(s, i + 1, depth, quote, false)
            } else if ch == '\\' {
                brace_scan(s, i + 1, depth, quote, true)
            } else if ch == q {
                brace_scan(s, i + 1, depth, None, false)
            } else {
                brace_scan(s, i + 1, depth, quote, false)
            },
            None => if ch == '\'' || ch == '"' || ch == '`' {
                brace_scan(s, i + 1, depth, Some(ch), false)
            } else if ch == '{' {
                brace_scan(s, i + 1, depth + 1, None, false)
            } else if ch == '}' {
                if depth <= 0 {
                    None
                } else if depth == 1 {
                    Some(i + 1)
                } else {
                    brace_scan(s, i + 1, depth - 1, None, false)
                }
            } else {
                brace_scan(s, i + 1, depth, None, false)
            },
        }
    }
}

/// The balanced `{ ... }` block at the start of `s`.
pub open spec fn braced_block(s: Seq<char>) -> Option<Seq<char>> {
    match brace_scan(s, 0, 0, None, false) {
        Some(e) => Some(s.subrange(0, e)),
        None => None,
    }
}

proof fn lemma_brace_scan_bounds(s: Seq<char>, i: int, depth: int, quote: Option<char>, esc: bool)
    requires
        0 <= i,
    ensures
        brace_scan(s, i, depth, quote, esc) matches Some(e) ==> i < e <= s.len(),
    decreases s.len() - i,
{
    if i < s.len() {
        let ch = s[i];
        lemma_brace_scan_bounds(s, i + 1, depth, quote, false);
        lemma_brace_scan_bounds(s, i + 1, depth, quote, true);
        lemma_brace_scan_bounds(s, i + 1, depth, None, false);
        lemma_brace_scan_bounds(s, i + 1, depth, Some(ch), false);
        lemma_brace_scan_bounds(s, i + 1, depth + 1, None, false);
        lemma_brace_scan_bounds(s, i + 1, depth - 1, None, false);
    }
}

/// The balanced `{ ... }` block at the start of `s` (see [`braced_block`]).
pub fn braced_block_exec(s: &[char]) -> (r: Option<Vec<char>>)
    ensures
        match r {
            Some(b) => braced_block(s@) == Some(b@),
            None => braced_block(s@) is None,
        },
{
    let mut depth: usize = 0;
    let mut quote: Option<char> = None;
    let mut esc = false;
    let mut i: usize = 0;
    while i < s.len()
        invariant
            i <= s@.len(),
            depth <= i,
            quote is None ==> !esc,
            brace_scan(s@, 0, 0, None, false) == brace_scan(s@, i as int, depth as int, quote, esc),
        decreases s.len() - i,
    {
        let ch = s[i];
        match quote {
            Some(q) => {
                if esc {
                    esc = false;
                } else if ch == '\\' {
                    esc = true;
                } else if ch == q {
                    quote = None;
                }
            },
            None => {
                if ch == '\'' || ch == '"' || ch == '`' {
                    quote = Some(ch);
                } else if ch == '{' {
                    depth = depth + 1;
                } else if ch == '}' {
                    if depth == 0 {
                        return None;
                    }
                    if depth == 1 {
                        proof {
                            lemma_brace_scan_bounds(s@, 0, 0, None, false);
                        }
                        return Some(slice_vec(s, 0, i + 1));
                    }
                    depth = depth - 1;
                }
            },
        }
        i = i + 1;
    }
    None
}

/// Where `s` splits at the first `sep` outside strings, parentheses and braces (scanning
/// from `i` with the given state).
pub open spec fn split_scan(s: Seq<char>, sep: Seq<char>, i: int, quote: Option<char>, esc: bool, dp: int, db: int) -> Option<int>
    decreases s.len() - i,
{
    if i < 0 || i >= s.len() {
        None
    } else {
        let ch = s[i];
        match quote {
            Some(q) => if esc {
                split_scan(s, sep, i + 1, quote, false, dp, db)
            } else if ch == '\\' {
                split_scan(s, sep, i + 1, quote, true, dp, db)
            } else if ch == q {
                split_scan(s, sep, i + 1, None, false, dp, db)
            } else {
                split_scan(s, sep, i + 1, quote, false, dp, db)
            },
            None => {
                let q2: Option<char> = if ch == '\'' || ch == '"' || ch == '`' {
                    Some(ch)
                } else {
                    None
                };
                let dp2 = if ch == '(' {
                    dp + 1
                } else if ch == ')' {
                    if dp > 0 {
                        dp - 1
                    } else {
                        0
                    }
                } else {
                    dp
                };
                let db2 = if ch == '{' {
                    db + 1
                } else if ch == '}' {
                    if db > 0 {
                        db - 1
                    } else {
                        0
                    }
                } else {
                    db
                };
                if dp2 == 0 && db2 == 0 && matches_at(s, sep, i) {
                    Some(i)
                } else {
                    split_scan(s, sep, i + 1, q2, false, dp2, db2)
                }
            },
        }
    }
}

/// The first top-level occurrence of a non-empty `sep` in `s`.
pub open spec fn split_once(s: Seq<char>, sep: Seq<char>) -> Option<int> {
    if sep.len() == 0 {
        None
    } else {
        split_scan(s, sep, 0, None, false, 0, 0)
    }
}

proof fn lemma_split_scan_bounds(s: Seq<char>, sep: Seq<char>, i: int, quote: Option<char>, esc: bool, dp: int, db: int)
    requires
        0 <= i,
    ensures
        split_scan(s, sep, i, quote, esc, dp, db) matches Some(k) ==> i <= k && matches_at(s, sep, k),
    decreases s.len() - i,
{
    if i < s.len() {
        let ch = s[i];
        let q2: Option<char> = if ch == '\'' || ch == '"' || ch == '`' {
            Some(ch)
        } else {
            None
        };
        let dp2 = if ch == '(' {
            dp + 1
        } else if ch == ')' {
            if dp > 0 {
                dp - 1
            } else {
                0
            }
        } else {
            dp
        };
        let db2 = if ch == '{' {
            db + 1
        } else if ch == '}' {
            if db > 0 {
                db - 1
            } else {
                0
            }
        } else {
            db
        };
        lemma_split_scan_bounds(s, sep, i + 1, quote, false, dp, db);
        lemma_split_scan_bounds(s, sep, i + 1, quote, true, dp, db);
        lemma_split_scan_bounds(s, sep, i + 1, None, false, dp, db);
        lemma_split_scan_bounds(s, sep, i + 1, q2, false, dp2, db2);
    }
}

/// The first top-level occurrence of `sep` in `s` (see [`split_once`]).
pub fn split_once_exec(s: &[char], sep: &[char]) -> (r: Option<usize>)
    ensures
        match r {
            Some(k) => split_once(s@, sep@) == Some(k as int) && k + sep@.len() <= s@.len(),
            None => split_once(s@, sep@) is None,
        },
{
    if sep.len() == 0 {
        return None;
    }
    let mut quote: Option<char> = None;
    let mut esc = false;
    let mut dp: usize = 0;
    let mut db: usize = 0;
    let mut i: usize = 0;
    while i < s.len()
        invariant
            i <= s@.len(),
            dp <= i,
            db <= i,
            sep@.len() > 0,
            quote is None ==> !esc,
            split_once(s@, sep@) == split_scan(s@, sep@, i as int, quote, esc, dp as int, db as int),
        decreases s.len() - i,
    {
        let ch = s[i];
        match quote {
            Some(q) => {
                if esc {
                    esc = false;
                } else if ch == '\\' {
                    esc = true;
                } else if ch == q {
                    quote = None;
                }
            },
            None => {
                if ch == '\'' || ch == '"' || ch == '`' {
                    quote = Some(ch);
                }
                if ch == '(' {
                    dp = dp + 1;
                } else if ch == ')' {
                    if dp > 0 {
                        dp = dp - 1;
                    }
                }
                if ch == '{' {
                    db = db + 1;
                } else if ch == '}' {
                    if db > 0 {
                        db = db - 1;
                    }
                }
                if dp == 0 && db == 0 && matches_at_exec(s, sep, i) {
                    return Some(i);
                }
            },
        }
        i = i + 1;
    }
    None
}

/// The key of a nested translation: the trimmed token, unquoted when it is wrapped in
/// matching single or double quotes. A lone quote names no key.
pub open spec fn nested_token(token: Seq<char>) -> Option<Seq<char>> {
    let t = trim(token);
    if t.len() == 0 {
        None
    } else if (t[0] == '\'' && t.last() == '\'') || (t[0] == '"' && t.last() == '"') {
        if t.len() >= 2 {
            Some(t.subrange(1, t.len() - 1))
        } else {
            None
        }
    } else {
        Some(t)
    }
}

/// The key of a nested translation (see [`nested_token`]).
pub fn nested_token_exec(token: &[char]) -> (r: Option<Vec<char>>)
    ensures
        match r {
            Some(k) => nested_token(token@) == Some(k@),
            None => nested_token(token@) is None,
        },
{
    let t = trim_exec(token);
    let n = t.len();
    if n == 0 {
        return None;
    }
    if (t[0] == '\'' && t[n - 1] == '\'') || (t[0] == '"' && t[n - 1] == '"') {
        if n >= 2 {
            return Some(slice_vec(&t, 1, n - 1));
        }
        return None;
    }
    Some(t)
}

/// The keys one nested translation yields: plural keys when `count` is given, the context
/// variant when a context is given, the key itself otherwise.
pub open spec fn nested_token_keys(cx: ScanSettings, raw: Seq<char>, opts: Seq<char>) -> Seq<KeyView> {
    let (ns, base) = split_namespace(raw);
    let o = comment_options(opts);
    if o.3 {
        plural_keys(cx.plural, base, o.2, ns, None, o.4)
    } else {
        match o.2 {
            Some(c) => seq![kv(base + cx.plural.context_separator@ + c, ns, None)],
            None => seq![kv(base, ns, None)],
        }
    }
}

/// The key part and the options part of the inside of a nested translation.
pub open spec fn nested_parts(inner: Seq<char>, sep: Seq<char>) -> (Seq<char>, Seq<char>) {
    match split_once(inner, sep) {
        Some(i) => (inner.subrange(0, i), inner.subrange(i + sep.len(), inner.len() as int)),
        None => (inner, Seq::empty()),
    }
}

/// The keys of the nested translations in `text` from `cursor` on, in order (duplicates
/// kept).
pub open spec fn nested_from(cx: ScanSettings, text: Seq<char>, cursor: int) -> Seq<KeyView>
    decreases text.len() - cursor,
{
    let p = cx.nesting_prefix@;
    let sfx = cx.nesting_suffix@;
    if cursor < 0 || p.len() + sfx.len() == 0 {
        Seq::empty()
    } else {
        match find_from(text, p, cursor) {
            None => Seq::empty(),
            Some(st) => {
                let is = st + p.len();
                match find_from(text, sfx, is) {
                    None => Seq::empty(),
                    Some(ie) => {
                        proof {
                            lemma_find_from_bounds(text, p, cursor);
                            lemma_find_from_bounds(text, sfx, is);
                        }
                        let inner = trim(text.subrange(is, ie));
                        let parts = nested_parts(inner, cx.nesting_options_separator@);
                        let rest = nested_from(cx, text, ie + sfx.len());
                        match nested_token(trim(parts.0)) {
                            Some(raw) => nested_token_keys(cx, raw, parts.1) + rest,
                            None => rest,
                        }
                    },
                }
            },
        }
    }
}

/// Whether `keys` holds `key` in namespace `ns`.
pub open spec fn has_key(keys: Seq<KeyView>, key: Seq<char>, ns: Option<Seq<char>>) -> bool {
    exists|i: int| 0 <= i < keys.len() && keys[i].key == key && keys[i].namespace == ns
}

/// The first key of each (namespace, key) pair, in order.
pub open spec fn dedup_keys(s: Seq<KeyView>) -> Seq<KeyView>
    decreases s.len(),
{
    if s.len() == 0 {
        Seq::empty()
    } else if has_key(dedup_keys(s.drop_last()), s.last().key, s.last().namespace) {
        dedup_keys(s.drop_last())
    } else {
        dedup_keys(s.drop_last()).push(s.last())
    }
}

/// The keys of the nested translations in a text (`$t(key)`, `$t(ns:key, { count })`),
/// each (namespace, key) pair once.
pub open spec fn nested_keys(cx: ScanSettings, text: Seq<char>) -> Seq<KeyView> {
    dedup_keys(nested_from(cx, text, 0))
}

/// Whether `keys` holds `key` in namespace `ns`.
pub fn has_key_exec(keys: &Vec<ExtractedKey>, key: &[char], ns: &Option<String>) -> (r: bool)
    ensures
        r == has_key(key_views(keys@), key@, opt_view(*ns)),
{
    let mut i: usize = 0;
    while i < keys.len()
        invariant
            i <= keys@.len(),
            forall|j: int| 0 <= j < i ==> !(key_views(keys@)[j].key == key@ && key_views(keys@)[j].namespace == opt_view(*ns)),
        decreases keys.len() - i,
    {
        let k = &keys[i];
        assert(key_views(keys@)[i as int] == k@);
        let same_ns = match (&k.namespace, ns) {
            (Some(a), Some(b)) => *a == *b,
            (None, None) => true,
            _ => false,
        };
        if same_ns && crate::json::string_is(&k.key, key) {
            return true;
        }
        i = i + 1;
    }
    false
}

/// The keys one nested translation yields (see [`nested_token_keys`]), appended to `out`.
fn push_nested_token_keys(out: &mut Vec<ExtractedKey>, cx: &ScanSettings, raw: &[char], opts: &[char])
    ensures
        key_views(final(out)@) == key_views(old(out)@) + nested_token_keys(*cx, raw@, opts@),
{
    let (ns, base) = crate::keys::parse_key_with_namespace(string_of(raw).as_str());
    let base_c = chars_of(base.as_str());
    let o = comment_options_exec(string_of(opts).as_str());
    let none: Option<String> = None;
    if o.has_count {
        match &o.context {
            Some(c) => {
                let cc = chars_of(c.as_str());
                push_plural_keys(out, &cx.plural, &base_c, Some(cc.as_slice()), &ns, &none, o.has_ordinal);
            },
            None => {
                push_plural_keys(out, &cx.plural, &base_c, None, &ns, &none, o.has_ordinal);
            },
        }
    } else {
        let ghost start = key_views(out@);
        match &o.context {
            Some(c) => {
                let k = concat3(&base_c, &chars_of(cx.plural.context_separator.as_str()), &chars_of(c.as_str()));
                push_key(out, &k, &ns, &none);
            },
            None => {
                push_key(out, &base_c, &ns, &none);
            },
        }
        assert(key_views(out@) =~= start + nested_token_keys(*cx, raw@, opts@));
    }
}

/// The keys of the nested translations in `text` (see [`nested_keys`]), appended to `out`.
pub fn push_nested_keys(out: &mut Vec<ExtractedKey>, cx: &ScanSettings, text: &[char])
    requires
        cx.nesting_prefix@.len() + cx.nesting_suffix@.len() > 0,
    ensures
        key_views(final(out)@) == key_views(old(out)@) + nested_keys(*cx, text@),
{
    let p = chars_of(cx.nesting_prefix.as_str());
    let sfx = chars_of(cx.nesting_suffix.as_str());
    let sep = chars_of(cx.nesting_options_separator.as_str());
    let mut found: Vec<ExtractedKey> = Vec::new();
    let mut cursor: usize = 0;
    let n = text.len();
    loop
        invariant
            cursor <= n,
            n == text@.len(),
            p@ == cx.nesting_prefix@,
            sfx@ == cx.nesting_suffix@,
            sep@ == cx.nesting_options_separator@,
            p@.len() + sfx@.len() > 0,
            nested_from(*cx, text@, 0) == key_views(found@) + nested_from(*cx, text@, cursor as int),
        ensures
            nested_from(*cx, text@, 0) == key_views(found@),
        decreases n - cursor,
    {
        proof {
            lemma_find_from_bounds(text@, p@, cursor as int);
        }
        let st = match find_from_exec(text, &p, cursor) {
            Some(st) => st,
            None => {
                assert(nested_from(*cx, text@, cursor as int) == Seq::<KeyView>::empty());
                assert(key_views(found@) =~= key_views(found@) + Seq::<KeyView>::empty());
                break;
            },
        };
        let is = st + p.len();
        proof {
            lemma_find_from_bounds(text@, sfx@, is as int);
        }
        let ie = match find_from_exec(text, &sfx, is) {
            Some(ie) => ie,
            None => {
                assert(nested_from(*cx, text@, cursor as int) == Seq::<KeyView>::empty());
                assert(key_views(found@) =~= key_views(found@) + Seq::<KeyView>::empty());
                break;
            },
        };
        let inner = trim_exec(&slice_vec(text, is, ie));
        let ilen = inner.len();
        let (kp, op) = match split_once_exec(&inner, &sep) {
            Some(i) => (slice_vec(&inner, 0, i), slice_vec(&inner, i + sep.len(), ilen)),
            None => (slice_vec(&inner, 0, ilen), Vec::new()),
        };
        assert(inner@.subrange(0, inner@.len() as int) =~= inner@);
        assert(kp@ =~= nested_parts(inner@, sep@).0);
        assert(op@ =~= nested_parts(inner@, sep@).1);
        let ghost before = key_views(found@);
        match nested_token_exec(&trim_exec(&kp)) {
            Some(raw) => {
                push_nested_token_keys(&mut found, cx, &raw, &op);
            },
            None => {},
        }
        assert(key_views(found@) + nested_from(*cx, text@, ie + sfx@.len()) =~= before + nested_from(*cx, text@, cursor as int));
        cursor = ie + sfx.len();
    }
    let ghost all = key_views(found@);
    assert(all == nested_from(*cx, text@, 0));
    let mut uniq: Vec<ExtractedKey> = Vec::new();
    let mut i: usize = 0;
    while i < found.len()
        invariant
            i <= found@.len(),
            all == key_views(found@),
            key_views(uniq@) == dedup_keys(all.take(i as int)),
        decreases found.len() - i,
    {
        let k = &found[i];
        assert(all[i as int] == k@);
        let kc = chars_of(k.key.as_str());
        assert(all.take(i as int + 1).drop_last() =~= all.take(i as int));
        if !has_key_exec(&uniq, &kc, &k.namespace) {
            push_key(&mut uniq, &kc, &k.namespace, &k.default_value);
        }
        i = i + 1;
    }
    assert(all.take(all.len() as int) =~= all);
    let ghost start = key_views(out@);
    let ghost u = key_views(uniq@);
    out.append(&mut uniq);
    assert(key_views(out@) =~= start + u);
}


/// `t('key', {` in a comment: the key and the options object that follows.
pub open spec fn comment_options_pattern() -> Seq<char> {
    "(?s)(?:^|[^a-zA-Z_])t\\s*\\(\\s*['\"`]([^'\"`]+)['\"`]\\s*,\\s*(\\{)"@
}

/// `t('key', 'default')` in a comment.
pub open spec fn comment_default_pattern() -> Seq<char> {
    "(?:^|[^a-zA-Z_])t\\s*\\(\\s*['\"`]([^'\"`]+)['\"`]\\s*,\\s*['\"`]([^'\"`]+)['\"`]\\s*\\)"@
}

/// `t('key')` in a comment.
pub open spec fn comment_single_pattern() -> Seq<char> {
    "(?:^|[^a-zA-Z_])t\\s*\\(\\s*['\"`]([^'\"`]+)['\"`]\\s*\\)"@
}

/// The matches of a search (none when the pattern does not compile).
pub open spec fn all_matches(ms: Option<Seq<Seq<Option<(Seq<char>, Seq<char>)>>>>) -> Seq<Seq<Option<(Seq<char>, Seq<char>)>>> {
    match ms {
        Some(v) => v,
        None => Seq::empty(),
    }
}

/// The keys of one `t('key', { ... })` match: plural keys with `count`, the context variant
/// with `context`, the key otherwise; `ns` and `defaultValue` apply.
pub open spec fn options_match_keys(cx: ScanSettings, m: Seq<Option<(Seq<char>, Seq<char>)>>) -> Seq<KeyView> {
    match group_at(m, 1) {
        Some((key, _)) => match group_at(m, 2) {
            Some((_, tail)) => match braced_block(tail) {
                Some(block) => {
                    let o = comment_options(block);
                    let (nsk, base) = split_namespace(key);
                    let ns = or_else(o.1, nsk);
                    if o.3 {
                        plural_keys(cx.plural, base, o.2, ns, o.0, o.4)
                    } else {
                        match o.2 {
                            Some(c) => seq![kv(base + cx.plural.context_separator@ + c, ns, o.0)],
                            None => seq![kv(base, ns, o.0)],
                        }
                    }
                },
                None => Seq::empty(),
            },
            None => Seq::empty(),
        },
        None => Seq::empty(),
    }
}

/// The keys of the first `n` options matches.
pub open spec fn options_keys(cx: ScanSettings, ms: Seq<Seq<Option<(Seq<char>, Seq<char>)>>>, n: int) -> Seq<KeyView>
    decreases n,
{
    if n <= 0 {
        Seq::empty()
    } else {
        options_keys(cx, ms, n - 1) + options_match_keys(cx, ms[n - 1])
    }
}

/// `keys` after the first `n` matches of a key pattern, each adding its key (with group 2 as
/// default value when `with_default`) unless that key is already there.
pub open spec fn key_matches_fold(keys: Seq<KeyView>, ms: Seq<Seq<Option<(Seq<char>, Seq<char>)>>>, n: int, with_default: bool) -> Seq<KeyView>
    decreases n,
{
    if n <= 0 {
        keys
    } else {
        let k = key_matches_fold(keys, ms, n - 1, with_default);
        match group_at(ms[n - 1], 1) {
            Some((key, _)) => {
                let (ns, base) = split_namespace(key);
                if has_key(k, base, ns) {
                    k
                } else {
                    k.push(kv(base, ns, if with_default {
                        match group_at(ms[n - 1], 2) {
                            Some((t, _)) => Some(t),
                            None => None,
                        }
                    } else {
                        None
                    }))
                }
            },
            None => k,
        }
    }
}

/// `keys` after reading one comment: `t('key', { ... })` forms first, then `t('key',
/// 'default')`, then `t('key')`; the last two add only keys not found yet.
pub open spec fn comment_text_keys(cx: ScanSettings, keys: Seq<KeyView>, text: Seq<char>) -> Seq<KeyView> {
    let om = all_matches(regex_matches(comment_options_pattern(), text));
    let dm = all_matches(regex_matches(comment_default_pattern(), text));
    let sm = all_matches(regex_matches(comment_single_pattern(), text));
    let k1 = keys + options_keys(cx, om, om.len() as int);
    let k2 = key_matches_fold(k1, dm, dm.len() as int, true);
    key_matches_fold(k2, sm, sm.len() as int, false)
}

/// `keys` after reading the first `n` comments.
pub open spec fn comments_fold(cx: ScanSettings, keys: Seq<KeyView>, texts: Seq<Seq<char>>, n: int) -> Seq<KeyView>
    decreases n,
{
    if n <= 0 {
        keys
    } else {
        comment_text_keys(cx, comments_fold(cx, keys, texts, n - 1), texts[n - 1])
    }
}

/// The keys of one `t('key', { ... })` match, appended to `out`.
fn push_options_match_keys(out: &mut Vec<ExtractedKey>, cx: &ScanSettings, m: &Vec<Option<(String, String)>>)
    ensures
        key_views(final(out)@) == key_views(old(out)@) + options_match_keys(*cx, match_view(*m)),
{
    let ghost start = key_views(out@);
    let key = match group_exec(m, 1) {
        Some((k, _)) => k,
        None => {
            assert(key_views(out@) =~= start + Seq::<KeyView>::empty());
            return;
        },
    };
    let tail = match group_exec(m, 2) {
        Some((_, t)) => t,
        None => {
            assert(key_views(out@) =~= start + Seq::<KeyView>::empty());
            return;
        },
    };
    let block = match braced_block_exec(&chars_of(tail.as_str())) {
        Some(b) => b,
        None => {
            assert(key_views(out@) =~= start + Seq::<KeyView>::empty());
            return;
        },
    };
    let o = comment_options_exec(string_of(&block).as_str());
    let (nsk, base) = crate::keys::parse_key_with_namespace(key.as_str());
    let ns = match &o.namespace {
        Some(n) => Some(n.clone()),
        None => nsk,
    };
    let base_c = chars_of(base.as_str());
    if o.has_count {
        match &o.context {
            Some(c) => {
                let cc = chars_of(c.as_str());
                push_plural_keys(out, &cx.plural, &base_c, Some(cc.as_slice()), &ns, &o.default_value, o.has_ordinal);
            },
            None => {
                push_plural_keys(out, &cx.plural, &base_c, None, &ns, &o.default_value, o.has_ordinal);
            },
        }
    } else {
        match &o.context {
            Some(c) => {
                let k = concat3(&base_c, &chars_of(cx.plural.context_separator.as_str()), &chars_of(c.as_str()));
                push_key(out, &k, &ns, &o.default_value);
            },
            None => {
                push_key(out, &base_c, &ns, &o.default_value);
            },
        }
        assert(key_views(out@) =~= start + options_match_keys(*cx, match_view(*m)));
    }
}

/// `keys` after the matches of a key pattern (see [`key_matches_fold`]).
fn push_key_matches(out: &mut Vec<ExtractedKey>, ms: &Vec<Vec<Option<(String, String)>>>, with_default: bool)
    ensures
        key_views(final(out)@) == key_matches_fold(key_views(old(out)@), matches_view(ms@), ms@.len() as int, with_default),
{
    let ghost start = key_views(out@);
    let ghost mv = matches_view(ms@);
    let mut i: usize = 0;
    while i < ms.len()
        invariant
            i <= ms@.len(),
            mv == matches_view(ms@),
            key_views(out@) == key_matches_fold(start, mv, i as int, with_default),
        decreases ms.len() - i,
    {
        let m = &ms[i];
        assert(mv[i as int] == match_view(*m));
        match group_exec(m, 1) {
            Some((key, _)) => {
                let (ns, base) = crate::keys::parse_key_with_namespace(key.as_str());
                let base_c = chars_of(base.as_str());
                if !has_key_exec(out, &base_c, &ns) {
                    let dv = if with_default {
                        match group_exec(m, 2) {
                            Some((t, _)) => Some(t.clone()),
                            None => None,
                        }
                    } else {
                        None
                    };
                    push_key(out, &base_c, &ns, &dv);
                }
            },
            None => {},
        }
        i = i + 1;
    }
}

/// The matches of a pattern in a text (none when it does not compile).
fn all_matches_exec(pattern: &str, text: &str) -> (r: Vec<Vec<Option<(String, String)>>>)
    ensures
        matches_view(r@) == all_matches(regex_matches(pattern@, text@)),
{
    match regex_captures_all(pattern, text) {
        Some(v) => v,
        None => {
            let v: Vec<Vec<Option<(String, String)>>> = Vec::new();
            assert(matches_view(v@) =~= Seq::<Seq<Option<(Seq<char>, Seq<char>)>>>::empty());
            v
        },
    }
}

/// `keys` after reading one comment (see [`comment_text_keys`]).
pub fn push_comment_text_keys(out: &mut Vec<ExtractedKey>, cx: &ScanSettings, text: &str)
    ensures
        key_views(final(out)@) == comment_text_keys(*cx, key_views(old(out)@), text@),
{
    let om = all_matches_exec("(?s)(?:^|[^a-zA-Z_])t\\s*\\(\\s*['\"`]([^'\"`]+)['\"`]\\s*,\\s*(\\{)", text);
    let ghost start = key_views(out@);
    let ghost omv = matches_view(om@);
    let mut i: usize = 0;
    while i < om.len()
        invariant
            i <= om@.len(),
            omv == matches_view(om@),
            key_views(out@) == start + options_keys(*cx, omv, i as int),
        decreases om.len() - i,
    {
        assert(omv[i as int] == match_view(om@[i as int]));
        let ghost before = key_views(out@);
        push_options_match_keys(out, cx, &om[i]);
        assert(key_views(out@) =~= start + options_keys(*cx, omv, i as int + 1));
        i = i + 1;
    }
    let dm = all_matches_exec("(?:^|[^a-zA-Z_])t\\s*\\(\\s*['\"`]([^'\"`]+)['\"`]\\s*,\\s*['\"`]([^'\"`]+)['\"`]\\s*\\)", text);
    push_key_matches(out, &dm, true);
    let sm = all_matches_exec("(?:^|[^a-zA-Z_])t\\s*\\(\\s*['\"`]([^'\"`]+)['\"`]\\s*\\)", text);
    push_key_matches(out, &sm, false);
}

/// `keys` after reading the given comments in order (see [`comments_fold`]).
pub fn push_comments_keys(out: &mut Vec<ExtractedKey>, cx: &ScanSettings, texts: &Vec<String>)
    ensures
        key_views(final(out)@) == comments_fold(*cx, key_views(old(out)@), crate::text::views(texts@), texts@.len() as int),
{
    let ghost start = key_views(out@);
    let ghost tv = crate::text::views(texts@);
    let mut i: usize = 0;
    while i < texts.len()
        invariant
            i <= texts@.len(),
            tv == crate::text::views(texts@),
            key_views(out@) == comments_fold(*cx, start, tv, i as int),
        decreases texts.len() - i,
    {
        assert(tv[i as int] == texts@[i as int]@);
        push_comment_text_keys(out, cx, texts[i].as_str());
        i = i + 1;
    }
}

} // verus!
