//! Translation keys: their form, their namespace, and their plural and context variants.
use crate::config::{PluralConfig, UseTranslationName};
use crate::text::{chars_of, concat2, concat3, find_from, find_from_exec, slice_vec, string_of, views};
use unicode_normalization::UnicodeNormalization;
use vstd::prelude::*;

verus! {

/// A translation key found in source code.
#[derive(Debug, Clone, PartialEq, Eq, Hash)]
pub struct ExtractedKey {
    pub key: String,
    pub namespace: Option<String>,
    pub default_value: Option<String>,
}

/// The mathematical content of an [`ExtractedKey`].
pub struct KeyView {
    pub key: Seq<char>,
    pub namespace: Option<Seq<char>>,
    pub default_value: Option<Seq<char>>,
}

/// The characters of an optional string.
pub open spec fn opt_view(o: Option<String>) -> Option<Seq<char>> {
    match o {
        Some(s) => Some(s@),
        None => None,
    }
}

impl View for ExtractedKey {
    type V = KeyView;

    open spec fn view(&self) -> KeyView {
        KeyView { key: self.key@, namespace: opt_view(self.namespace), default_value: opt_view(self.default_value) }
    }
}

/// The views of a list of keys.
pub open spec fn key_views(ks: Seq<ExtractedKey>) -> Seq<KeyView> {
    ks.map_values(|k: ExtractedKey| k@)
}

/// A key with its namespace and default value.
pub open spec fn kv(key: Seq<char>, ns: Option<Seq<char>>, dv: Option<Seq<char>>) -> KeyView {
    KeyView { key, namespace: ns, default_value: dv }
}

/// A copy of an optional string.
pub fn clone_opt(o: &Option<String>) -> (r: Option<String>)
    ensures
        opt_view(r) == opt_view(*o),
{
    match o {
        Some(s) => Some(s.clone()),
        None => None,
    }
}

/// Appends one key to `out`.
pub fn push_key(out: &mut Vec<ExtractedKey>, key: &[char], ns: &Option<String>, dv: &Option<String>)
    ensures
        key_views(final(out)@) == key_views(old(out)@).push(kv(key@, opt_view(*ns), opt_view(*dv))),
{
    let k = ExtractedKey { key: string_of(key), namespace: clone_opt(ns), default_value: clone_opt(dv) };
    out.push(k);
    assert(key_views(out@) =~= key_views(old(out)@).push(kv(key@, opt_view(*ns), opt_view(*dv))));
}

/// The canonical (NFC) Unicode normalization of a text, as `unicode_normalization` computes it.
pub uninterp spec fn nfc(s: Seq<char>) -> Seq<char>;

/// NFC normalization (`UnicodeNormalization::nfc` from `unicode_normalization`); the result
/// is named, not described.
#[verifier::external_body]
fn to_nfc(s: &str) -> (r: String)
    ensures
        r@ == nfc(s@),
{
    s.nfc().collect()
}

/// `ns:key` split at the first colon after NFC normalization: the namespace, if any, and the
/// key.
pub open spec fn split_namespace(key: Seq<char>) -> (Option<Seq<char>>, Seq<char>) {
    let n = nfc(key);
    match find_from(n, seq![':'], 0) {
        Some(i) => (Some(n.subrange(0, i)), n.subrange(i + 1, n.len() as int)),
        None => (None, n),
    }
}

/// Splits `ns:key` at the first colon, after normalizing the text to NFC.
pub fn parse_key_with_namespace(key: &str) -> (r: (Option<String>, String))
    ensures
        (opt_view(r.0), r.1@) == split_namespace(key@),
{
    let n = to_nfc(key);
    let nc = chars_of(n.as_str());
    let colon = vec![':'];
    assert(colon@ =~= seq![':']);
    match find_from_exec(&nc, &colon, 0) {
        Some(i) => {
            proof {
                crate::text::lemma_find_from_bounds(nc@, colon@, 0);
                assert(colon@.len() == 1);
                assert(i + 1 <= nc@.len());
            }
            let len = nc.len();
            let ns = slice_vec(&nc, 0, i);
            let rest = slice_vec(&nc, i + 1, len);
            (Some(string_of(&ns)), string_of(&rest))
        },
        None => (None, n),
    }
}

/// `base`, followed by the context separator and the context when there is one.
pub open spec fn with_context(base: Seq<char>, ctx: Option<Seq<char>>, sep: Seq<char>) -> Seq<char> {
    match ctx {
        Some(c) => base + sep + c,
        None => base,
    }
}

/// A plural category as it appears in a key (`ordinal_` in front for ordinal plurals).
pub open spec fn plural_suffix(category: Seq<char>, ordinal: bool) -> Seq<char> {
    if ordinal {
        "ordinal_"@ + category
    } else {
        category
    }
}

/// Whether the configured categories are `other` alone (a language without plural forms).
pub open spec fn single_category(pc: PluralConfig) -> bool {
    views(pc.suffixes@).len() == 1 && views(pc.suffixes@)[0] == "other"@
}

/// The keys of a plural: the base (with its context) when configured, then one key per
/// category. A language whose only category is `other` gets the base key alone.
pub open spec fn plural_keys(
    pc: PluralConfig,
    base: Seq<char>,
    ctx: Option<Seq<char>>,
    ns: Option<Seq<char>>,
    dv: Option<Seq<char>>,
    ordinal: bool,
) -> Seq<KeyView> {
    let stem = with_context(base, ctx, pc.context_separator@);
    if single_category(pc) {
        seq![kv(stem, ns, dv)]
    } else {
        (if pc.generate_base {
            seq![kv(stem, ns, dv)]
        } else {
            Seq::empty()
        }) + views(pc.suffixes@).map_values(
            |c: Seq<char>| kv(stem + pc.separator@ + plural_suffix(c, ordinal), ns, dv),
        )
    }
}

/// Appends `base` with the context separator and `ctx` (when given) to `out`.
pub fn with_context_exec(base: &[char], ctx: Option<&[char]>, sep: &[char]) -> (r: Vec<char>)
    ensures
        r@ == with_context(base@, match ctx {
            Some(c) => Some(c@),
            None => None,
        }, sep@),
{
    match ctx {
        Some(c) => concat3(base, sep, c),
        None => slice_vec(base, 0, base.len()),
    }
}

/// The plural keys of `base` (see [`plural_keys`]), appended to `out`.
pub fn push_plural_keys(
    out: &mut Vec<ExtractedKey>,
    pc: &PluralConfig,
    base: &[char],
    ctx: Option<&[char]>,
    ns: &Option<String>,
    dv: &Option<String>,
    ordinal: bool,
)
    ensures
        key_views(final(out)@) == key_views(old(out)@) + plural_keys(*pc, base@, match ctx {
            Some(c) => Some(c@),
            None => None,
        }, opt_view(*ns), opt_view(*dv), ordinal),
{
    let ghost octx = match ctx {
        Some(c) => Some(c@),
        None => None,
    };
    let csep = chars_of(pc.context_separator.as_str());
    let stem = with_context_exec(base, ctx, &csep);
    assert(stem@ == with_context(base@, octx, pc.context_separator@));
    let single = pc.suffixes.len() == 1 && crate::json::string_is(&pc.suffixes[0], &chars_of("other"));
    proof {
        assert(views(pc.suffixes@).len() == pc.suffixes@.len());
        if pc.suffixes@.len() == 1 {
            assert(views(pc.suffixes@)[0] == pc.suffixes@[0]@);
        }
    }
    if single {
        push_key(out, &stem, ns, dv);
        assert(plural_keys(*pc, base@, octx, opt_view(*ns), opt_view(*dv), ordinal) =~= seq![kv(stem@, opt_view(*ns), opt_view(*dv))]);
        return;
    }
    let ghost start = key_views(out@);
    let ghost head: Seq<KeyView> = if pc.generate_base {
        seq![kv(stem@, opt_view(*ns), opt_view(*dv))]
    } else {
        Seq::empty()
    };
    if pc.generate_base {
        push_key(out, &stem, ns, dv);
    }
    assert(key_views(out@) =~= start + head);
    let psep = chars_of(pc.separator.as_str());
    let ghost f = |c: Seq<char>| kv(stem@ + pc.separator@ + plural_suffix(c, ordinal), opt_view(*ns), opt_view(*dv));
    let mut i: usize = 0;
    while i < pc.suffixes.len()
        invariant
            i <= pc.suffixes@.len(),
            psep@ == pc.separator@,
            key_views(out@) == start + head + views(pc.suffixes@).take(i as int).map_values(f),
            f == (|c: Seq<char>| kv(stem@ + pc.separator@ + plural_suffix(c, ordinal), opt_view(*ns), opt_view(*dv))),
        decreases pc.suffixes.len() - i,
    {
        let cat = chars_of(pc.suffixes[i].as_str());
        let sfx = if ordinal {
            concat2(&chars_of("ordinal_"), &cat)
        } else {
            cat
        };
        assert(sfx@ == plural_suffix(pc.suffixes@[i as int]@, ordinal));
        let key = concat3(&stem, &psep, &sfx);
        push_key(out, &key, ns, dv);
        proof {
            assert(views(pc.suffixes@)[i as int] == pc.suffixes@[i as int]@);
            assert(views(pc.suffixes@).take(i as int + 1) =~= views(pc.suffixes@).take(i as int).push(pc.suffixes@[i as int]@));
            assert(views(pc.suffixes@).take(i as int + 1).map_values(f) =~= views(pc.suffixes@).take(i as int).map_values(f).push(f(pc.suffixes@[i as int]@)));
        }
        i = i + 1;
    }
    assert(views(pc.suffixes@).take(pc.suffixes@.len() as int) =~= views(pc.suffixes@));
}


/// What is known of a context option: its possible values, and whether it is computed at
/// run time (then the bare key is needed too).
#[derive(Debug, Clone)]
pub struct ContextInfo {
    pub values: Vec<String>,
    pub is_dynamic: bool,
}

/// The values and the dynamic flag of a context.
pub open spec fn ctx_view(info: ContextInfo) -> (Seq<Seq<char>>, bool) {
    (views(info.values@), info.is_dynamic)
}

/// The values and the dynamic flag of an optional context.
pub open spec fn opt_ctx_view(info: Option<ContextInfo>) -> Option<(Seq<Seq<char>>, bool)> {
    match info {
        Some(i) => Some(ctx_view(i)),
        None => None,
    }
}

/// Keys for a context: one per known value, and the bare key when the context is dynamic;
/// the bare key alone when no value is known.
pub open spec fn context_keys(
    sep: Seq<char>,
    base: Seq<char>,
    ns: Option<Seq<char>>,
    dv: Option<Seq<char>>,
    values: Seq<Seq<char>>,
    dynamic: bool,
) -> Seq<KeyView> {
    if values.len() == 0 {
        seq![kv(base, ns, dv)]
    } else {
        values.map_values(|c: Seq<char>| kv(base + sep + c, ns, dv)) + (if dynamic {
            seq![kv(base, ns, dv)]
        } else {
            Seq::empty()
        })
    }
}

/// The plural keys of `base` for each context value, in order.
pub open spec fn ctx_plural_keys(
    pc: PluralConfig,
    base: Seq<char>,
    ns: Option<Seq<char>>,
    dv: Option<Seq<char>>,
    values: Seq<Seq<char>>,
    ordinal: bool,
) -> Seq<KeyView>
    decreases values.len(),
{
    if values.len() == 0 {
        Seq::empty()
    } else {
        ctx_plural_keys(pc, base, ns, dv, values.drop_last(), ordinal) + plural_keys(
            pc,
            base,
            Some(values.last()),
            ns,
            dv,
            ordinal,
        )
    }
}

/// The plural keys of `base` combined with a context: per known value, and without context
/// when the context is dynamic; without context alone when no value is known.
pub open spec fn plural_keys_with_context(
    pc: PluralConfig,
    base: Seq<char>,
    ns: Option<Seq<char>>,
    dv: Option<Seq<char>>,
    info: Option<(Seq<Seq<char>>, bool)>,
    ordinal: bool,
) -> Seq<KeyView> {
    match info {
        Some((values, dynamic)) => if values.len() > 0 {
            ctx_plural_keys(pc, base, ns, dv, values, ordinal) + (if dynamic {
                plural_keys(pc, base, None, ns, dv, ordinal)
            } else {
                Seq::empty()
            })
        } else {
            plural_keys(pc, base, None, ns, dv, ordinal)
        },
        None => plural_keys(pc, base, None, ns, dv, ordinal),
    }
}

/// The context keys of `base` (see [`context_keys`]), appended to `out`.
pub fn push_context_keys(
    out: &mut Vec<ExtractedKey>,
    sep: &[char],
    base: &[char],
    ns: &Option<String>,
    dv: &Option<String>,
    info: &ContextInfo,
)
    ensures
        key_views(final(out)@) == key_views(old(out)@) + context_keys(sep@, base@, opt_view(*ns), opt_view(*dv), views(info.values@), info.is_dynamic),
{
    let ghost start = key_views(out@);
    let ghost vals = views(info.values@);
    if info.values.len() == 0 {
        push_key(out, base, ns, dv);
        assert(context_keys(sep@, base@, opt_view(*ns), opt_view(*dv), vals, info.is_dynamic) =~= seq![kv(base@, opt_view(*ns), opt_view(*dv))]);
        return;
    }
    let ghost f = |c: Seq<char>| kv(base@ + sep@ + c, opt_view(*ns), opt_view(*dv));
    let mut i: usize = 0;
    while i < info.values.len()
        invariant
            i <= info.values@.len(),
            vals == views(info.values@),
            key_views(out@) == start + vals.take(i as int).map_values(f),
            f == (|c: Seq<char>| kv(base@ + sep@ + c, opt_view(*ns), opt_view(*dv))),
        decreases info.values.len() - i,
    {
        let c = chars_of(info.values[i].as_str());
        let key = concat3(base, sep, &c);
        push_key(out, &key, ns, dv);
        proof {
            assert(vals[i as int] == info.values@[i as int]@);
            assert(vals.take(i as int + 1) =~= vals.take(i as int).push(vals[i as int]));
            assert(vals.take(i as int + 1).map_values(f) =~= vals.take(i as int).map_values(f).push(f(vals[i as int])));
        }
        i = i + 1;
    }
    assert(vals.take(vals.len() as int) =~= vals);
    let ghost mid = key_views(out@);
    if info.is_dynamic {
        push_key(out, base, ns, dv);
    }
    assert(key_views(out@) =~= start + context_keys(sep@, base@, opt_view(*ns), opt_view(*dv), vals, info.is_dynamic));
}

/// The plural keys of `base` combined with a context (see [`plural_keys_with_context`]),
/// appended to `out`.
pub fn push_plural_keys_with_context(
    out: &mut Vec<ExtractedKey>,
    pc: &PluralConfig,
    base: &[char],
    ns: &Option<String>,
    dv: &Option<String>,
    info: &Option<ContextInfo>,
    ordinal: bool,
)
    ensures
        key_views(final(out)@) == key_views(old(out)@) + plural_keys_with_context(*pc, base@, opt_view(*ns), opt_view(*dv), opt_ctx_view(*info), ordinal),
{
    let ghost start = key_views(out@);
    let ghost nsv = opt_view(*ns);
    let ghost dvv = opt_view(*dv);
    match info {
        Some(ci) => {
            if ci.values.len() > 0 {
                let ghost vals = views(ci.values@);
                let mut i: usize = 0;
                while i < ci.values.len()
                    invariant
                        i <= ci.values@.len(),
                        vals == views(ci.values@),
                        key_views(out@) == start + ctx_plural_keys(*pc, base@, nsv, dvv, vals.take(i as int), ordinal),
                        nsv == opt_view(*ns),
                        dvv == opt_view(*dv),
                    decreases ci.values.len() - i,
                {
                    let c = chars_of(ci.values[i].as_str());
                    push_plural_keys(out, pc, base, Some(c.as_slice()), ns, dv, ordinal);
                    proof {
                        assert(vals[i as int] == ci.values@[i as int]@);
                        assert(vals.take(i as int + 1).drop_last() =~= vals.take(i as int));
                        assert(vals.take(i as int + 1).last() == c@);
                        assert(key_views(out@) =~= start + ctx_plural_keys(*pc, base@, nsv, dvv, vals.take(i as int + 1), ordinal));
                    }
                    i = i + 1;
                }
                assert(vals.take(vals.len() as int) =~= vals);
                let ghost mid = key_views(out@);
                if ci.is_dynamic {
                    push_plural_keys(out, pc, base, None, ns, dv, ordinal);
                }
                assert(key_views(out@) =~= start + plural_keys_with_context(*pc, base@, nsv, dvv, opt_ctx_view(*info), ordinal));
            } else {
                push_plural_keys(out, pc, base, None, ns, dv, ordinal);
            }
        },
        None => {
            push_plural_keys(out, pc, base, None, ns, dv, ordinal);
        },
    }
}


/// What a scan looks for and how it names what it finds.
#[derive(Debug, Clone)]
pub struct ScanSettings {
    /// Translation functions, as `t` or `obj.t`.
    pub functions: Vec<String>,
    /// Component names treated as `<Trans>`.
    pub trans_components: Vec<String>,
    /// Hooks that return a bound translation function.
    pub use_translation_names: Vec<UseTranslationName>,
    /// Whether keys are also read from comments.
    pub extract_from_comments: bool,
    pub plural: PluralConfig,
    /// How a nested translation starts inside a default value (`$t(`).
    pub nesting_prefix: String,
    /// How a nested translation ends (`)`).
    pub nesting_suffix: String,
    /// What separates a nested key from its options (`,`).
    pub nesting_options_separator: String,
}

} // verus!
