//! Extraction over many files: ignore patterns, per-file outcomes, and their totals.
use crate::components::{file_result, scan_file_with, template_settings, template_settings_exec};
use crate::config::{glob_check, glob_pattern_error, PluralConfig};
use crate::config::UseTranslationName;
use crate::extractor::{default_settings, default_settings_for, settings_exec, settings_from, ExtractedKey, ExtractionError, ExtractionResult, SourcePosition};
use crate::keys::{key_views, KeyView, ScanSettings};
use crate::text::{chars_of, concat2, string_of, views};
use vstd::prelude::*;

verus! {

/// Whether a path matches a glob pattern, as `glob::Pattern::matches` decides it.
pub uninterp spec fn glob_matches_path(pattern: Seq<char>, path: Seq<char>) -> bool;

/// Compiles a glob pattern and matches a path against it (`glob::Pattern::new`, then
/// `glob::Pattern::matches`); the result is named, not described.
#[verifier::external_body]
pub(crate) fn glob_matches(pattern: &str, path: &str) -> (r: bool)
    requires
        glob_pattern_error(pattern@) is None,
    ensures
        r == glob_matches_path(pattern@, path@),
{
    match glob::Pattern::new(pattern) {
        Ok(p) => p.matches(path),
        Err(_) => false,
    }
}

/// One entry met while walking the input patterns.
#[derive(Debug, Clone)]
pub enum GlobItem {
    /// A file that matched, with its text, or `None` when it could not be read.
    File { path: String, contents: Option<String> },
    /// A walk that failed on one entry of a pattern.
    GlobError { pattern: String, message: String },
    /// A pattern that is not a valid glob.
    PatternError { pattern: String, message: String },
}

/// What one entry gives.
#[derive(Debug)]
pub enum FileOutcome {
    /// A file with at least one key.
    Success { file_path: String, keys: Vec<ExtractedKey>, warnings: Vec<SourcePosition> },
    /// An entry that failed.
    Error(ExtractionError),
    /// A file without keys.
    Empty { warnings: Vec<SourcePosition> },
}

/// Why a batch extraction could not start.
#[derive(Debug, Clone)]
pub enum GlobFailure {
    /// An ignore pattern that does not compile, with the glob error's text.
    InvalidIgnorePattern { pattern: String, message: String },
    /// An input pattern that is not a valid glob, with the walk's error text.
    InvalidPattern { pattern: String, message: String },
}

/// The mathematical content of a [`FileOutcome`].
pub enum OutcomeView {
    Success(Seq<char>, Seq<KeyView>, nat),
    Error(Seq<char>, Seq<char>),
    Empty(nat),
}

/// The content of an outcome.
pub open spec fn outcome_view(o: FileOutcome) -> OutcomeView {
    match o {
        FileOutcome::Success { file_path, keys, warnings } => OutcomeView::Success(file_path@, key_views(keys@), warnings@.len()),
        FileOutcome::Error(e) => OutcomeView::Error(e.file_path@, e.message@),
        FileOutcome::Empty { warnings } => OutcomeView::Empty(warnings@.len()),
    }
}

/// The contents of a list of outcomes.
pub open spec fn outcome_views(s: Seq<FileOutcome>) -> Seq<OutcomeView> {
    s.map_values(|o: FileOutcome| outcome_view(o))
}

/// Whether a path matches one of the ignore patterns.
pub open spec fn ignored(ignore: Seq<Seq<char>>, path: Seq<char>) -> bool {
    exists|i: int| 0 <= i < ignore.len() && #[trigger] glob_matches_path(ignore[i], path)
}

/// Whether every ignore pattern compiles.
pub open spec fn all_compile(ignore: Seq<Seq<char>>) -> bool {
    forall|i: int| 0 <= i < ignore.len() ==> #[trigger] glob_pattern_error(ignore[i]) is None
}

/// The first ignore pattern that does not compile, with its error, if any.
pub open spec fn first_bad_ignore(ignore: Seq<Seq<char>>) -> Option<(Seq<char>, Seq<char>)>
    decreases ignore.len(),
{
    if ignore.len() == 0 {
        None
    } else {
        match first_bad_ignore(ignore.drop_last()) {
            Some(b) => Some(b),
            None => match glob_pattern_error(ignore.last()) {
                Some(m) => Some((ignore.last(), m)),
                None => None,
            },
        }
    }
}

/// What a file's keys and warning count make of it: empty when it has no key.
pub open spec fn file_outcome(path: Seq<char>, found: (Seq<KeyView>, nat)) -> OutcomeView {
    if found.0.len() == 0 {
        OutcomeView::Empty(found.1)
    } else {
        OutcomeView::Success(path, found.0, found.1)
    }
}

/// What one entry gives: a file's keys (or the failure to read it), or an error naming the
/// pattern whose walk failed.
pub open spec fn item_outcome(cx: ScanSettings, tpl: ScanSettings, item: GlobItem) -> OutcomeView {
    match item {
        GlobItem::File { path, contents } => match contents {
            Some(src) => file_outcome(path@, file_result(cx, tpl, path@, src@)),
            None => OutcomeView::Error(path@, "Failed to read file: "@ + path@),
        },
        GlobItem::GlobError { pattern, message } => OutcomeView::Error(pattern@, "Glob error: "@ + message@),
        GlobItem::PatternError { pattern, message } => OutcomeView::Error(pattern@, "Invalid glob pattern: "@ + message@),
    }
}

/// Whether an entry is a file that an ignore pattern excludes.
pub open spec fn skipped(ignore: Seq<Seq<char>>, item: GlobItem) -> bool {
    item matches GlobItem::File { path, .. } && ignored(ignore, path@)
}

/// The outcomes of the first `n` entries, ignored files left out.
pub open spec fn outcomes(cx: ScanSettings, tpl: ScanSettings, ignore: Seq<Seq<char>>, items: Seq<GlobItem>, n: int) -> Seq<OutcomeView>
    decreases n,
{
    if n <= 0 {
        Seq::empty()
    } else if skipped(ignore, items[n - 1]) {
        outcomes(cx, tpl, ignore, items, n - 1)
    } else {
        outcomes(cx, tpl, ignore, items, n - 1).push(item_outcome(cx, tpl, items[n - 1]))
    }
}

/// The files with keys, in order.
pub open spec fn successes(outs: Seq<OutcomeView>) -> Seq<(Seq<char>, Seq<KeyView>)>
    decreases outs.len(),
{
    if outs.len() == 0 {
        Seq::empty()
    } else {
        match outs.last() {
            OutcomeView::Success(p, k, _) => successes(outs.drop_last()).push((p, k)),
            _ => successes(outs.drop_last()),
        }
    }
}

/// The errors, in order.
pub open spec fn failures(outs: Seq<OutcomeView>) -> Seq<(Seq<char>, Seq<char>)>
    decreases outs.len(),
{
    if outs.len() == 0 {
        Seq::empty()
    } else {
        match outs.last() {
            OutcomeView::Error(p, m) => failures(outs.drop_last()).push((p, m)),
            _ => failures(outs.drop_last()),
        }
    }
}

/// The warnings of an outcome: its own for a file, one for an error.
pub open spec fn outcome_warnings(o: OutcomeView) -> nat {
    match o {
        OutcomeView::Success(_, _, w) => w,
        OutcomeView::Error(_, _) => 1,
        OutcomeView::Empty(w) => w,
    }
}

/// The warnings of all outcomes.
pub open spec fn total_warnings(outs: Seq<OutcomeView>) -> nat
    decreases outs.len(),
{
    if outs.len() == 0 {
        0
    } else {
        total_warnings(outs.drop_last()) + outcome_warnings(outs.last())
    }
}

/// A count as a `usize` would hold it: capped at `usize::MAX`.
pub open spec fn capped(n: nat) -> nat {
    if n <= usize::MAX {
        n
    } else {
        usize::MAX as nat
    }
}

/// The mathematical content of an [`ExtractionError`].
pub open spec fn error_view(e: ExtractionError) -> (Seq<char>, Seq<char>) {
    (e.file_path@, e.message@)
}

/// The contents of a list of errors.
pub open spec fn error_views(s: Seq<ExtractionError>) -> Seq<(Seq<char>, Seq<char>)> {
    s.map_values(|e: ExtractionError| error_view(e))
}

/// The contents of the files of a result.
pub open spec fn file_views(s: Seq<(String, Vec<ExtractedKey>)>) -> Seq<(Seq<char>, Seq<KeyView>)> {
    s.map_values(|f: (String, Vec<ExtractedKey>)| (f.0@, key_views(f.1@)))
}

/// Whether a result holds the totals of a list of outcomes: the files with keys, the
/// errors, and the warnings (capped at `usize::MAX`).
pub open spec fn totals_of(r: ExtractionResult, outs: Seq<OutcomeView>) -> bool {
    &&& file_views(r.files@) == successes(outs)
    &&& error_views(r.errors@) == failures(outs)
    &&& r.warning_count == capped(total_warnings(outs))
}

/// The warnings of the files among the outcomes, those without keys included.
pub open spec fn file_warnings(outs: Seq<OutcomeView>) -> nat
    decreases outs.len(),
{
    if outs.len() == 0 {
        0
    } else {
        file_warnings(outs.drop_last()) + match outs.last() {
            OutcomeView::Error(_, _) => 0nat,
            o => outcome_warnings(o),
        }
    }
}

/// The warning total of a list of outcomes is the files' own warnings and one per error.
pub proof fn lemma_warnings_split(outs: Seq<OutcomeView>)
    ensures
        total_warnings(outs) == file_warnings(outs) + failures(outs).len(),
    decreases outs.len(),
{
    if outs.len() > 0 {
        lemma_warnings_split(outs.drop_last());
    }
}

/// Every file among the outcomes of a walk has at least one key.
pub proof fn lemma_successes_have_keys(cx: ScanSettings, tpl: ScanSettings, ignore: Seq<Seq<char>>, items: Seq<GlobItem>, n: int)
    ensures
        forall|j: int| 0 <= j < successes(outcomes(cx, tpl, ignore, items, n)).len()
            ==> #[trigger] successes(outcomes(cx, tpl, ignore, items, n))[j].1.len() > 0,
    decreases n,
{
    if n > 0 {
        lemma_successes_have_keys(cx, tpl, ignore, items, n - 1);
        let prev = outcomes(cx, tpl, ignore, items, n - 1);
        if !skipped(ignore, items[n - 1]) {
            let o = item_outcome(cx, tpl, items[n - 1]);
            assert(outcomes(cx, tpl, ignore, items, n).drop_last() =~= prev);
            match o {
                OutcomeView::Success(p, k, w) => {
                    assert(k.len() > 0);
                    assert(successes(outcomes(cx, tpl, ignore, items, n)) =~= successes(prev).push((p, k)));
                },
                _ => {
                    assert(successes(outcomes(cx, tpl, ignore, items, n)) =~= successes(prev));
                },
            }
        }
    }
}

/// What an extraction over a walk gives (the result of [`extract_from_glob_with_options`]
/// and the other extractions from walks): every file it lists has at least one key, and its
/// warning count is the warnings of every file read (those without keys included) plus one
/// per error, capped at `usize::MAX`.
pub proof fn lemma_extraction_totals(res: ExtractionResult, cx: ScanSettings, tpl: ScanSettings, ignore: Seq<Seq<char>>, items: Seq<GlobItem>)
    requires
        totals_of(res, outcomes(cx, tpl, ignore, items, items.len() as int)),
    ensures
        forall|j: int| 0 <= j < res.files@.len() ==> (#[trigger] res.files@[j]).1@.len() > 0,
        res.warning_count == capped(file_warnings(outcomes(cx, tpl, ignore, items, items.len() as int)) + res.errors@.len()),
{
    let outs = outcomes(cx, tpl, ignore, items, items.len() as int);
    lemma_successes_have_keys(cx, tpl, ignore, items, items.len() as int);
    lemma_warnings_split(outs);
    assert(error_views(res.errors@).len() == res.errors@.len());
    assert forall|j: int| 0 <= j < res.files@.len() implies (#[trigger] res.files@[j]).1@.len() > 0 by {
        assert(file_views(res.files@).len() == res.files@.len());
        assert(file_views(res.files@)[j] == (res.files@[j].0@, key_views(res.files@[j].1@)));
        assert(successes(outs)[j].1.len() > 0);
        assert(key_views(res.files@[j].1@).len() == res.files@[j].1@.len());
    }
}

/// Checks that every ignore pattern compiles.
pub fn compile_ignore_patterns(patterns: &[String]) -> (r: Result<(), GlobFailure>)
    ensures
        match r {
            Ok(()) => first_bad_ignore(views(patterns@)) is None,
            Err(GlobFailure::InvalidIgnorePattern { pattern, message }) => first_bad_ignore(views(patterns@)) == Some((pattern@, message@)),
            Err(_) => false,
        },
        r is Ok <==> all_compile(views(patterns@)),
{
    let ghost pv = views(patterns@);
    let mut i: usize = 0;
    while i < patterns.len()
        invariant
            i <= patterns@.len(),
            pv == views(patterns@),
            first_bad_ignore(pv.take(i as int)) is None,
            all_compile(pv.take(i as int)),
        decreases patterns.len() - i,
    {
        let ghost t = pv.take(i as int + 1);
        assert(t.drop_last() =~= pv.take(i as int));
        assert(t.last() == patterns@[i as int]@);
        match glob_check(patterns[i].as_str()) {
            Some(m) => {
                proof {
                    lemma_first_bad_prefix(pv, i as int + 1);
                    assert(!all_compile(pv)) by {
                        assert(glob_pattern_error(pv[i as int]) is Some);
                    }
                }
                return Err(GlobFailure::InvalidIgnorePattern { pattern: patterns[i].clone(), message: m });
            },
            None => {
                assert forall|j: int| 0 <= j < t.len() implies #[trigger] glob_pattern_error(t[j]) is None by {
                    if j < i {
                        assert(t[j] == pv.take(i as int)[j]);
                    }
                }
            },
        }
        i = i + 1;
    }
    assert(pv.take(patterns@.len() as int) =~= pv);
    Ok(())
}

/// The first bad ignore pattern of a prefix is that of the whole list.
proof fn lemma_first_bad_prefix(s: Seq<Seq<char>>, n: int)
    requires
        0 <= n <= s.len(),
        first_bad_ignore(s.take(n)) is Some,
    ensures
        first_bad_ignore(s) == first_bad_ignore(s.take(n)),
    decreases s.len() - n,
{
    if n < s.len() {
        let t = s.take(n + 1);
        assert(t.drop_last() =~= s.take(n));
        lemma_first_bad_prefix(s, n + 1);
    } else {
        assert(s.take(n) =~= s);
    }
}

/// Whether a path matches one of the ignore patterns (each of which compiles).
pub fn matches_ignore_path(path: &str, patterns: &[String]) -> (r: bool)
    requires
        all_compile(views(patterns@)),
    ensures
        r == ignored(views(patterns@), path@),
{
    let ghost pv = views(patterns@);
    let mut i: usize = 0;
    while i < patterns.len()
        invariant
            i <= patterns@.len(),
            pv == views(patterns@),
            all_compile(pv),
            forall|j: int| 0 <= j < i ==> !#[trigger] glob_matches_path(pv[j], path@),
        decreases patterns.len() - i,
    {
        assert(pv[i as int] == patterns@[i as int]@);
        assert(glob_pattern_error(pv[i as int]) is None);
        if glob_matches(patterns[i].as_str(), path) {
            return true;
        }
        i = i + 1;
    }
    false
}

/// What one entry gives under the given settings.
pub fn item_outcome_exec(item: &GlobItem, cx: &ScanSettings, tpl: &ScanSettings) -> (r: FileOutcome)
    requires
        cx.nesting_prefix@.len() + cx.nesting_suffix@.len() > 0,
        template_settings(*cx, *tpl),
    ensures
        outcome_view(r) == item_outcome(*cx, *tpl, *item),
{
    match item {
        GlobItem::File { path, contents } => match contents {
            Some(src) => {
                let (keys, warnings) = scan_file_with(path.as_str(), src.as_str(), cx, tpl);
                if keys.len() == 0 {
                    FileOutcome::Empty { warnings }
                } else {
                    FileOutcome::Success { file_path: path.clone(), keys, warnings }
                }
            },
            None => {
                let m = concat2(&chars_of("Failed to read file: "), &chars_of(path.as_str()));
                FileOutcome::Error(ExtractionError { file_path: path.clone(), message: string_of(&m) })
            },
        },
        GlobItem::GlobError { pattern, message } => {
            let m = concat2(&chars_of("Glob error: "), &chars_of(message.as_str()));
            FileOutcome::Error(ExtractionError { file_path: pattern.clone(), message: string_of(&m) })
        },
        GlobItem::PatternError { pattern, message } => {
            let m = concat2(&chars_of("Invalid glob pattern: "), &chars_of(message.as_str()));
            FileOutcome::Error(ExtractionError { file_path: pattern.clone(), message: string_of(&m) })
        },
    }
}

/// The outcomes of the entries, files that an ignore pattern matches left out.
pub fn scan_items(
    items: &[GlobItem],
    ignore_patterns: &[String],
    cx: &ScanSettings,
    tpl: &ScanSettings,
) -> (r: Vec<FileOutcome>)
    requires
        cx.nesting_prefix@.len() + cx.nesting_suffix@.len() > 0,
        template_settings(*cx, *tpl),
        all_compile(views(ignore_patterns@)),
    ensures
        outcome_views(r@) == outcomes(*cx, *tpl, views(ignore_patterns@), items@, items@.len() as int),
{
    let ghost iv = views(ignore_patterns@);
    let mut out: Vec<FileOutcome> = Vec::new();
    let mut i: usize = 0;
    while i < items.len()
        invariant
            i <= items@.len(),
            iv == views(ignore_patterns@),
            all_compile(iv),
            cx.nesting_prefix@.len() + cx.nesting_suffix@.len() > 0,
            template_settings(*cx, *tpl),
            outcome_views(out@) == outcomes(*cx, *tpl, iv, items@, i as int),
        decreases items.len() - i,
    {
        let skip = match &items[i] {
            GlobItem::File { path, .. } => matches_ignore_path(path.as_str(), ignore_patterns),
            _ => false,
        };
        assert(skip == skipped(iv, items@[i as int]));
        if !skip {
            let o = item_outcome_exec(&items[i], cx, tpl);
            let ghost before = out@;
            out.push(o);
            assert(outcome_views(out@) =~= outcome_views(before).push(outcome_view(o)));
        }
        i = i + 1;
    }
    out
}

/// Adds up a list of outcomes: the files with keys and the errors in order, and the warnings
/// (a file's own, one per error), capped at `usize::MAX`.
pub fn aggregate(outcomes: Vec<FileOutcome>) -> (r: ExtractionResult)
    ensures
        totals_of(r, outcome_views(outcomes@)),
{
    let ghost all = outcome_views(outcomes@);
    let mut files: Vec<(String, Vec<ExtractedKey>)> = Vec::new();
    let mut errors: Vec<ExtractionError> = Vec::new();
    let mut warning_count: usize = 0;
    let mut source = outcomes;
    let n = source.len();
    let mut rest: Vec<FileOutcome> = Vec::new();
    while source.len() > 0
        invariant
            n == all.len(),
            source@.len() + rest@.len() == n,
            forall|j: int| 0 <= j < source@.len() ==> #[trigger] outcome_view(source@[j]) == all[j],
            forall|j: int| 0 <= j < rest@.len() ==> #[trigger] outcome_view(rest@[j]) == all[n - 1 - j],
        decreases source.len(),
    {
        let o = source.pop().unwrap();
        rest.push(o);
    }
    let mut i: usize = 0;
    while i < n
        invariant
            n == all.len(),
            i <= n,
            rest@.len() == n - i,
            forall|j: int| 0 <= j < n - i ==> #[trigger] outcome_view(rest@[j]) == all[n - 1 - j],
            file_views(files@) == successes(all.take(i as int)),
            error_views(errors@) == failures(all.take(i as int)),
            warning_count == capped(total_warnings(all.take(i as int))),
        decreases n - i,
    {
        let o = rest.pop().unwrap();
        let ghost t = all.take(i as int + 1);
        assert(t.drop_last() =~= all.take(i as int));
        assert(outcome_view(o) == all[i as int]);
        assert(t.last() == all[i as int]);
        match o {
            FileOutcome::Success { file_path, keys, warnings } => {
                warning_count = warning_count.saturating_add(warnings.len());
                let ghost before = files@;
                files.push((file_path, keys));
                assert(file_views(files@) =~= file_views(before).push((file_path@, key_views(keys@))));
            },
            FileOutcome::Error(e) => {
                warning_count = warning_count.saturating_add(1);
                let ghost before = errors@;
                errors.push(e);
                assert(error_views(errors@) =~= error_views(before).push(error_view(e)));
            },
            FileOutcome::Empty { warnings } => {
                warning_count = warning_count.saturating_add(warnings.len());
            },
        }
        i = i + 1;
    }
    assert(all.take(n as int) =~= all);
    ExtractionResult { files, warning_count, errors }
}

/// Whether `cx` holds the default settings for the given functions, comment reading and
/// plural settings.
pub open spec fn defaults_with(cx: ScanSettings, functions: Seq<String>, comments: bool, pc: PluralConfig) -> bool {
    &&& default_settings_for(cx, functions, comments)
    &&& cx.plural.separator@ == pc.separator@
    &&& cx.plural.suffixes@ == pc.suffixes@
    &&& cx.plural.generate_base == pc.generate_base
    &&& cx.plural.context_separator@ == pc.context_separator@
}

/// Extracts keys from every entry of a pattern walk with the given settings: the files with
/// keys and the errors in entry order, and the warning total; files that an ignore pattern
/// matches are left out.
pub fn extract_with_settings(items: &[GlobItem], ignore_patterns: &[String], cx: &ScanSettings) -> (r: Result<
    ExtractionResult,
    GlobFailure,
>)
    requires
        cx.nesting_prefix@.len() + cx.nesting_suffix@.len() > 0,
    ensures
        match r {
            Ok(res) => all_compile(views(ignore_patterns@)) && exists|tpl: ScanSettings|
                template_settings(*cx, tpl)
                && totals_of(res, #[trigger] outcomes(*cx, tpl, views(ignore_patterns@), items@, items@.len() as int)),
            Err(GlobFailure::InvalidIgnorePattern { pattern, message }) => first_bad_ignore(views(ignore_patterns@)) == Some((pattern@, message@)),
            Err(_) => false,
        },
        r is Ok <==> all_compile(views(ignore_patterns@)),
{
    match compile_ignore_patterns(ignore_patterns) {
        Err(e) => Err(e),
        Ok(()) => {
            let tpl = template_settings_exec(cx);
            let outs = scan_items(items, ignore_patterns, cx, &tpl);
            let ghost ov = outcome_views(outs@);
            let res = aggregate(outs);
            assert(totals_of(res, outcomes(*cx, tpl, views(ignore_patterns@), items@, items@.len() as int)));
            Ok(res)
        },
    }
}

/// Extracts keys from every entry of a pattern walk, comments included, with `<Trans>`,
/// `useTranslation` and `$t(key, options)` nesting (see [`extract_with_settings`]).
pub fn extract_from_glob(
    items: &[GlobItem],
    ignore_patterns: &[String],
    functions: &[String],
    plural_config: &PluralConfig,
) -> (r: Result<ExtractionResult, GlobFailure>)
    ensures
        match r {
            Ok(res) => all_compile(views(ignore_patterns@)) && exists|cx: ScanSettings, tpl: ScanSettings|
                defaults_with(cx, functions@, true, *plural_config) && template_settings(cx, tpl)
                && totals_of(res, #[trigger] outcomes(cx, tpl, views(ignore_patterns@), items@, items@.len() as int)),
            Err(GlobFailure::InvalidIgnorePattern { pattern, message }) => first_bad_ignore(views(ignore_patterns@)) == Some((pattern@, message@)),
            Err(_) => false,
        },
        r is Ok <==> all_compile(views(ignore_patterns@)),
{
    let cx = default_settings(functions, true, plural_config);
    proof {
        reveal_strlit("$t(");
        reveal_strlit(")");
    }
    let r = extract_with_settings(items, ignore_patterns, &cx);
    proof {
        if r is Ok {
            let res = r->Ok_0;
            let tpl = choose|tpl: ScanSettings| template_settings(cx, tpl)
                && totals_of(res, #[trigger] outcomes(cx, tpl, views(ignore_patterns@), items@, items@.len() as int));
            assert(defaults_with(cx, functions@, true, *plural_config) && template_settings(cx, tpl)
                && totals_of(res, outcomes(cx, tpl, views(ignore_patterns@), items@, items@.len() as int)));
        }
    }
    r
}

/// Extracts keys from every entry of a pattern walk with all settings given (see
/// [`extract_with_settings`]).
pub fn extract_from_glob_with_options(
    items: &[GlobItem],
    ignore_patterns: &[String],
    functions: &[String],
    extract_from_comments: bool,
    plural_config: &PluralConfig,
    trans_components: &[String],
    use_translation_names: &[UseTranslationName],
    nesting_prefix: &str,
    nesting_suffix: &str,
    nesting_options_separator: &str,
) -> (r: Result<ExtractionResult, GlobFailure>)
    requires
        nesting_prefix@.len() + nesting_suffix@.len() > 0,
    ensures
        match r {
            Ok(res) => all_compile(views(ignore_patterns@)) && exists|cx: ScanSettings, tpl: ScanSettings|
                settings_from(cx, functions@, trans_components@, use_translation_names@, extract_from_comments, *plural_config, nesting_prefix@, nesting_suffix@, nesting_options_separator@)
                && template_settings(cx, tpl)
                && totals_of(res, #[trigger] outcomes(cx, tpl, views(ignore_patterns@), items@, items@.len() as int)),
            Err(GlobFailure::InvalidIgnorePattern { pattern, message }) => first_bad_ignore(views(ignore_patterns@)) == Some((pattern@, message@)),
            Err(_) => false,
        },
        r is Ok <==> all_compile(views(ignore_patterns@)),
{
    let cx = settings_exec(
        functions,
        trans_components,
        use_translation_names,
        extract_from_comments,
        plural_config,
        nesting_prefix,
        nesting_suffix,
        nesting_options_separator,
    );
    let r = extract_with_settings(items, ignore_patterns, &cx);
    proof {
        if r is Ok {
            let res = r->Ok_0;
            let tpl = choose|tpl: ScanSettings| template_settings(cx, tpl)
                && totals_of(res, #[trigger] outcomes(cx, tpl, views(ignore_patterns@), items@, items@.len() as int));
            assert(settings_from(cx, functions@, trans_components@, use_translation_names@, extract_from_comments, *plural_config, nesting_prefix@, nesting_suffix@, nesting_options_separator@)
                && template_settings(cx, tpl)
                && totals_of(res, outcomes(cx, tpl, views(ignore_patterns@), items@, items@.len() as int)));
        }
    }
    r
}

/// The first occurrence of each key, in order.
pub open spec fn distinct_keys(s: Seq<KeyView>) -> Seq<KeyView>
    decreases s.len(),
{
    if s.len() == 0 {
        Seq::empty()
    } else if distinct_keys(s.drop_last()).contains(s.last()) {
        distinct_keys(s.drop_last())
    } else {
        distinct_keys(s.drop_last()).push(s.last())
    }
}

/// What a deduplicating walk gathers from the first `n` entries: every key of the files
/// in order, the warnings, the files that could not be read, and the failed walks.
pub open spec fn dedup_scan(cx: ScanSettings, tpl: ScanSettings, ignore: Seq<Seq<char>>, items: Seq<GlobItem>, n: int) -> (
    Seq<KeyView>,
    nat,
    Seq<(Seq<char>, Seq<char>)>,
    Seq<(Seq<char>, Seq<char>)>,
)
    decreases n,
{
    if n <= 0 {
        (Seq::empty(), 0, Seq::empty(), Seq::empty())
    } else {
        let (k, w, e, g) = dedup_scan(cx, tpl, ignore, items, n - 1);
        match items[n - 1] {
            GlobItem::File { path, contents } => if ignored(ignore, path@) {
                (k, w, e, g)
            } else {
                match contents {
                    Some(src) => {
                        let f = file_result(cx, tpl, path@, src@);
                        (k + f.0, w + f.1, e, g)
                    },
                    None => (k, w + 1, e.push((path@, "Failed to read file: "@ + path@)), g),
                }
            },
            GlobItem::GlobError { pattern, message } => (k, w, e, g.push((pattern@, "Glob error: "@ + message@))),
            GlobItem::PatternError { .. } => (k, w, e, g),
        }
    }
}

/// The first entry that reports an invalid input pattern, with its error.
pub open spec fn first_bad_pattern(items: Seq<GlobItem>) -> Option<(Seq<char>, Seq<char>)>
    decreases items.len(),
{
    if items.len() == 0 {
        None
    } else {
        match first_bad_pattern(items.drop_last()) {
            Some(b) => Some(b),
            None => match items.last() {
                GlobItem::PatternError { pattern, message } => Some((pattern@, message@)),
                _ => None,
            },
        }
    }
}

/// Whether two keys are the same key.
pub fn same_key(a: &ExtractedKey, b: &ExtractedKey) -> (r: bool)
    ensures
        r == (a@ == b@),
{
    let ns = match (&a.namespace, &b.namespace) {
        (Some(x), Some(y)) => *x == *y,
        (None, None) => true,
        _ => false,
    };
    let dv = match (&a.default_value, &b.default_value) {
        (Some(x), Some(y)) => *x == *y,
        (None, None) => true,
        _ => false,
    };
    ns && dv && a.key == b.key
}

/// Whether a list of keys holds a key.
pub fn holds_key(keys: &Vec<ExtractedKey>, k: &ExtractedKey) -> (r: bool)
    ensures
        r == key_views(keys@).contains(k@),
{
    let mut i: usize = 0;
    while i < keys.len()
        invariant
            i <= keys@.len(),
            forall|j: int| 0 <= j < i ==> key_views(keys@)[j] != k@,
        decreases keys.len() - i,
    {
        assert(key_views(keys@)[i as int] == keys@[i as int]@);
        if same_key(&keys[i], k) {
            assert(key_views(keys@)[i as int] == k@);
            return true;
        }
        i = i + 1;
    }
    false
}

/// Adds the keys of `more` that `out` does not hold yet, each once.
fn add_distinct(out: &mut Vec<ExtractedKey>, more: Vec<ExtractedKey>, Ghost(seen): Ghost<Seq<KeyView>>)
    requires
        key_views(old(out)@) == distinct_keys(seen),
    ensures
        key_views(final(out)@) == distinct_keys(seen + key_views(more@)),
{
    let ghost mv = key_views(more@);
    let mut source = more;
    let n = source.len();
    let mut rest: Vec<ExtractedKey> = Vec::new();
    while source.len() > 0
        invariant
            n == mv.len(),
            source@.len() + rest@.len() == n,
            forall|j: int| 0 <= j < source@.len() ==> #[trigger] source@[j]@ == mv[j],
            forall|j: int| 0 <= j < rest@.len() ==> #[trigger] rest@[j]@ == mv[n - 1 - j],
        decreases source.len(),
    {
        let k = source.pop().unwrap();
        rest.push(k);
    }
    let mut i: usize = 0;
    while i < n
        invariant
            n == mv.len(),
            i <= n,
            rest@.len() == n - i,
            forall|j: int| 0 <= j < n - i ==> #[trigger] rest@[j]@ == mv[n - 1 - j],
            key_views(out@) == distinct_keys(seen + mv.take(i as int)),
        decreases n - i,
    {
        let k = rest.pop().unwrap();
        let ghost s = seen + mv.take(i as int + 1);
        assert(s.drop_last() =~= seen + mv.take(i as int));
        assert(s.last() == k@);
        if !holds_key(out, &k) {
            let ghost before = out@;
            out.push(k);
            assert(key_views(out@) =~= key_views(before).push(k@));
        }
        i = i + 1;
    }
    assert(mv.take(n as int) =~= mv);
}

/// Extracts keys from every entry of a pattern walk with the given settings, each key once
/// (in the order first met). Gives the keys, the warning total (capped at `usize::MAX`), and
/// the errors: unreadable files, then failed walks. An invalid ignore or input pattern
/// stops it.
fn dedup_with_settings(
    items: &[GlobItem],
    ignore_patterns: &[String],
    cx: &ScanSettings,
) -> (r: Result<(Vec<ExtractedKey>, usize, Vec<ExtractionError>), GlobFailure>)
    requires
        cx.nesting_prefix@.len() + cx.nesting_suffix@.len() > 0,
    ensures
        match r {
            Ok((keys, count, errors)) => exists|tpl: ScanSettings|
                template_settings(*cx, tpl)
                && ({
                    let (k, w, e, g) = #[trigger] dedup_scan(*cx, tpl, views(ignore_patterns@), items@, items@.len() as int);
                    key_views(keys@) == distinct_keys(k) && count == capped(w) && error_views(errors@) == e + g
                }),
            Err(GlobFailure::InvalidIgnorePattern { pattern, message }) => first_bad_ignore(views(ignore_patterns@)) == Some((pattern@, message@)),
            Err(GlobFailure::InvalidPattern { pattern, message }) => all_compile(views(ignore_patterns@))
                && first_bad_pattern(items@) == Some((pattern@, message@)),
        },
        r is Ok <==> all_compile(views(ignore_patterns@)) && first_bad_pattern(items@) is None,
{
    match compile_ignore_patterns(ignore_patterns) {
        Err(e) => {
            return Err(e);
        },
        Ok(()) => {},
    }
    let tpl = template_settings_exec(cx);
    let ghost iv = views(ignore_patterns@);
    let mut keys: Vec<ExtractedKey> = Vec::new();
    let mut count: usize = 0;
    let mut errors: Vec<ExtractionError> = Vec::new();
    let mut walk_errors: Vec<ExtractionError> = Vec::new();
    let mut i: usize = 0;
    while i < items.len()
        invariant
            i <= items@.len(),
            iv == views(ignore_patterns@),
            all_compile(iv),
            cx.nesting_prefix@.len() + cx.nesting_suffix@.len() > 0,
            template_settings(*cx, tpl),
            first_bad_pattern(items@.take(i as int)) is None,
            ({
                let (k, w, e, g) = dedup_scan(*cx, tpl, iv, items@, i as int);
                key_views(keys@) == distinct_keys(k) && count == capped(w) && error_views(errors@) == e && error_views(walk_errors@) == g
            }),
        decreases items.len() - i,
    {
        let ghost prev = dedup_scan(*cx, tpl, iv, items@, i as int);
        let ghost t = items@.take(i as int + 1);
        assert(t.drop_last() =~= items@.take(i as int));
        assert(t.last() == items@[i as int]);
        match &items[i] {
            GlobItem::File { path, contents } => {
                if !matches_ignore_path(path.as_str(), ignore_patterns) {
                    match contents {
                        Some(src) => {
                            let (found, warnings) = scan_file_with(path.as_str(), src.as_str(), cx, &tpl);
                            count = count.saturating_add(warnings.len());
                            add_distinct(&mut keys, found, Ghost(prev.0));
                        },
                        None => {
                            count = count.saturating_add(1);
                            let m = concat2(&chars_of("Failed to read file: "), &chars_of(path.as_str()));
                            let ghost before = errors@;
                            let e = ExtractionError { file_path: path.clone(), message: string_of(&m) };
                            errors.push(e);
                            assert(error_views(errors@) =~= error_views(before).push(error_view(e)));
                        },
                    }
                }
            },
            GlobItem::GlobError { pattern, message } => {
                let m = concat2(&chars_of("Glob error: "), &chars_of(message.as_str()));
                let ghost before = walk_errors@;
                let e = ExtractionError { file_path: pattern.clone(), message: string_of(&m) };
                walk_errors.push(e);
                assert(error_views(walk_errors@) =~= error_views(before).push(error_view(e)));
            },
            GlobItem::PatternError { pattern, message } => {
                proof {
                    lemma_first_bad_pattern_prefix(items@, i as int + 1);
                }
                return Err(GlobFailure::InvalidPattern { pattern: pattern.clone(), message: message.clone() });
            },
        }
        i = i + 1;
    }
    assert(items@.take(items@.len() as int) =~= items@);
    let ghost ev = error_views(errors@);
    let ghost gv = error_views(walk_errors@);
    errors.append(&mut walk_errors);
    assert(error_views(errors@) =~= ev + gv);
    Ok((keys, count, errors))
}

/// Extracts keys from every entry of a pattern walk, each key once (in the order first
/// met), comments included, with `<Trans>`, `useTranslation` and `$t(key, options)`
/// nesting (see [`dedup_with_settings`]).
pub fn extract_from_glob_deduplicated(
    items: &[GlobItem],
    ignore_patterns: &[String],
    functions: &[String],
    plural_config: &PluralConfig,
) -> (r: Result<(Vec<ExtractedKey>, usize, Vec<ExtractionError>), GlobFailure>)
    ensures
        match r {
            Ok((keys, count, errors)) => exists|cx: ScanSettings, tpl: ScanSettings|
                defaults_with(cx, functions@, true, *plural_config) && template_settings(cx, tpl)
                && ({
                    let (k, w, e, g) = #[trigger] dedup_scan(cx, tpl, views(ignore_patterns@), items@, items@.len() as int);
                    key_views(keys@) == distinct_keys(k) && count == capped(w) && error_views(errors@) == e + g
                }),
            Err(GlobFailure::InvalidIgnorePattern { pattern, message }) => first_bad_ignore(views(ignore_patterns@)) == Some((pattern@, message@)),
            Err(GlobFailure::InvalidPattern { pattern, message }) => all_compile(views(ignore_patterns@))
                && first_bad_pattern(items@) == Some((pattern@, message@)),
        },
        r is Ok <==> all_compile(views(ignore_patterns@)) && first_bad_pattern(items@) is None,
{
    let cx = default_settings(functions, true, plural_config);
    proof {
        reveal_strlit("$t(");
        reveal_strlit(")");
    }
    let r = dedup_with_settings(items, ignore_patterns, &cx);
    proof {
        if r is Ok {
            let (keys, count, errors) = r->Ok_0;
            let tpl = choose|tpl: ScanSettings| template_settings(cx, tpl)
                && ({
                    let (k, w, e, g) = #[trigger] dedup_scan(cx, tpl, views(ignore_patterns@), items@, items@.len() as int);
                    key_views(keys@) == distinct_keys(k) && count == capped(w) && error_views(errors@) == e + g
                });
            assert(defaults_with(cx, functions@, true, *plural_config) && template_settings(cx, tpl));
        }
    }
    r
}

/// Extracts keys from every entry of a pattern walk with all settings given, each key once
/// (in the order first met) (see [`dedup_with_settings`]).
pub fn extract_from_glob_deduplicated_with_options(
    items: &[GlobItem],
    ignore_patterns: &[String],
    functions: &[String],
    extract_from_comments: bool,
    plural_config: &PluralConfig,
    trans_components: &[String],
    use_translation_names: &[UseTranslationName],
    nesting_prefix: &str,
    nesting_suffix: &str,
    nesting_options_separator: &str,
) -> (r: Result<(Vec<ExtractedKey>, usize, Vec<ExtractionError>), GlobFailure>)
    requires
        nesting_prefix@.len() + nesting_suffix@.len() > 0,
    ensures
        match r {
            Ok((keys, count, errors)) => exists|cx: ScanSettings, tpl: ScanSettings|
                settings_from(cx, functions@, trans_components@, use_translation_names@, extract_from_comments, *plural_config, nesting_prefix@, nesting_suffix@, nesting_options_separator@)
                && template_settings(cx, tpl)
                && ({
                    let (k, w, e, g) = #[trigger] dedup_scan(cx, tpl, views(ignore_patterns@), items@, items@.len() as int);
                    key_views(keys@) == distinct_keys(k) && count == capped(w) && error_views(errors@) == e + g
                }),
            Err(GlobFailure::InvalidIgnorePattern { pattern, message }) => first_bad_ignore(views(ignore_patterns@)) == Some((pattern@, message@)),
            Err(GlobFailure::InvalidPattern { pattern, message }) => all_compile(views(ignore_patterns@))
                && first_bad_pattern(items@) == Some((pattern@, message@)),
        },
        r is Ok <==> all_compile(views(ignore_patterns@)) && first_bad_pattern(items@) is None,
{
    let cx = settings_exec(
        functions,
        trans_components,
        use_translation_names,
        extract_from_comments,
        plural_config,
        nesting_prefix,
        nesting_suffix,
        nesting_options_separator,
    );
    let r = dedup_with_settings(items, ignore_patterns, &cx);
    proof {
        if r is Ok {
            let (keys, count, errors) = r->Ok_0;
            let tpl = choose|tpl: ScanSettings| template_settings(cx, tpl)
                && ({
                    let (k, w, e, g) = #[trigger] dedup_scan(cx, tpl, views(ignore_patterns@), items@, items@.len() as int);
                    key_views(keys@) == distinct_keys(k) && count == capped(w) && error_views(errors@) == e + g
                });
            assert(settings_from(cx, functions@, trans_components@, use_translation_names@, extract_from_comments, *plural_config, nesting_prefix@, nesting_suffix@, nesting_options_separator@)
                && template_settings(cx, tpl));
        }
    }
    r
}

/// The first bad input pattern of a prefix is that of the whole list.
proof fn lemma_first_bad_pattern_prefix(s: Seq<GlobItem>, n: int)
    requires
        0 <= n <= s.len(),
        first_bad_pattern(s.take(n)) is Some,
    ensures
        first_bad_pattern(s) == first_bad_pattern(s.take(n)),
    decreases s.len() - n,
{
    if n < s.len() {
        let t = s.take(n + 1);
        assert(t.drop_last() =~= s.take(n));
        lemma_first_bad_pattern_prefix(s, n + 1);
    } else {
        assert(s.take(n) =~= s);
    }
}

/// Deduplication keeps every key and holds each one once: a key is among the distinct keys
/// of a list exactly when the list holds it, and no key occurs twice among them.
pub proof fn lemma_distinct_keys(s: Seq<KeyView>)
    ensures
        forall|x: KeyView| #[trigger] distinct_keys(s).contains(x) <==> s.contains(x),
        distinct_keys(s).no_duplicates(),
    decreases s.len(),
{
    if s.len() > 0 {
        let p = s.drop_last();
        lemma_distinct_keys(p);
        assert forall|x: KeyView| #[trigger] distinct_keys(s).contains(x) <==> s.contains(x) by {
            if s.contains(x) {
                let j = choose|j: int| 0 <= j < s.len() && s[j] == x;
                if j < s.len() - 1 {
                    assert(p[j] == x);
                    assert(p.contains(x));
                }
            }
            if p.contains(x) {
                let j = choose|j: int| 0 <= j < p.len() && p[j] == x;
                assert(s[j] == x);
            }
            assert(s[s.len() - 1] == s.last());
            if !distinct_keys(p).contains(s.last()) {
                let d = distinct_keys(p);
                assert(d.push(s.last())[d.len() as int] == s.last());
                if d.push(s.last()).contains(x) && x != s.last() {
                    let j = choose|j: int| 0 <= j < d.len() + 1 && d.push(s.last())[j] == x;
                    assert(d[j] == x);
                }
                if d.contains(x) {
                    let j = choose|j: int| 0 <= j < d.len() && d[j] == x;
                    assert(d.push(s.last())[j] == x);
                }
            }
        }
    }
}

} // verus!
