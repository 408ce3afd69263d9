//! Totals and verdicts of the command-line runs: what is counted, and when a run fails.
use crate::batch::capped;
use crate::locale::SyncResult;
use crate::components::{ascii_lower, ascii_lower_exec, decimal, decimal_exec};
use crate::config::{lowercase, to_lowercase};
use crate::keys::{key_views, ExtractedKey, KeyView};
use crate::text::{append_chars, chars_of, concat3, cviews, seq_eq, string_of, trim, trim_exec, views};
use crate::typegen::{insert_unique, strictly_sorted};
use vstd::prelude::*;

verus! {

/// The locale a command looks at: the one asked for, else the first configured one, else
/// `en`.
pub open spec fn chosen_locale(requested: Option<Seq<char>>, locales: Seq<Seq<char>>) -> Seq<char> {
    match requested {
        Some(l) => l,
        None => if locales.len() > 0 {
            locales[0]
        } else {
            "en"@
        },
    }
}

/// The locale a command looks at (see [`chosen_locale`]).
pub fn choose_locale(requested: Option<&str>, locales: &[String]) -> (r: String)
    ensures
        r@ == chosen_locale(match requested { Some(l) => Some(l@), None => None }, crate::text::views(locales@)),
{
    match requested {
        Some(l) => string_of(&chars_of(l)),
        None => if locales.len() > 0 {
            string_of(&chars_of(locales[0].as_str()))
        } else {
            string_of(&chars_of("en"))
        },
    }
}

/// The keys added, keys removed and conflicts of the first `n` sync results, summed.
pub open spec fn sync_sums(rs: Seq<SyncResult>, n: int) -> (nat, nat, nat)
    decreases n,
{
    if n <= 0 || n > rs.len() {
        (0, 0, 0)
    } else {
        let (a, r, c) = sync_sums(rs, n - 1);
        (a + rs[n - 1].added_keys@.len(), r + rs[n - 1].removed_keys@.len(), c + rs[n - 1].conflicts@.len())
    }
}

/// What the sync of an extraction did in all: keys added, keys removed, conflicts.
#[derive(Debug, Clone, Copy)]
pub struct SyncTotals {
    pub added: usize,
    pub removed: usize,
    pub conflicts: usize,
}

/// Sums the sync results (see [`sync_sums`]), each total capped at `usize::MAX`.
pub fn sync_totals(results: &[SyncResult]) -> (r: SyncTotals)
    ensures
        r.added == capped(sync_sums(results@, results@.len() as int).0),
        r.removed == capped(sync_sums(results@, results@.len() as int).1),
        r.conflicts == capped(sync_sums(results@, results@.len() as int).2),
{
    let mut t = SyncTotals { added: 0, removed: 0, conflicts: 0 };
    let mut i: usize = 0;
    while i < results.len()
        invariant
            i <= results@.len(),
            t.added == capped(sync_sums(results@, i as int).0),
            t.removed == capped(sync_sums(results@, i as int).1),
            t.conflicts == capped(sync_sums(results@, i as int).2),
        decreases results.len() - i,
    {
        t.added = t.added.saturating_add(results[i].added_keys.len());
        t.removed = t.removed.saturating_add(results[i].removed_keys.len());
        t.conflicts = t.conflicts.saturating_add(results[i].conflicts.len());
        i = i + 1;
    }
    t
}

/// Why an extraction run fails, if it does: with no keys found, warnings fail it when asked;
/// otherwise warnings and key conflicts fail it when asked, and then, in CI mode, locale files
/// that changed (or would change).
pub open spec fn extract_failure(
    found_keys: bool,
    warnings: nat,
    added: nat,
    removed: nat,
    conflicts: nat,
    fail_on_warnings: bool,
    ci: bool,
    dry_run: bool,
) -> Option<Seq<char>> {
    if !found_keys {
        if fail_on_warnings && warnings > 0 {
            Some(decimal(warnings) + " warning(s) encountered (--fail-on-warnings enabled)"@)
        } else {
            None
        }
    } else if fail_on_warnings && warnings + conflicts > 0 {
        Some(decimal(capped(warnings + conflicts)) + " warning(s) encountered (--fail-on-warnings enabled): "@ + decimal(warnings)
            + " extraction warnings, "@ + decimal(conflicts) + " key conflicts"@)
    } else if ci && added + removed > 0 {
        Some("Locale files "@ + (if dry_run { "are"@ } else { "were"@ }) + " out of sync (--ci enabled): "@ + decimal(added)
            + " keys added, "@ + decimal(removed) + " keys removed"@)
    } else {
        None
    }
}

/// Decides whether an extraction run fails, and with what message (see
/// [`extract_failure`]); the warning total is capped at `usize::MAX`.
pub fn extract_verdict(
    found_keys: bool,
    warnings: usize,
    totals: &SyncTotals,
    fail_on_warnings: bool,
    ci: bool,
    dry_run: bool,
) -> (r: Option<String>)
    ensures
        match r {
            Some(m) => extract_failure(found_keys, warnings as nat, totals.added as nat, totals.removed as nat, totals.conflicts as nat, fail_on_warnings, ci, dry_run)
                == Some(m@),
            None => extract_failure(found_keys, warnings as nat, totals.added as nat, totals.removed as nat, totals.conflicts as nat, fail_on_warnings, ci, dry_run) is None,
        },
{
    if !found_keys {
        if fail_on_warnings && warnings > 0 {
            let mut out = decimal_exec(warnings);
            append_chars(&mut out, &chars_of(" warning(s) encountered (--fail-on-warnings enabled)"));
            return Some(string_of(&out));
        }
        return None;
    }
    let total = warnings.saturating_add(totals.conflicts);
    if fail_on_warnings && total > 0 {
        let mut out = decimal_exec(total);
        append_chars(&mut out, &chars_of(" warning(s) encountered (--fail-on-warnings enabled): "));
        append_chars(&mut out, &decimal_exec(warnings));
        append_chars(&mut out, &chars_of(" extraction warnings, "));
        append_chars(&mut out, &decimal_exec(totals.conflicts));
        append_chars(&mut out, &chars_of(" key conflicts"));
        return Some(string_of(&out));
    }
    if ci && (totals.added > 0 || totals.removed > 0) {
        let mut out = chars_of("Locale files ");
        append_chars(&mut out, &chars_of(if dry_run { "are" } else { "were" }));
        append_chars(&mut out, &chars_of(" out of sync (--ci enabled): "));
        append_chars(&mut out, &decimal_exec(totals.added));
        append_chars(&mut out, &chars_of(" keys added, "));
        append_chars(&mut out, &decimal_exec(totals.removed));
        append_chars(&mut out, &chars_of(" keys removed"));
        return Some(string_of(&out));
    }
    None
}

/// Why a lint run fails, if it does: issues found when asked to fail on them.
pub open spec fn lint_failure(issues: nat, fail_on_error: bool) -> Option<Seq<char>> {
    if fail_on_error && issues > 0 {
        Some(decimal(issues) + " lint issue(s) found (--fail-on-error enabled)"@)
    } else {
        None
    }
}

/// Decides whether a lint run fails (see [`lint_failure`]).
pub fn lint_verdict(issues: usize, fail_on_error: bool) -> (r: Option<String>)
    ensures
        match r {
            Some(m) => lint_failure(issues as nat, fail_on_error) == Some(m@),
            None => lint_failure(issues as nat, fail_on_error) is None,
        },
{
    if fail_on_error && issues > 0 {
        let mut out = decimal_exec(issues);
        append_chars(&mut out, &chars_of(" lint issue(s) found (--fail-on-error enabled)"));
        Some(string_of(&out))
    } else {
        None
    }
}

/// Whether an answer confirms the removal of dead keys: `y` or `yes`, whatever the case and
/// surrounding whitespace.
pub open spec fn confirms(input: Seq<char>) -> bool {
    let a = lowercase(trim(input));
    a == "y"@ || a == "yes"@
}

/// Whether an answer confirms the removal of dead keys (see [`confirms`]).
pub fn confirms_removal(input: &str) -> (r: bool)
    ensures
        r == confirms(input@),
{
    let t = string_of(&trim_exec(&chars_of(input)));
    let a = chars_of(to_lowercase(t.as_str()).as_str());
    seq_eq(&a, &chars_of("y")) || seq_eq(&a, &chars_of("yes"))
}

/// What a yes/no answer says: `y`/`yes` is yes; `n`/`no` or nothing is no (ASCII case and
/// surrounding whitespace aside); anything else asks again.
pub open spec fn yes_no(input: Seq<char>) -> Option<bool> {
    let a = ascii_lower(trim(input));
    if a == "y"@ || a == "yes"@ {
        Some(true)
    } else if a == "n"@ || a == "no"@ || a.len() == 0 {
        Some(false)
    } else {
        None
    }
}

/// What a yes/no answer says (see [`yes_no`]).
pub fn yes_no_answer(input: &str) -> (r: Option<bool>)
    ensures
        r == yes_no(input@),
{
    let a = ascii_lower_exec(&trim_exec(&chars_of(input)));
    if seq_eq(&a, &chars_of("y")) || seq_eq(&a, &chars_of("yes")) {
        Some(true)
    } else if seq_eq(&a, &chars_of("n")) || seq_eq(&a, &chars_of("no")) || a.len() == 0 {
        Some(false)
    } else {
        None
    }
}

/// How an extraction lists a key: `namespace:key` when it names a namespace, else the key.
pub open spec fn listed_name(k: KeyView) -> Seq<char> {
    match k.namespace {
        Some(ns) => ns + ":"@ + k.key,
        None => k.key,
    }
}

/// The names of the first `n` keys (see [`listed_name`]).
pub open spec fn listed_names(keys: Seq<KeyView>, n: int) -> Set<Seq<char>>
    decreases n,
{
    if n <= 0 || n > keys.len() {
        Set::empty()
    } else {
        listed_names(keys, n - 1).insert(listed_name(keys[n - 1]))
    }
}

/// The distinct names of extracted keys (see [`listed_name`]), sorted.
pub fn unique_key_names(keys: &[ExtractedKey]) -> (r: Vec<String>)
    ensures
        strictly_sorted(views(r@)),
        views(r@).to_set() == listed_names(key_views(keys@), keys@.len() as int),
{
    let ghost kv = key_views(keys@);
    let mut out: Vec<Vec<char>> = Vec::new();
    assert(cviews(out@).to_set() =~= Set::empty());
    let mut i: usize = 0;
    while i < keys.len()
        invariant
            i <= keys@.len(),
            kv == key_views(keys@),
            strictly_sorted(cviews(out@)),
            cviews(out@).to_set() == listed_names(kv, i as int),
        decreases keys.len() - i,
    {
        assert(kv[i as int] == keys@[i as int]@);
        let k = chars_of(keys[i].key.as_str());
        let name = match &keys[i].namespace {
            Some(ns) => concat3(&chars_of(ns.as_str()), &chars_of(":"), &k),
            None => k,
        };
        insert_unique(&mut out, name);
        i = i + 1;
    }
    crate::text::strings_of(&out)
}

/// Why a configuration migration cannot start.
#[derive(Debug, Clone, Copy, PartialEq, Eq, Structural)]
pub enum MigrateError {
    /// The configuration was given inline, so its file is unknown.
    NoSourcePath,
    /// No configuration file to migrate was found.
    NoSource,
}

impl MigrateError {
    /// The message that describes the error.
    pub fn message(&self) -> (r: String)
        ensures
            r@ == match self {
                MigrateError::NoSourcePath => "設定ファイルのパス情報が取得できませんでした。Node ラッパーが最新ではない可能性があるため、`npm install` を再実行するか `--config` で対象ファイルを指定してください。"@,
                MigrateError::NoSource => "移行対象の設定ファイルが見つかりません。`i18next-parser.config.js` など既存の設定を --config で指定するか、プロジェクトルートに配置してから再度実行してください。"@,
            },
    {
        match self {
            MigrateError::NoSourcePath => string_of(&chars_of("設定ファイルのパス情報が取得できませんでした。Node ラッパーが最新ではない可能性があるため、`npm install` を再実行するか `--config` で対象ファイルを指定してください。")),
            MigrateError::NoSource => string_of(&chars_of("移行対象の設定ファイルが見つかりません。`i18next-parser.config.js` など既存の設定を --config で指定するか、プロジェクトルートに配置してから再度実行してください。")),
        }
    }
}

/// The configuration file a migration reads: the detected one; without one, an error that
/// says whether the configuration was given inline.
pub fn migration_source(detected: Option<&str>, inline_source: bool) -> (r: Result<String, MigrateError>)
    ensures
        match detected {
            Some(p) => r matches Ok(s) && s@ == p@,
            None => r == if inline_source {
                Err::<String, MigrateError>(MigrateError::NoSourcePath)
            } else {
                Err::<String, MigrateError>(MigrateError::NoSource)
            },
        },
{
    match detected {
        Some(p) => Ok(string_of(&chars_of(p))),
        None => if inline_source {
            Err(MigrateError::NoSourcePath)
        } else {
            Err(MigrateError::NoSource)
        },
    }
}

/// Whether a configuration file is already in this tool's own format (its file name is
/// `i18next-turbo.json`).
pub fn is_turbo_config(path: &str) -> (r: bool)
    ensures
        r == (crate::extractor::file_name(path@) == "i18next-turbo.json"@),
{
    let name = crate::cleanup::file_name_exec(&chars_of(path));
    seq_eq(&name, &chars_of("i18next-turbo.json"))
}

} // verus!
