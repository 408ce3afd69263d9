# i18next-turbo

Fast i18next key extraction for TypeScript/JavaScript code bases, with its core logic
verified by Verus.

## Layout

- `src/` — the verified library. Each public function states in its contract what it
  computes, over mathematical models (`Seq`, `Set`, views of the library's types):
  - `extractor`, `visit`, `calls`, `trans`, `scope`, `template`, `comments`, `components`,
    `patterns`, `keys`, `ast`: reading translation keys out of sources (scripts, Vue and
    Svelte components, comments);
  - `batch`: extraction over the files a set of glob patterns matched;
  - `locale`, `json`, `order`: locale files — merging keys, pruning unused entries,
    sorting, reading and writing JSON, JSON5 and JS/TS modules;
  - `locale_sync`, `rename`, `cleanup`, `status`, `typegen`, `lint`, `locize`, `detect`,
    `watcher`, `summary`, `config`, `logging`: the commands' decisions.
  Calls into outside crates (SWC, serde_json, json5, regex, glob, ICU plural rules,
  Unicode normalization) sit behind small trusted wrappers whose contracts say what the
  library relies on.
- `tests/` — tests run against the compiled library.
- `app/` — the command line: argument handling, configuration files, file system,
  terminal, HTTP and file watching around the library.

## Locale file layout

- `output` is either a directory (`locales` gives `locales/<locale>/<namespace>.<ext>`)
  or a path template naming `$LOCALE` and `$NAMESPACE`
  (`locales/$LOCALE/$NAMESPACE.json`).
- With `mergeNamespaces`, each locale has one file, named by `mergedNamespaceFilename`
  (else the single file an existing locale directory holds, else the default namespace),
  holding each namespace as a top-level object under its name.
