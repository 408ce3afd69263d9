//! Watch mode: which directories to watch, which changes count, and the per-file key
//! cache kept between extractions.
use crate::config::Config;
use crate::detect::sorted_names;
use crate::extractor::{extension_of, file_name, path_extension};
use crate::keys::{key_views, ExtractedKey, KeyView};
use crate::text::{chars_of, has_char, seq_eq, split, split_exec, string_of, views};
use crate::typegen::strictly_sorted;
use vstd::prelude::*;

verus! {

/// Watch mode's state: the configuration, where locale files go, the debounce delay, and
/// the keys last extracted from each file (each file once).
pub struct FileWatcher {
    pub config: Config,
    pub output_dir: String,
    pub debounce_ms: u64,
    pub file_cache: Vec<(String, Vec<ExtractedKey>)>,
}

/// The content of a key cache: each file with its keys.
pub open spec fn cache_view(c: Seq<(String, Vec<ExtractedKey>)>) -> Seq<(Seq<char>, Seq<KeyView>)> {
    c.map_values(|e: (String, Vec<ExtractedKey>)| (e.0@, key_views(e.1@)))
}

/// Whether each file occurs once in a cache.
pub open spec fn cache_wf(c: Seq<(Seq<char>, Seq<KeyView>)>) -> bool {
    forall|i: int, j: int| 0 <= i < j < c.len() ==> #[trigger] c[i].0 != #[trigger] c[j].0
}

/// The keys cached for a file.
pub open spec fn cache_get(c: Seq<(Seq<char>, Seq<KeyView>)>, path: Seq<char>) -> Option<Seq<KeyView>> {
    if exists|i: int| 0 <= i < c.len() && c[i].0 == path {
        Some(c[choose|i: int| 0 <= i < c.len() && c[i].0 == path].1)
    } else {
        None
    }
}

/// All cached keys, file by file in cache order.
pub open spec fn cache_keys(c: Seq<(Seq<char>, Seq<KeyView>)>) -> Seq<KeyView>
    decreases c.len(),
{
    if c.len() == 0 {
        Seq::empty()
    } else {
        cache_keys(c.drop_last()) + c.last().1
    }
}

/// The directory a glob pattern is watched from: its leading segments up to the first
/// that holds `*`, `?` or `[`, joined with `/`; `.` when there are none.
pub open spec fn watch_prefix(pattern: Seq<char>) -> Seq<char> {
    let parts = split(pattern, "/"@);
    let n = literal_count(parts, 0);
    let nonempty = parts.take(n).filter(|p: Seq<char>| p.len() > 0);
    if nonempty.len() == 0 {
        "."@
    } else {
        prefix_path(parts.take(n))
    }
}

/// The watched directory of each pattern.
pub open spec fn watch_prefixes(patterns: Seq<Seq<char>>) -> Seq<Seq<char>>
    decreases patterns.len(),
{
    if patterns.len() == 0 {
        Seq::empty()
    } else {
        watch_prefixes(patterns.drop_last()).push(watch_prefix(patterns.last()))
    }
}

/// How many leading segments hold no glob character, from `i` on.
pub open spec fn literal_count(parts: Seq<Seq<char>>, i: int) -> int
    decreases parts.len() - i,
{
    if i < 0 || i >= parts.len() {
        if i < 0 { 0 } else { i }
    } else if parts[i].contains('*') || parts[i].contains('?') || parts[i].contains('[') {
        i
    } else {
        literal_count(parts, i + 1)
    }
}

/// Segments joined as `PathBuf::push` joins them on Unix: empty segments add nothing, a
/// segment after a non-empty path gets one `/` before it.
pub open spec fn prefix_path(parts: Seq<Seq<char>>) -> Seq<char>
    decreases parts.len(),
{
    if parts.len() == 0 {
        Seq::empty()
    } else {
        let p = prefix_path(parts.drop_last());
        let s = parts.last();
        if s.len() == 0 {
            p
        } else if p.len() == 0 {
            s
        } else if p.last() == '/' {
            p + s
        } else {
            p + "/"@ + s
        }
    }
}

/// Whether a file's extension is one that watch mode extracts from.
pub open spec fn processed_file(path: Seq<char>) -> bool {
    match extension_of(file_name(path)) {
        Some(e) => e == "ts"@ || e == "tsx"@ || e == "js"@ || e == "jsx"@,
        None => false,
    }
}

/// Whether a file's extension is one that watch mode extracts from (see
/// [`processed_file`]).
pub fn should_process_file(path: &str) -> (r: bool)
    ensures
        r == processed_file(path@),
{
    match path_extension(&chars_of(path)) {
        Some(e) => seq_eq(&e, &chars_of("ts")) || seq_eq(&e, &chars_of("tsx")) || seq_eq(&e, &chars_of("js")) || seq_eq(
            &e,
            &chars_of("jsx"),
        ),
        None => false,
    }
}

/// The directory a glob pattern is watched from (see [`watch_prefix`]).
pub fn watch_dir_of(pattern: &str) -> (r: String)
    ensures
        r@ == watch_prefix(pattern@),
{
    let slash = chars_of("/");
    proof {
        reveal_strlit("/");
    }
    let parts = split_exec(&chars_of(pattern), &slash);
    let ghost pv = parts@.map_values(|v: Vec<char>| v@);
    let mut prefix: Vec<char> = Vec::new();
    let mut seen_part = false;
    let mut i: usize = 0;
    assert(pv.take(0) =~= Seq::<Seq<char>>::empty());
    proof {
        reveal(Seq::filter);
    }
    while i < parts.len() && !(has_char(&parts[i], '*') || has_char(&parts[i], '?') || has_char(&parts[i], '['))
        invariant
            i <= parts@.len(),
            pv == parts@.map_values(|v: Vec<char>| v@),
            pv == split(pattern@, "/"@),
            slash@ == "/"@,
            literal_count(pv, 0) == literal_count(pv, i as int),
            prefix@ == prefix_path(pv.take(i as int)),
            seen_part == (pv.take(i as int).filter(|p: Seq<char>| p.len() > 0).len() > 0),
        decreases parts.len() - i,
    {
        let part = &parts[i];
        assert(pv[i as int] == part@);
        let ghost t = pv.take(i as int + 1);
        assert(t.drop_last() =~= pv.take(i as int));
        assert(t.last() == part@);
        proof {
            reveal(Seq::filter);
        }
        if part.len() > 0 {
            if prefix.len() == 0 {
                prefix = crate::text::slice_vec(part, 0, part.len());
            } else if prefix[prefix.len() - 1] == '/' {
                crate::text::append_chars(&mut prefix, part);
            } else {
                crate::text::append_chars(&mut prefix, &slash);
                crate::text::append_chars(&mut prefix, part);
            }
            seen_part = true;
        }
        i = i + 1;
    }
    assert(literal_count(pv, 0) == i as int);
    if !seen_part {
        string_of(&chars_of("."))
    } else {
        string_of(&prefix)
    }
}

/// Changed and removed files of a batch of events: only the files watch mode extracts
/// from, each list sorted and each file once.
pub fn classify_events(events: &[(String, bool)]) -> (r: (Vec<String>, Vec<String>))
    ensures
        strictly_sorted(views(r.0@)),
        strictly_sorted(views(r.1@)),
        forall|p: Seq<char>| #[trigger] views(r.0@).contains(p) <==> exists|i: int|
            0 <= i < events@.len() && events@[i].0@ == p && events@[i].1 && processed_file(p),
        forall|p: Seq<char>| #[trigger] views(r.1@).contains(p) <==> exists|i: int|
            0 <= i < events@.len() && events@[i].0@ == p && !events@[i].1 && processed_file(p),
{
    let mut changed: Vec<String> = Vec::new();
    let mut removed: Vec<String> = Vec::new();
    let mut i: usize = 0;
    while i < events.len()
        invariant
            i <= events@.len(),
            forall|p: Seq<char>| #[trigger] views(changed@).contains(p) <==> exists|j: int|
                0 <= j < i && events@[j].0@ == p && events@[j].1 && processed_file(p),
            forall|p: Seq<char>| #[trigger] views(removed@).contains(p) <==> exists|j: int|
                0 <= j < i && events@[j].0@ == p && !events@[j].1 && processed_file(p),
        decreases events.len() - i,
    {
        let (path, exists) = (&events[i].0, events[i].1);
        if should_process_file(path.as_str()) {
            if exists {
                let ghost before = views(changed@);
                changed.push(path.clone());
                assert(views(changed@) =~= before.push(path@));
                assert forall|p: Seq<char>| #[trigger] views(changed@).contains(p) <==> exists|j: int|
                    0 <= j < i + 1 && events@[j].0@ == p && events@[j].1 && processed_file(p) by {
                    if views(changed@).contains(p) && p != path@ {
                        let k = choose|k: int| 0 <= k < views(changed@).len() && views(changed@)[k] == p;
                        assert(before[k] == p);
                        assert(before.contains(p));
                    }
                    if p == path@ {
                        assert(views(changed@)[before.len() as int] == p);
                    }
                    if exists|j: int| 0 <= j < i && events@[j].0@ == p && events@[j].1 && processed_file(p) {
                        assert(before.contains(p));
                        let k = choose|k: int| 0 <= k < before.len() && before[k] == p;
                        assert(views(changed@)[k] == p);
                    }
                }
            } else {
                let ghost before = views(removed@);
                removed.push(path.clone());
                assert(views(removed@) =~= before.push(path@));
                assert forall|p: Seq<char>| #[trigger] views(removed@).contains(p) <==> exists|j: int|
                    0 <= j < i + 1 && events@[j].0@ == p && !events@[j].1 && processed_file(p) by {
                    if views(removed@).contains(p) && p != path@ {
                        let k = choose|k: int| 0 <= k < views(removed@).len() && views(removed@)[k] == p;
                        assert(before[k] == p);
                        assert(before.contains(p));
                    }
                    if p == path@ {
                        assert(views(removed@)[before.len() as int] == p);
                    }
                    if exists|j: int| 0 <= j < i && events@[j].0@ == p && !events@[j].1 && processed_file(p) {
                        assert(before.contains(p));
                        let k = choose|k: int| 0 <= k < before.len() && before[k] == p;
                        assert(views(removed@)[k] == p);
                    }
                }
            }
        }
        i = i + 1;
    }
    let c = sorted_names(&changed);
    let r = sorted_names(&removed);
    proof {
        assert forall|p: Seq<char>| #[trigger] views(c@).contains(p) <==> views(changed@).contains(p) by {
            assert(views(c@).to_set().contains(p) == views(changed@).to_set().contains(p));
        }
        assert forall|p: Seq<char>| #[trigger] views(r@).contains(p) <==> views(removed@).contains(p) by {
            assert(views(r@).to_set().contains(p) == views(removed@).to_set().contains(p));
        }
    }
    (c, r)
}

/// The index of a file in a cache.
fn find_file(cache: &Vec<(String, Vec<ExtractedKey>)>, path: &str) -> (r: Option<usize>)
    ensures
        match r {
            Some(i) => i < cache@.len() && cache@[i as int].0@ == path@,
            None => forall|j: int| 0 <= j < cache@.len() ==> cache@[j].0@ != path@,
        },
{
    let p = chars_of(path);
    let mut i: usize = 0;
    while i < cache.len()
        invariant
            i <= cache@.len(),
            p@ == path@,
            forall|j: int| 0 <= j < i ==> cache@[j].0@ != path@,
        decreases cache.len() - i,
    {
        if crate::json::string_is(&cache[i].0, &p) {
            return Some(i);
        }
        i = i + 1;
    }
    None
}

/// The cache lookup finds a listed file's keys.
proof fn lemma_cache_get(c: Seq<(Seq<char>, Seq<KeyView>)>, i: int)
    requires
        cache_wf(c),
        0 <= i < c.len(),
    ensures
        cache_get(c, c[i].0) == Some(c[i].1),
{
    let j = choose|j: int| 0 <= j < c.len() && c[j].0 == c[i].0;
    if j != i {
        if j < i {
            assert(c[j].0 != c[i].0);
        } else {
            assert(c[i].0 != c[j].0);
        }
    }
}

impl FileWatcher {
    /// The cache's content.
    pub open spec fn cache(&self) -> Seq<(Seq<char>, Seq<KeyView>)> {
        cache_view(self.file_cache@)
    }

    /// Whether each file occurs once in the cache.
    pub open spec fn wf(&self) -> bool {
        cache_wf(cache_view(self.file_cache@))
    }

    /// A watcher with an empty cache and a 300 ms debounce, writing to the given directory
    /// or, without one, to the configured output.
    pub fn new(config: Config, output_dir: Option<String>) -> (r: FileWatcher)
        ensures
            r.wf(),
            r.cache().len() == 0,
            r.debounce_ms == 300,
            r.output_dir@ == match output_dir {
                Some(o) => o@,
                None => config.output@,
            },
            r.config == config,
    {
        let output = match output_dir {
            Some(o) => o,
            None => config.output.clone(),
        };
        let w = FileWatcher { config, output_dir: output, debounce_ms: 300, file_cache: Vec::new() };
        assert(cache_view(w.file_cache@) =~= Seq::<(Seq<char>, Seq<KeyView>)>::empty());
        w
    }

    /// The directories the input patterns are watched from, one per pattern (see
    /// [`watch_prefix`]).
    pub fn compute_watch_dirs(&self) -> (r: Vec<String>)
        ensures
            views(r@) == watch_prefixes(views(self.config.input@)),
    {
        let mut out: Vec<String> = Vec::new();
        let mut i: usize = 0;
        while i < self.config.input.len()
            invariant
                i <= self.config.input@.len(),
                views(out@) == watch_prefixes(views(self.config.input@).take(i as int)),
            decreases self.config.input.len() - i,
        {
            let ghost before = views(out@);
            out.push(watch_dir_of(self.config.input[i].as_str()));
            let ghost t = views(self.config.input@).take(i as int + 1);
            assert(t.drop_last() =~= views(self.config.input@).take(i as int));
            assert(t.last() == self.config.input@[i as int]@);
            assert(views(out@) =~= before.push(watch_prefix(self.config.input@[i as int]@)));
            i = i + 1;
        }
        assert(views(self.config.input@).take(self.config.input@.len() as int) =~= views(self.config.input@));
        out
    }

    /// Records a file's keys: an empty list drops the file from the cache; otherwise its
    /// keys replace those cached for it.
    pub fn update_file(&mut self, path: String, keys: Vec<ExtractedKey>)
        requires
            old(self).wf(),
        ensures
            final(self).wf(),
            cache_get(final(self).cache(), path@) == if keys@.len() == 0 {
                None
            } else {
                Some(key_views(keys@))
            },
            forall|q: Seq<char>| q != path@ ==> #[trigger] cache_get(final(self).cache(), q) == cache_get(old(self).cache(), q),
            final(self).config == old(self).config,
            final(self).output_dir == old(self).output_dir,
            final(self).debounce_ms == old(self).debounce_ms,
    {
        if keys.len() == 0 {
            self.remove_file(path.as_str());
            return;
        }
        let ghost c0 = cache_view(self.file_cache@);
        match find_file(&self.file_cache, path.as_str()) {
            Some(i) => {
                let ghost pv = path@;
                let ghost kv = key_views(keys@);
                self.file_cache.set(i, (path, keys));
                let ghost c1 = cache_view(self.file_cache@);
                assert(c1 =~= c0.update(i as int, (pv, kv)));
                proof {
                    assert forall|a: int, b: int| 0 <= a < b < c1.len() implies #[trigger] c1[a].0 != #[trigger] c1[b].0 by {
                        assert(c0[a].0 != c0[b].0);
                    }
                    lemma_cache_get(c1, i as int);
                    assert forall|q: Seq<char>| q != pv implies #[trigger] cache_get(c1, q) == cache_get(c0, q) by {
                        if exists|j: int| 0 <= j < c0.len() && c0[j].0 == q {
                            let j = choose|j: int| 0 <= j < c0.len() && c0[j].0 == q;
                            lemma_cache_get(c0, j);
                            lemma_cache_get(c1, j);
                        } else {
                            assert(!exists|j: int| 0 <= j < c1.len() && c1[j].0 == q) by {
                                if exists|j: int| 0 <= j < c1.len() && c1[j].0 == q {
                                    let j = choose|j: int| 0 <= j < c1.len() && c1[j].0 == q;
                                    assert(c0[j].0 == q);
                                }
                            }
                        }
                    }
                }
            },
            None => {
                let ghost pv = path@;
                let ghost kv = key_views(keys@);
                self.file_cache.push((path, keys));
                let ghost c1 = cache_view(self.file_cache@);
                assert(c1 =~= c0.push((pv, kv)));
                proof {
                    assert forall|a: int, b: int| 0 <= a < b < c1.len() implies #[trigger] c1[a].0 != #[trigger] c1[b].0 by {
                        if b < c0.len() {
                            assert(c0[a].0 != c0[b].0);
                        } else {
                            assert(self.file_cache@[a].0@ != pv);
                        }
                    }
                    lemma_cache_get(c1, c0.len() as int);
                    assert forall|q: Seq<char>| q != pv implies #[trigger] cache_get(c1, q) == cache_get(c0, q) by {
                        if exists|j: int| 0 <= j < c0.len() && c0[j].0 == q {
                            let j = choose|j: int| 0 <= j < c0.len() && c0[j].0 == q;
                            lemma_cache_get(c0, j);
                            lemma_cache_get(c1, j);
                        } else {
                            assert(!exists|j: int| 0 <= j < c1.len() && c1[j].0 == q) by {
                                if exists|j: int| 0 <= j < c1.len() && c1[j].0 == q {
                                    let j = choose|j: int| 0 <= j < c1.len() && c1[j].0 == q;
                                    if j < c0.len() {
                                        assert(c0[j].0 == q);
                                    }
                                }
                            }
                        }
                    }
                }
            },
        }
    }

    /// Drops a file from the cache.
    pub fn remove_file(&mut self, path: &str)
        requires
            old(self).wf(),
        ensures
            final(self).wf(),
            cache_get(final(self).cache(), path@) is None,
            forall|q: Seq<char>| q != path@ ==> #[trigger] cache_get(final(self).cache(), q) == cache_get(old(self).cache(), q),
            final(self).config == old(self).config,
            final(self).output_dir == old(self).output_dir,
            final(self).debounce_ms == old(self).debounce_ms,
    {
        let ghost c0 = cache_view(self.file_cache@);
        match find_file(&self.file_cache, path) {
            Some(i) => {
                self.file_cache.remove(i);
                let ghost c1 = cache_view(self.file_cache@);
                assert(c1 =~= c0.remove(i as int));
                proof {
                    assert forall|a: int, b: int| 0 <= a < b < c1.len() implies #[trigger] c1[a].0 != #[trigger] c1[b].0 by {
                        let a0 = if a < i { a } else { a + 1 };
                        let b0 = if b < i { b } else { b + 1 };
                        assert(c1[a] == c0[a0]);
                        assert(c1[b] == c0[b0]);
                        assert(c0[a0].0 != c0[b0].0);
                    }
                    assert(!exists|j: int| 0 <= j < c1.len() && c1[j].0 == path@) by {
                        if exists|j: int| 0 <= j < c1.len() && c1[j].0 == path@ {
                            let j = choose|j: int| 0 <= j < c1.len() && c1[j].0 == path@;
                            let j0 = if j < i { j } else { j + 1 };
                            assert(c0[j0].0 == path@);
                            assert(c0[i as int].0 == path@);
                        }
                    }
                    assert forall|q: Seq<char>| q != path@ implies #[trigger] cache_get(c1, q) == cache_get(c0, q) by {
                        if exists|j: int| 0 <= j < c0.len() && c0[j].0 == q {
                            let j = choose|j: int| 0 <= j < c0.len() && c0[j].0 == q;
                            lemma_cache_get(c0, j);
                            assert(j != i);
                            let j1 = if j < i { j } else { j - 1 };
                            assert(c1[j1] == c0[j]);
                            lemma_cache_get(c1, j1);
                        } else {
                            assert(!exists|j: int| 0 <= j < c1.len() && c1[j].0 == q) by {
                                if exists|j: int| 0 <= j < c1.len() && c1[j].0 == q {
                                    let j = choose|j: int| 0 <= j < c1.len() && c1[j].0 == q;
                                    let j0 = if j < i { j } else { j + 1 };
                                    assert(c0[j0].0 == q);
                                }
                            }
                        }
                    }
                }
            },
            None => {
                assert(!exists|j: int| 0 <= j < c0.len() && c0[j].0 == path@) by {
                    if exists|j: int| 0 <= j < c0.len() && c0[j].0 == path@ {
                        let j = choose|j: int| 0 <= j < c0.len() && c0[j].0 == path@;
                        assert(self.file_cache@[j].0@ == path@);
                    }
                }
            },
        }
    }

    /// All cached keys, file by file in cache order.
    pub fn all_keys(&self) -> (r: Vec<ExtractedKey>)
        ensures
            key_views(r@) == cache_keys(self.cache()),
    {
        let ghost c = cache_view(self.file_cache@);
        let mut out: Vec<ExtractedKey> = Vec::new();
        let mut i: usize = 0;
        assert(key_views(out@) =~= cache_keys(c.take(0)));
        while i < self.file_cache.len()
            invariant
                i <= self.file_cache@.len(),
                c == cache_view(self.file_cache@),
                key_views(out@) == cache_keys(c.take(i as int)),
            decreases self.file_cache.len() - i,
        {
            let ghost t = c.take(i as int + 1);
            assert(t.drop_last() =~= c.take(i as int));
            assert(t.last() == c[i as int]);
            let ks = &self.file_cache[i].1;
            let mut j: usize = 0;
            let ghost start = key_views(out@);
            while j < ks.len()
                invariant
                    j <= ks@.len(),
                    key_views(out@) == start + key_views(ks@).take(j as int),
                decreases ks.len() - j,
            {
                let k = &ks[j];
                let ghost before = key_views(out@);
                crate::keys::push_key(&mut out, &chars_of(k.key.as_str()), &k.namespace, &k.default_value);
                assert(key_views(ks@).take(j as int + 1) =~= key_views(ks@).take(j as int).push(k@));
                j = j + 1;
            }
            assert(key_views(ks@).take(ks@.len() as int) =~= key_views(ks@));
            i = i + 1;
        }
        assert(c.take(self.file_cache@.len() as int) =~= c);
        out
    }

    /// How many files the cache holds.
    pub fn cached_files(&self) -> (r: usize)
        ensures
            r == self.cache().len(),
    {
        self.file_cache.len()
    }
}

} // verus!
