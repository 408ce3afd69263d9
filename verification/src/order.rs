//! Comments in source order: the comment entries of a script sorted by position.
use crate::ast::{comment_map, distinct_positions};
use crate::text::views;
use vstd::prelude::*;

verus! {

/// Whether `s` lists the entries of `m` by strictly increasing position.
pub open spec fn is_sorted_enum(s: Seq<(int, Seq<Seq<char>>)>, m: Map<int, Seq<Seq<char>>>) -> bool {
    &&& forall|i: int, j: int| 0 <= i < j < s.len() ==> s[i].0 < s[j].0
    &&& forall|i: int| 0 <= i < s.len() ==> m.contains_key(#[trigger] s[i].0) && m[s[i].0] == s[i].1
    &&& forall|k: int| m.contains_key(k) ==> exists|i: int| 0 <= i < s.len() && #[trigger] s[i].0 == k
}

/// The entries of a comment map in position order.
pub open spec fn sorted_entries(m: Map<int, Seq<Seq<char>>>) -> Seq<(int, Seq<Seq<char>>)> {
    choose|s: Seq<(int, Seq<Seq<char>>)>| is_sorted_enum(s, m)
}

/// All texts of entries, entry by entry.
pub open spec fn flat_texts(s: Seq<(int, Seq<Seq<char>>)>) -> Seq<Seq<char>>
    decreases s.len(),
{
    if s.len() == 0 {
        Seq::empty()
    } else {
        flat_texts(s.drop_last()) + s.last().1
    }
}

/// The texts of a comment map, in position order.
pub open spec fn ordered_texts(m: Map<int, Seq<Seq<char>>>) -> Seq<Seq<char>> {
    flat_texts(sorted_entries(m))
}

/// Two sorted listings of the same map agree position by position.
proof fn lemma_sorted_enum_prefix(a: Seq<(int, Seq<Seq<char>>)>, b: Seq<(int, Seq<Seq<char>>)>, m: Map<int, Seq<Seq<char>>>, n: int)
    requires
        is_sorted_enum(a, m),
        is_sorted_enum(b, m),
        0 <= n <= a.len(),
        n <= b.len(),
    ensures
        forall|i: int| 0 <= i < n ==> #[trigger] a[i].0 == b[i].0,
    decreases n,
{
    if n > 0 {
        lemma_sorted_enum_prefix(a, b, m, n - 1);
        let d = n - 1;
        if a[d].0 < b[d].0 {
            assert(m.contains_key(a[d].0));
            let j = choose|j: int| 0 <= j < b.len() && #[trigger] b[j].0 == a[d].0;
            if j < d {
                assert(a[j].0 == b[j].0);
                assert(a[j].0 < a[d].0);
            } else if j > d {
                assert(b[d].0 < b[j].0);
            }
        } else if b[d].0 < a[d].0 {
            assert(m.contains_key(b[d].0));
            let j = choose|j: int| 0 <= j < a.len() && #[trigger] a[j].0 == b[d].0;
            if j < d {
                assert(a[j].0 == b[j].0);
                assert(b[j].0 < b[d].0);
            } else if j > d {
                assert(a[d].0 < a[j].0);
            }
        }
    }
}

/// A map has at most one sorted listing.
proof fn lemma_sorted_enum_unique(a: Seq<(int, Seq<Seq<char>>)>, b: Seq<(int, Seq<Seq<char>>)>, m: Map<int, Seq<Seq<char>>>)
    requires
        is_sorted_enum(a, m),
        is_sorted_enum(b, m),
    ensures
        a == b,
{
    if a.len() <= b.len() {
        lemma_sorted_enum_prefix(a, b, m, a.len() as int);
        if a.len() < b.len() {
            let k = b[a.len() as int].0;
            assert(m.contains_key(k));
            let j = choose|j: int| 0 <= j < a.len() && #[trigger] a[j].0 == k;
            assert(a[j].0 == b[j].0);
            assert(b[j].0 < b[a.len() as int].0);
        }
    } else {
        lemma_sorted_enum_prefix(b, a, m, b.len() as int);
        let k = a[b.len() as int].0;
        assert(m.contains_key(k));
        let j = choose|j: int| 0 <= j < b.len() && #[trigger] b[j].0 == k;
        assert(a[j].0 == b[j].0);
        assert(a[j].0 < a[b.len() as int].0);
    }
    assert forall|i: int| 0 <= i < a.len() implies a[i] == b[i] by {
        assert(a[i].0 == b[i].0);
        assert(m[a[i].0] == a[i].1);
        assert(m[b[i].0] == b[i].1);
    }
    assert(a =~= b);
}

/// The view of a list of comment entries.
pub open spec fn entries_view(s: Seq<(u32, Vec<String>)>) -> Seq<(int, Seq<Seq<char>>)> {
    s.map_values(|e: (u32, Vec<String>)| (e.0 as int, views(e.1@)))
}

/// Whether a position lies above `last` (every position does when `last` is `None`).
pub open spec fn above(p: u32, last: Option<u32>) -> bool {
    match last {
        Some(l) => p > l,
        None => true,
    }
}

/// Whether a position lies at or below `last`.
pub open spec fn at_or_below(p: u32, last: Option<u32>) -> bool {
    match last {
        Some(l) => p <= l,
        None => false,
    }
}

/// The index of the entry with the smallest position above `last` (all positions when
/// `last` is `None`).
fn next_entry(entries: &Vec<(u32, Vec<String>)>, last: Option<u32>) -> (r: Option<usize>)
    ensures
        match r {
            Some(j) => j < entries@.len() && above(entries@[j as int].0, last)
                && forall|k: int| #![trigger entries@[k]] 0 <= k < entries@.len() && above(entries@[k].0, last) ==> entries@[j as int].0 <= entries@[k].0,
            None => forall|k: int| #![trigger entries@[k]] 0 <= k < entries@.len() ==> !above(entries@[k].0, last),
        },
{
    let mut best: Option<usize> = None;
    let mut i: usize = 0;
    while i < entries.len()
        invariant
            i <= entries@.len(),
            match best {
                Some(j) => j < i && above(entries@[j as int].0, last)
                    && forall|k: int| #![trigger entries@[k]] 0 <= k < i && above(entries@[k].0, last) ==> entries@[j as int].0 <= entries@[k].0,
                None => forall|k: int| #![trigger entries@[k]] 0 <= k < i ==> !above(entries@[k].0, last),
            },
        decreases entries.len() - i,
    {
        let above = match last {
            Some(l) => entries[i].0 > l,
            None => true,
        };
        if above {
            match best {
                Some(j) => {
                    if entries[i].0 < entries[j].0 {
                        best = Some(i);
                    }
                },
                None => {
                    best = Some(i);
                },
            }
        }
        i = i + 1;
    }
    best
}

/// What holds while entries are taken in position order: `out` is strictly sorted, made of
/// entries, each at or below `last`, and holds every entry at or below `last`.
pub open spec fn sort_inv(entries: Seq<(u32, Vec<String>)>, out: Seq<(u32, Vec<String>)>, last: Option<u32>) -> bool {
    &&& forall|i: int, j: int| 0 <= i < j < out.len() ==> out[i].0 < out[j].0
    &&& forall|i: int| #![trigger out[i]] 0 <= i < out.len() ==> exists|j: int| #![trigger entries[j]] 0 <= j < entries.len() && entries[j].0 == out[i].0 && views(entries[j].1@) == views(out[i].1@)
    &&& forall|i: int| #![trigger out[i]] 0 <= i < out.len() ==> at_or_below(out[i].0, last)
    &&& (last is None ==> out.len() == 0)
    &&& forall|j: int| #![trigger entries[j]] 0 <= j < entries.len() && at_or_below(entries[j].0, last) ==> exists|i: int| 0 <= i < out.len() && #[trigger] out[i].0 == entries[j].0
}

/// Taking the next entry in position order keeps [`sort_inv`].
proof fn lemma_sort_step(
    entries: Seq<(u32, Vec<String>)>,
    out: Seq<(u32, Vec<String>)>,
    last: Option<u32>,
    j: int,
    e: (u32, Vec<String>),
)
    requires
        sort_inv(entries, out, last),
        0 <= j < entries.len(),
        above(entries[j].0, last),
        forall|k: int| #![trigger entries[k]] 0 <= k < entries.len() && above(entries[k].0, last) ==> entries[j].0 <= entries[k].0,
        e.0 == entries[j].0,
        views(e.1@) == views(entries[j].1@),
    ensures
        sort_inv(entries, out.push(e), Some(e.0)),
{
    let n = out.push(e);
    assert forall|i: int| #![trigger n[i]] 0 <= i < n.len() implies exists|k: int| #![trigger entries[k]] 0 <= k < entries.len() && entries[k].0 == n[i].0 && views(entries[k].1@) == views(n[i].1@) by {
        if i < out.len() {
            assert(n[i] == out[i]);
        } else {
            assert(entries[j].0 == n[i].0 && views(entries[j].1@) == views(n[i].1@));
        }
    }
    assert forall|i: int| #![trigger n[i]] 0 <= i < n.len() implies at_or_below(n[i].0, Some(e.0)) by {
        if i < out.len() {
            assert(n[i] == out[i]);
            assert(at_or_below(out[i].0, last));
        }
    }
    assert forall|i: int, k: int| 0 <= i < k < n.len() implies n[i].0 < n[k].0 by {
        if k == out.len() {
            assert(n[i] == out[i]);
            assert(at_or_below(out[i].0, last));
        } else {
            assert(n[i] == out[i]);
            assert(n[k] == out[k]);
        }
    }
    assert forall|k: int| #![trigger entries[k]] 0 <= k < entries.len() && at_or_below(entries[k].0, Some(e.0)) implies exists|i: int| 0 <= i < n.len() && #[trigger] n[i].0 == entries[k].0 by {
        if entries[k].0 == e.0 {
            assert(n[out.len() as int].0 == entries[k].0);
        } else {
            assert(!above(entries[k].0, last));
            assert(at_or_below(entries[k].0, last));
            let i = choose|i: int| 0 <= i < out.len() && #[trigger] out[i].0 == entries[k].0;
            assert(n[i] == out[i]);
        }
    }
}

/// The entries sorted by position.
pub fn sort_entries(entries: &Vec<(u32, Vec<String>)>) -> (r: Vec<(u32, Vec<String>)>)
    requires
        distinct_positions(entries@),
    ensures
        entries_view(r@) == sorted_entries(comment_map(entries@)),
{
    let ghost m = comment_map(entries@);
    let mut out: Vec<(u32, Vec<String>)> = Vec::new();
    let mut last: Option<u32> = None;
    loop
        invariant
            distinct_positions(entries@),
            m == comment_map(entries@),
            sort_inv(entries@, out@, last),
        ensures
            sort_inv(entries@, out@, last),
            forall|j: int| #![trigger entries@[j]] 0 <= j < entries@.len() ==> at_or_below(entries@[j].0, last),
        decreases (match last {
            Some(l) => u32::MAX - l,
            None => u32::MAX + 1,
        }),
    {
        match next_entry(entries, last) {
            Some(j) => {
                let e = (entries[j].0, crate::text::clone_strings(&entries[j].1));
                proof {
                    lemma_sort_step(entries@, out@, last, j as int, e);
                }
                out.push(e);
                last = Some(entries[j].0);
            },
            None => {
                break;
            },
        }
    }
    proof {
        let s = entries_view(out@);
        assert forall|i: int| 0 <= i < s.len() implies m.contains_key(#[trigger] s[i].0) && m[s[i].0] == s[i].1 by {
            assert(out@[i] == out@[i]);
            let j = choose|j: int| #![trigger entries@[j]] 0 <= j < entries@.len() && entries@[j].0 == out@[i].0 && views(entries@[j].1@) == views(out@[i].1@);
            lemma_map_entry(entries@, j);
        }
        assert forall|k: int| m.contains_key(k) implies exists|i: int| 0 <= i < s.len() && #[trigger] s[i].0 == k by {
            lemma_map_key(entries@, k);
            let j = choose|j: int| 0 <= j < entries@.len() && entries@[j].0 as int == k;
            assert(at_or_below(entries@[j].0, last));
            let i = choose|i: int| 0 <= i < out@.len() && #[trigger] out@[i].0 == entries@[j].0;
            assert(s[i].0 == k);
        }
        assert(is_sorted_enum(s, m));
        lemma_sorted_enum_unique(s, sorted_entries(m), m);
    }
    out
}

/// A key of a comment map comes from some entry.
proof fn lemma_map_key(entries: Seq<(u32, Vec<String>)>, k: int)
    requires
        comment_map(entries).contains_key(k),
    ensures
        exists|j: int| 0 <= j < entries.len() && entries[j].0 as int == k,
    decreases entries.len(),
{
    if entries.len() > 0 && entries.last().0 as int != k {
        lemma_map_key(entries.drop_last(), k);
        let j = choose|j: int| 0 <= j < entries.drop_last().len() && entries.drop_last()[j].0 as int == k;
        assert(entries[j].0 as int == k);
    }
}

/// With distinct positions, each entry is what the comment map holds at its position.
proof fn lemma_map_entry(entries: Seq<(u32, Vec<String>)>, j: int)
    requires
        distinct_positions(entries),
        0 <= j < entries.len(),
    ensures
        comment_map(entries).contains_key(entries[j].0 as int),
        comment_map(entries)[entries[j].0 as int] == views(entries[j].1@),
    decreases entries.len(),
{
    if j < entries.len() - 1 {
        let pre = entries.drop_last();
        assert(distinct_positions(pre));
        assert(pre[j] == entries[j]);
        lemma_map_entry(pre, j);
        assert(entries.last().0 != entries[j].0);
    }
}

/// All texts of the entries, entry by entry.
pub fn flat_texts_exec(entries: &Vec<(u32, Vec<String>)>) -> (r: Vec<String>)
    ensures
        views(r@) == flat_texts(entries_view(entries@)),
{
    let ghost ev = entries_view(entries@);
    let mut out: Vec<String> = Vec::new();
    let mut i: usize = 0;
    while i < entries.len()
        invariant
            i <= entries@.len(),
            ev == entries_view(entries@),
            views(out@) == flat_texts(ev.take(i as int)),
        decreases entries.len() - i,
    {
        let texts = &entries[i].1;
        let ghost before = views(out@);
        let mut k: usize = 0;
        while k < texts.len()
            invariant
                k <= texts@.len(),
                views(out@) == before + views(texts@).take(k as int),
            decreases texts.len() - k,
        {
            let x = texts[k].clone();
            let ghost prev = views(out@);
            out.push(x);
            assert(views(out@) =~= prev.push(texts@[k as int]@));
            assert(views(texts@).take(k as int + 1) =~= views(texts@).take(k as int).push(texts@[k as int]@));
            assert(views(out@) =~= before + views(texts@).take(k as int + 1));
            k = k + 1;
        }
        assert(views(texts@).take(texts@.len() as int) =~= views(texts@));
        assert(ev.take(i as int + 1).drop_last() =~= ev.take(i as int));
        assert(ev.take(i as int + 1).last() == ev[i as int]);
        i = i + 1;
    }
    assert(ev.take(ev.len() as int) =~= ev);
    out
}

} // verus!
