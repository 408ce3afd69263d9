//! Translation calls inside component templates (`{{ $t('key') }}`), found by scanning
//! text for a function name followed by a balanced argument list.
use crate::text::{concat2, cviews, matches_at, matches_at_exec, skip_ws, skip_ws_exec, slice_vec};
use vstd::prelude::*;

verus! {

/// Whether `char::is_alphanumeric` holds of a character (Unicode alphabetic or numeric).
pub uninterp spec fn unicode_alphanumeric(c: char) -> bool;

/// `char::is_alphanumeric`; the result is named, not described.
#[verifier::external_body]
pub(crate) fn is_alphanumeric(c: char) -> (r: bool)
    ensures
        r == unicode_alphanumeric(c),
{
    c.is_alphanumeric()
}

/// A character that may continue an identifier or a member path.
pub open spec fn is_ident_char(c: char) -> bool {
    c == '_' || c == '$' || c == '.' || unicode_alphanumeric(c)
}

/// Whether no identifier character touches `s[start..end]` on either side.
pub open spec fn boundary_ok(s: Seq<char>, start: int, end: int) -> bool {
    (start > 0 ==> !is_ident_char(s[start - 1])) && (end < s.len() ==> !is_ident_char(s[end]))
}

/// Whether `name` occurs at `i` as a whole word.
pub open spec fn name_fits(s: Seq<char>, name: Seq<char>, i: int) -> bool {
    matches_at(s, name, i) && boundary_ok(s, i, i + name.len())
}

/// The longest of the first `n` names that occurs at `i` as a whole word.
pub open spec fn name_at(s: Seq<char>, names: Seq<Seq<char>>, i: int, n: int) -> Option<Seq<char>>
    decreases n,
{
    if n <= 0 || n > names.len() {
        None
    } else {
        let b = name_at(s, names, i, n - 1);
        if name_fits(s, names[n - 1], i) && (b is None || names[n - 1].len() > b->0.len()) {
            Some(names[n - 1])
        } else {
            b
        }
    }
}

/// Where a parenthesized group opened at or after `i` (across whitespace) starts.
pub open spec fn paren_after(s: Seq<char>, i: int) -> Option<int> {
    let k = skip_ws(s, i);
    if 0 <= k < s.len() && s[k] == '(' {
        Some(k)
    } else {
        None
    }
}

/// One past the parenthesis that closes the group scanned from `i` (strings in any quote
/// kind skipped, backslash escapes inside them).
pub open spec fn paren_scan(s: Seq<char>, i: int, depth: int, quote: Option<char>, esc: bool) -> Option<int>
    decreases s.len() - i,
{
    if i < 0 || i >= s.len() {
        None
    } else {
        let ch = s[i];
        match quote {
            Some(q) => if esc {
                paren_scan(s, i + 1, depth, quote, false)
            } else if ch == '\\' {
                paren_scan(s, i + 1, depth, quote, true)
            } else if ch == q {
                paren_scan(s, i + 1, depth, None, false)
            } else {
                paren_scan(s, i + 1, depth, quote, false)
            },
            None => if ch == '\'' || ch == '"' || ch == '`' {
                paren_scan(s, i + 1, depth, Some(ch), false)
            } else if ch == '(' {
                paren_scan(s, i + 1, depth + 1, None, false)
            } else if ch == ')' {
                if depth <= 0 {
                    None
                } else if depth == 1 {
                    Some(i + 1)
                } else {
                    paren_scan(s, i + 1, depth - 1, None, false)
                }
            } else {
                paren_scan(s, i + 1, depth, None, false)
            },
        }
    }
}

pub proof fn lemma_paren_scan_bounds(s: Seq<char>, i: int, depth: int, quote: Option<char>, esc: bool)
    requires
        0 <= i,
    ensures
        paren_scan(s, i, depth, quote, esc) matches Some(e) ==> i < e <= s.len(),
    decreases s.len() - i,
{
    if i < s.len() {
        let ch = s[i];
        lemma_paren_scan_bounds(s, i + 1, depth, quote, false);
        lemma_paren_scan_bounds(s, i + 1, depth, quote, true);
        lemma_paren_scan_bounds(s, i + 1, depth, None, false);
        lemma_paren_scan_bounds(s, i + 1, depth, Some(ch), false);
        lemma_paren_scan_bounds(s, i + 1, depth + 1, None, false);
        lemma_paren_scan_bounds(s, i + 1, depth - 1, None, false);
    }
}

pub proof fn lemma_skip_ws_ge(s: Seq<char>, i: int)
    requires
        0 <= i,
    ensures
        skip_ws(s, i) >= i,
    decreases s.len() - i,
{
    if i < s.len() && crate::text::is_ws(s[i]) {
        lemma_skip_ws_ge(s, i + 1);
    }
}

/// The calls found in `s` from `i` on: at each position, the longest configured name that
/// stands there as a whole word and is followed (across whitespace) by a balanced argument
/// list gives the name and that list; the scan resumes after the list.
pub open spec fn calls_from(s: Seq<char>, names: Seq<Seq<char>>, i: int) -> Seq<Seq<char>>
    decreases s.len() - i,
{
    if i < 0 || i >= s.len() {
        Seq::empty()
    } else {
        match name_at(s, names, i, names.len() as int) {
            Some(n) => match paren_after(s, i + n.len()) {
                Some(o) => match paren_scan(s, o, 0, None, false) {
                    Some(e) => {
                        proof {
                            lemma_paren_scan_bounds(s, o, 0, None, false);
                            lemma_skip_ws_ge(s, i + n.len());
                        }
                        seq![n + s.subrange(o, e)] + calls_from(s, names, e)
                    },
                    None => calls_from(s, names, i + 1),
                },
                None => calls_from(s, names, i + 1),
            },
            None => calls_from(s, names, i + 1),
        }
    }
}

/// Whether a character may continue an identifier.
fn is_ident_char_exec(c: char) -> (r: bool)
    ensures
        r == is_ident_char(c),
{
    c == '_' || c == '$' || c == '.' || is_alphanumeric(c)
}

/// The longest name that occurs at `i` as a whole word (see [`name_at`]).
fn name_at_exec(s: &[char], names: &Vec<Vec<char>>, i: usize) -> (r: Option<usize>)
    requires
        i < s@.len(),
    ensures
        match r {
            Some(k) => k < names@.len() && name_at(s@, cviews(names@), i as int, names@.len() as int) == Some(names@[k as int]@),
            None => name_at(s@, cviews(names@), i as int, names@.len() as int) is None,
        },
{
    let ghost nv = cviews(names@);
    let mut best: Option<usize> = None;
    let mut k: usize = 0;
    while k < names.len()
        invariant
            k <= names@.len(),
            i < s@.len(),
            nv == cviews(names@),
            match best {
                Some(b) => b < k && name_at(s@, nv, i as int, k as int) == Some(names@[b as int]@),
                None => name_at(s@, nv, i as int, k as int) is None,
            },
        decreases names.len() - k,
    {
        let name = &names[k];
        assert(nv[k as int] == name@);
        let n = s.len();
        let fits = if matches_at_exec(s, name, i) {
            let end = i + name.len();
            let left = i == 0 || !is_ident_char_exec(s[i - 1]);
            let right = end >= n || !is_ident_char_exec(s[end]);
            left && right
        } else {
            false
        };
        let longer = match best {
            Some(b) => name.len() > names[b].len(),
            None => true,
        };
        if fits && longer {
            best = Some(k);
        }
        k = k + 1;
    }
    best
}

/// Where a parenthesized group starts at or after `i`, across whitespace.
fn paren_after_exec(s: &[char], i: usize) -> (r: Option<usize>)
    requires
        i <= s@.len(),
    ensures
        match r {
            Some(k) => paren_after(s@, i as int) == Some(k as int),
            None => paren_after(s@, i as int) is None,
        },
{
    let k = skip_ws_exec(s, i);
    if k < s.len() && s[k] == '(' {
        Some(k)
    } else {
        None
    }
}

/// One past the parenthesis closing the group that opens at `i` (see [`paren_scan`]).
fn paren_end_exec(s: &[char], start: usize) -> (r: Option<usize>)
    requires
        start <= s@.len(),
    ensures
        match r {
            Some(e) => paren_scan(s@, start as int, 0, None, false) == Some(e as int) && start < e <= s@.len(),
            None => paren_scan(s@, start as int, 0, None, false) is None,
        },
{
    let mut depth: usize = 0;
    let mut quote: Option<char> = None;
    let mut esc = false;
    let mut i: usize = start;
    while i < s.len()
        invariant
            start <= i <= s@.len(),
            depth <= i - start,
            quote is None ==> !esc,
            paren_scan(s@, start as int, 0, None, false) == paren_scan(s@, i as int, depth as int, quote, esc),
        decreases s.len() - i,
    {
        let ch = s[i];
        match quote {
            Some(q) => {
                if esc {
                    esc = false;
                } else if ch == '\\' {
                    esc = true;
                } else if ch == q {
                    quote = None;
                }
            },
            None => {
                if ch == '\'' || ch == '"' || ch == '`' {
                    quote = Some(ch);
                } else if ch == '(' {
                    depth = depth + 1;
                } else if ch == ')' {
                    if depth == 0 {
                        return None;
                    }
                    if depth == 1 {
                        proof {
                            lemma_paren_scan_bounds(s@, start as int, 0, None, false);
                        }
                        return Some(i + 1);
                    }
                    depth = depth - 1;
                }
            },
        }
        i = i + 1;
    }
    None
}

/// The calls found in `s` (see [`calls_from`]).
pub fn translation_calls(s: &[char], names: &Vec<Vec<char>>) -> (r: Vec<Vec<char>>)
    ensures
        cviews(r@) == calls_from(s@, cviews(names@), 0),
{
    let ghost nv = cviews(names@);
    let mut out: Vec<Vec<char>> = Vec::new();
    let mut i: usize = 0;
    let n = s.len();
    while i < n
        invariant
            i <= n,
            n == s@.len(),
            nv == cviews(names@),
            calls_from(s@, nv, 0) == cviews(out@) + calls_from(s@, nv, i as int),
        decreases n - i,
    {
        let ghost before = cviews(out@);
        match name_at_exec(s, names, i) {
            Some(k) => {
                let len = names[k].len();
                proof {
                    crate::text::lemma_find_from_bounds(s@, names@[k as int]@, i as int);
                }
                assert(matches_at(s@, names@[k as int]@, i as int)) by {
                    lemma_name_at_fits(s@, nv, i as int, nv.len() as int);
                }
                let after = i + len;
                match paren_after_exec(s, after) {
                    Some(o) => {
                        match paren_end_exec(s, o) {
                            Some(e) => {
                                proof {
                                    lemma_skip_ws_ge(s@, after as int);
                                }
                                let call = concat2(&names[k], &slice_vec(s, o, e));
                                out.push(call);
                                assert(cviews(out@) =~= before.push(names@[k as int]@ + s@.subrange(o as int, e as int)));
                                assert(cviews(out@) + calls_from(s@, nv, e as int) =~= before + calls_from(s@, nv, i as int));
                                i = e;
                                continue;
                            },
                            None => {},
                        }
                    },
                    None => {},
                }
            },
            None => {},
        }
        i = i + 1;
    }
    assert(cviews(out@) + calls_from(s@, nv, n as int) =~= cviews(out@));
    out
}

/// A name [`name_at`] picks does occur there.
proof fn lemma_name_at_fits(s: Seq<char>, names: Seq<Seq<char>>, i: int, n: int)
    ensures
        name_at(s, names, i, n) matches Some(x) ==> name_fits(s, x, i),
    decreases n,
{
    if n > 0 && n <= names.len() {
        lemma_name_at_fits(s, names, i, n - 1);
    }
}

} // verus!
