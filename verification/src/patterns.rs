//! Regular expressions, through the `regex` crate.
use vstd::prelude::*;

verus! {

/// A capture group as a match reports it: the captured text, and the haystack from the
/// group's start to its end.
pub open spec fn group_view(g: Option<(String, String)>) -> Option<(Seq<char>, Seq<char>)> {
    match g {
        Some((a, b)) => Some((a@, b@)),
        None => None,
    }
}

/// The groups of one match (group 0, the whole match, first).
pub open spec fn match_view(m: Vec<Option<(String, String)>>) -> Seq<Option<(Seq<char>, Seq<char>)>> {
    m@.map_values(|g: Option<(String, String)>| group_view(g))
}

/// The matches of a search, in order.
pub open spec fn matches_view(v: Seq<Vec<Option<(String, String)>>>) -> Seq<Seq<Option<(Seq<char>, Seq<char>)>>> {
    v.map_values(|m: Vec<Option<(String, String)>>| match_view(m))
}

/// Whether a reported group fits its haystack: the rest of the text from the group's start
/// is a suffix of the text, and the captured text begins it.
pub open spec fn group_fits(text: Seq<char>, g: Option<(Seq<char>, Seq<char>)>) -> bool {
    match g {
        Some((t, tail)) => tail.len() <= text.len() && text.subrange(text.len() - tail.len(), text.len() as int) == tail
            && t.len() <= tail.len() && tail.subrange(0, t.len() as int) == t,
        None => true,
    }
}

/// Whether every group of every match fits the haystack.
pub open spec fn all_groups_fit(text: Seq<char>, ms: Seq<Seq<Option<(Seq<char>, Seq<char>)>>>) -> bool {
    forall|i: int, g: int| 0 <= i < ms.len() && 0 <= g < ms[i].len() ==> group_fits(text, #[trigger] ms[i][g])
}

/// What `Regex::new(pattern)` then `captures_iter(text)` give: `None` when the pattern does
/// not compile; otherwise the successive non-overlapping matches, each with its groups.
pub uninterp spec fn regex_matches(pattern: Seq<char>, text: Seq<char>) -> Option<Seq<Seq<Option<(Seq<char>, Seq<char>)>>>>;

/// What `regex::escape` makes of a text.
pub uninterp spec fn regex_escape(s: Seq<char>) -> Seq<char>;

/// Compiles `pattern` (`regex::Regex::new`) and lists its matches in `text`
/// (`Regex::captures_iter`): for each match, each group as its text and the rest of `text`
/// from the group's start. The result is named; the contract adds only that each group is
/// a slice of `text` (what `Match::as_str` and slicing at `Match::start` give).
#[verifier::external_body]
pub(crate) fn regex_captures_all(pattern: &str, text: &str) -> (r: Option<Vec<Vec<Option<(String, String)>>>>)
    ensures
        match r {
            Some(v) => regex_matches(pattern@, text@) == Some(matches_view(v@)) && all_groups_fit(text@, matches_view(v@)),
            None => regex_matches(pattern@, text@) is None,
        },
{
    let re = regex::Regex::new(pattern).ok()?;
    Some(
        re.captures_iter(text).map(|c| {
            c.iter().map(|g| g.map(|m| (m.as_str().to_string(), text[m.start()..].to_string()))).collect()
        }).collect(),
    )
}

/// `regex::escape`: the text with the regex metacharacters escaped. The result is named.
#[verifier::external_body]
pub(crate) fn escape_regex(s: &str) -> (r: String)
    ensures
        r@ == regex_escape(s@),
{
    regex::escape(s)
}

/// Group `g` of the first match: `None` when nothing matches (or the pattern is invalid),
/// otherwise the group's text if it took part.
pub open spec fn first_group(ms: Option<Seq<Seq<Option<(Seq<char>, Seq<char>)>>>>, g: int) -> Option<Option<Seq<char>>> {
    match ms {
        Some(v) => if v.len() == 0 {
            None
        } else if 0 <= g < v[0].len() {
            match v[0][g] {
                Some((t, _)) => Some(Some(t)),
                None => Some(None),
            }
        } else {
            Some(None)
        },
        None => None,
    }
}

/// Whether the pattern compiles and matches somewhere.
pub open spec fn finds(ms: Option<Seq<Seq<Option<(Seq<char>, Seq<char>)>>>>) -> bool {
    match ms {
        Some(v) => v.len() > 0,
        None => false,
    }
}

/// Group `g` of match `m`: its text and the rest of the haystack from its start.
pub open spec fn group_at(m: Seq<Option<(Seq<char>, Seq<char>)>>, g: int) -> Option<(Seq<char>, Seq<char>)> {
    if 0 <= g < m.len() {
        m[g]
    } else {
        None
    }
}

/// Group `g` of a match.
pub fn group_exec(m: &Vec<Option<(String, String)>>, g: usize) -> (r: Option<(&String, &String)>)
    ensures
        match r {
            Some((a, b)) => group_at(match_view(*m), g as int) == Some((a@, b@)),
            None => group_at(match_view(*m), g as int) is None,
        },
{
    if g < m.len() {
        match &m[g] {
            Some((a, b)) => Some((a, b)),
            None => None,
        }
    } else {
        None
    }
}

/// Group `g` of the first match of `pattern` in `text` (see [`first_group`]).
pub fn first_group_exec(pattern: &str, text: &str, g: usize) -> (r: Option<Option<String>>)
    ensures
        match r {
            Some(Some(t)) => first_group(regex_matches(pattern@, text@), g as int) == Some(Some(t@)),
            Some(None) => first_group(regex_matches(pattern@, text@), g as int) == Some(None::<Seq<char>>),
            None => first_group(regex_matches(pattern@, text@), g as int) is None,
        },
{
    match regex_captures_all(pattern, text) {
        Some(v) => {
            if v.len() == 0 {
                None
            } else {
                assert(matches_view(v@)[0] == match_view(v@[0]));
                match group_exec(&v[0], g) {
                    Some((t, _)) => Some(Some(t.clone())),
                    None => Some(None),
                }
            }
        },
        None => None,
    }
}

/// Whether `pattern` compiles and matches somewhere in `text`.
pub fn finds_exec(pattern: &str, text: &str) -> (r: bool)
    ensures
        r == finds(regex_matches(pattern@, text@)),
{
    match regex_captures_all(pattern, text) {
        Some(v) => v.len() > 0,
        None => false,
    }
}

} // verus!
