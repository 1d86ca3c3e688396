//! Regular expressions: the matches that `regex` finds, and the first capture of a pattern.

use vstd::prelude::*;

verus! {

/// Named result of compiling `pattern` with `regex::Regex::new` and listing the capture
/// groups of each match of `captures_iter` on `text` (`None` when the pattern does not
/// compile).
pub uninterp spec fn regex_captures(pattern: Seq<char>, text: Seq<char>) -> Option<Seq<Seq<Option<Seq<char>>>>>;

pub open spec fn captures_view(r: Option<Vec<Vec<Option<String>>>>) -> Option<Seq<Seq<Option<Seq<char>>>>> {
    match r {
        Some(v) => Some(
            v@.map_values(
                |c: Vec<Option<String>>|
                    c@.map_values(
                        |g: Option<String>|
                            match g {
                                Some(s) => Some(s@),
                                None => None,
                            },
                    ),
            ),
        ),
        None => None,
    }
}

/// Trusted: `regex::Regex::new(pattern)` and, when it compiles, `captures_iter(text)`: for
/// each successive non-overlapping match, the text of every capture group (group 0 is the
/// whole match; `None` for a group that took no part). A function of `pattern` and `text`.
#[verifier::external_body]
fn regex_capture_all(pattern: &str, text: &str) -> (r: Option<Vec<Vec<Option<String>>>>)
    ensures
        captures_view(r) == regex_captures(pattern@, text@),
{
    let re = regex::Regex::new(pattern).ok()?;
    Some(re.captures_iter(text).map(|c| c.iter().map(|m| m.map(|m| m.as_str().to_string())).collect()).collect())
}

/// Capture group `i` of a match.
pub open spec fn group(c: Seq<Option<Seq<char>>>, i: int) -> Option<Seq<char>> {
    if 0 <= i < c.len() {
        c[i]
    } else {
        None
    }
}

pub open spec fn matches_of(pattern: Seq<char>, text: Seq<char>) -> Seq<Seq<Option<Seq<char>>>> {
    match regex_captures(pattern, text) {
        Some(cs) => cs,
        None => Seq::empty(),
    }
}

pub open spec fn groups_view(c: Seq<Option<String>>) -> Seq<Option<Seq<char>>> {
    c.map_values(
        |g: Option<String>|
            match g {
                Some(s) => Some(s@),
                None => None,
            },
    )
}

pub fn captures_of(pattern: &str, text: &str) -> (r: Vec<Vec<Option<String>>>)
    ensures
        r@.map_values(|c: Vec<Option<String>>| groups_view(c@)) == matches_of(pattern@, text@),
{
    match regex_capture_all(pattern, text) {
        Some(v) => {
            assert(v@.map_values(|c: Vec<Option<String>>| groups_view(c@)) =~= captures_view(Some(v)).unwrap());
            v
        },
        None => {
            let e: Vec<Vec<Option<String>>> = Vec::new();
            assert(e@.map_values(|c: Vec<Option<String>>| groups_view(c@)) =~= Seq::<Seq<Option<Seq<char>>>>::empty());
            e
        },
    }
}

/// Capture group `g` of the first match of `pattern` in `text`: `None` when there is no
/// match, when the group took no part in it, or when the pattern does not compile. This is
/// `Regex::new(pattern)` then `captures(text)` and `get(g)`.
pub open spec fn first_group(pattern: Seq<char>, text: Seq<char>, g: int) -> Option<Seq<char>> {
    let ms = matches_of(pattern, text);
    if ms.len() > 0 {
        group(ms[0], g)
    } else {
        None
    }
}

/// Whether `pattern` matches somewhere in `text` (`Regex::is_match`; false when the pattern
/// does not compile).
pub open spec fn has_match(pattern: Seq<char>, text: Seq<char>) -> bool {
    matches_of(pattern, text).len() > 0
}

/// Capture group `g` of the first match of `pattern` in `text`.
pub fn first_match_group(pattern: &str, text: &str, g: usize) -> (r: Option<String>)
    ensures
        match r {
            Some(v) => first_group(pattern@, text@, g as int) == Some(v@),
            None => first_group(pattern@, text@, g as int) is None,
        },
{
    let ms = captures_of(pattern, text);
    proof {
        if ms@.len() > 0 {
            assert(ms@.map_values(|c: Vec<Option<String>>| groups_view(c@))[0] == groups_view(ms@[0]@));
        }
    }
    if ms.len() == 0 {
        return None;
    }
    if g < ms[0].len() {
        assert(groups_view(ms@[0]@)[g as int] == match ms@[0]@[g as int] {
            Some(s) => Some(s@),
            None => None::<Seq<char>>,
        });
        match &ms[0][g] {
            Some(s) => Some(s.clone()),
            None => None,
        }
    } else {
        None
    }
}

/// Whether `pattern` matches somewhere in `text`.
pub fn is_match(pattern: &str, text: &str) -> (r: bool)
    ensures
        r == has_match(pattern@, text@),
{
    let ms = captures_of(pattern, text);
    ms.len() > 0
}

} // verus!
