//! Searching text with a regular expression.
//!
//! The search itself is the `regex` crate's. What it finds is not restated
//! here: each result has a name, and the rest of the library is proved for
//! whatever that name stands for.

use vstd::prelude::*;
use crate::format::texts;

verus! {

/// One match of a pattern: the text that matched, and the text that the
/// pattern's first group matched, if the group took part.
pub type Found = (Seq<char>, Option<Seq<char>>);

/// Whether `regex::Regex::new` accepts `pattern`.
pub uninterp spec fn pattern_is_valid(pattern: Seq<char>) -> bool;

/// What `regex::Regex::captures_iter` finds of `pattern` in `haystack`: the
/// matches from left to right, none overlapping another.
pub uninterp spec fn pattern_matches(pattern: Seq<char>, haystack: Seq<char>) -> Seq<Found>;

/// What `regex::Regex::split` leaves of `haystack`: the texts before, between
/// and after the matches of `pattern`, from left to right.
pub uninterp spec fn pattern_pieces(pattern: Seq<char>, haystack: Seq<char>) -> Seq<Seq<char>>;

/// The view of one match as the search hands it out.
pub open spec fn found_view(m: (String, Option<String>)) -> Found {
    (
        m.0@,
        match m.1 {
            Some(group) => Some(group@),
            None => None,
        },
    )
}

/// The views of the matches that the search hands out.
pub open spec fn found_views(v: Seq<(String, Option<String>)>) -> Seq<Found> {
    v.map_values(|m: (String, Option<String>)| found_view(m))
}

/// The pieces and the texts in turn, joined: the first piece, the first
/// text, the second piece, and so on, as far as both go.
pub open spec fn weave(pieces: Seq<Seq<char>>, between: Seq<Seq<char>>) -> Seq<char>
    decreases pieces.len(),
{
    if pieces.len() == 0 {
        Seq::empty()
    } else if between.len() == 0 {
        pieces[0]
    } else {
        pieces[0] + between[0] + weave(pieces.drop_first(), between.drop_first())
    }
}

/// The texts that matched, without their groups.
pub open spec fn matched_texts(found: Seq<Found>) -> Seq<Seq<char>> {
    found.map_values(|m: Found| m.0)
}

/// Compiles `pattern` with `regex::Regex::new` and collects what
/// `Regex::captures_iter` yields on `haystack`: for each match its text and
/// the text of group 1. Gives `None` exactly when the pattern does not
/// compile; the matches are the named ones.
#[verifier::external_body]
pub(crate) fn find_matches(pattern: &str, haystack: &str) -> (r: Option<Vec<(String, Option<String>)>>)
    ensures
        r is Some <==> pattern_is_valid(pattern@),
        r is Some ==> found_views(r->Some_0@) == pattern_matches(pattern@, haystack@),
{
    match regex::Regex::new(pattern) {
        Ok(re) => Some(
            re.captures_iter(haystack).map(
                |c| (c[0].to_string(), c.get(1).map(|m| m.as_str().to_string())),
            ).collect(),
        ),
        Err(_) => None,
    }
}

/// Compiles `pattern` with `regex::Regex::new` and collects what
/// `Regex::split` yields on `haystack`. Gives `None` exactly when the
/// pattern does not compile; the pieces are the named ones. `split` cuts
/// the haystack at the matches that `captures_iter` reports, so the pieces
/// with the matched texts between them make up the haystack.
#[verifier::external_body]
pub(crate) fn split_pieces(pattern: &str, haystack: &str) -> (r: Option<Vec<String>>)
    ensures
        r is Some <==> pattern_is_valid(pattern@),
        r is Some ==> texts(r->Some_0@) == pattern_pieces(pattern@, haystack@),
        r is Some ==> weave(texts(r->Some_0@), matched_texts(pattern_matches(pattern@, haystack@)))
            == haystack@,
{
    match regex::Regex::new(pattern) {
        Ok(re) => Some(re.split(haystack).map(|piece| piece.to_string()).collect()),
        Err(_) => None,
    }
}

/// What `regex::Regex::captures` finds of `pattern` in `haystack`: for the
/// leftmost match, the texts that groups 1 and 2 matched, each if the
/// group took part; `None` when there is no match.
pub uninterp spec fn pattern_first_match(pattern: Seq<char>, haystack: Seq<char>) -> Option<
    (Option<Seq<char>>, Option<Seq<char>>),
>;

/// The view of a text that may not be there.
pub open spec fn text_view(text: Option<String>) -> Option<Seq<char>> {
    match text {
        Some(t) => Some(t@),
        None => None,
    }
}

/// The view of the groups of a match that may not be there.
pub open spec fn groups_view(groups: Option<(Option<String>, Option<String>)>) -> Option<
    (Option<Seq<char>>, Option<Seq<char>>),
> {
    match groups {
        Some(g) => Some((text_view(g.0), text_view(g.1))),
        None => None,
    }
}

/// Compiles `pattern` with `regex::Regex::new` and searches `haystack` with
/// `Regex::captures`. Gives `None` exactly when the pattern does not
/// compile; otherwise the groups 1 and 2 of the leftmost match, which are
/// the named ones, or no groups when nothing matches.
#[verifier::external_body]
pub(crate) fn first_match(pattern: &str, haystack: &str) -> (r: Option<
    Option<(Option<String>, Option<String>)>,
>)
    ensures
        r is Some <==> pattern_is_valid(pattern@),
        r is Some ==> groups_view(r->Some_0) == pattern_first_match(pattern@, haystack@),
{
    match regex::Regex::new(pattern) {
        Ok(re) => Some(
            re.captures(haystack).map(
                |c|
                    (
                        c.get(1).map(|m| m.as_str().to_string()),
                        c.get(2).map(|m| m.as_str().to_string()),
                    ),
            ),
        ),
        Err(_) => None,
    }
}

} // verus!
