//! Finding aliases by fragments of their names.

use vstd::prelude::*;
use crate::format::texts;
use crate::order::{ascending, insert_ascending};
use crate::text::{contains_chars, contains_text, from_range, to_chars};
use crate::text_map::TextMap;

verus! {

/// The alias files of one storage root: the text of each file, by the
/// file's name.
pub type Directory = TextMap;

/// Whether `c` is white space.
pub open spec fn is_space(c: char) -> bool {
    ||| ('\u{0009}' <= c && c <= '\u{000D}')
    ||| c == ' '
    ||| c == '\u{0085}'
    ||| c == '\u{00A0}'
    ||| c == '\u{1680}'
    ||| ('\u{2000}' <= c && c <= '\u{200A}')
    ||| c == '\u{2028}'
    ||| c == '\u{2029}'
    ||| c == '\u{202F}'
    ||| c == '\u{205F}'
    ||| c == '\u{3000}'
}

/// The first position at or after `from` whose character is white space,
/// if `space` is set, or is not, if it is not set; the length of `t` when
/// there is none.
pub open spec fn next_where(t: Seq<char>, from: int, space: bool) -> int
    decreases t.len() - from,
{
    if from < 0 || from >= t.len() {
        t.len() as int
    } else if is_space(t[from]) == space {
        from
    } else {
        next_where(t, from + 1, space)
    }
}

/// The words of `t` from position `from` on: the longest stretches without
/// white space, from left to right.
pub open spec fn words_from(t: Seq<char>, from: int) -> Seq<Seq<char>>
    decreases t.len() - from,
{
    let start = next_where(t, from, false);
    if from < 0 || start >= t.len() || start < from {
        Seq::empty()
    } else {
        let end = next_where(t, start, true);
        if end <= start || end > t.len() {
            Seq::empty()
        } else {
            seq![t.subrange(start, end)] + words_from(t, end)
        }
    }
}

/// The words of `t`.
pub open spec fn words_of(t: Seq<char>) -> Seq<Seq<char>> {
    words_from(t, 0)
}

/// Where `next_where` points.
proof fn lemma_next_where(t: Seq<char>, from: int, space: bool)
    requires
        0 <= from <= t.len(),
    ensures
        from <= next_where(t, from, space) <= t.len(),
        next_where(t, from, space) < t.len() ==> is_space(t[next_where(t, from, space)]) == space,
    decreases t.len() - from,
{
    if from < t.len() && is_space(t[from]) != space {
        lemma_next_where(t, from + 1, space);
    }
}

/// Tests whether `c` is white space.
pub fn is_whitespace(c: char) -> (r: bool)
    ensures
        r == is_space(c),
{
    (c >= '\u{0009}' && c <= '\u{000D}') || c == ' ' || c == '\u{0085}' || c == '\u{00A0}' || c
        == '\u{1680}' || (c >= '\u{2000}' && c <= '\u{200A}') || c == '\u{2028}' || c
        == '\u{2029}' || c == '\u{202F}' || c == '\u{205F}' || c == '\u{3000}'
}

/// The position that `next_where` gives.
fn scan(v: &Vec<char>, from: usize, space: bool) -> (at: usize)
    requires
        from <= v.len(),
    ensures
        at as int == next_where(v@, from as int, space),
        from <= at <= v.len(),
{
    let mut i: usize = from;
    while i < v.len() && is_whitespace(v[i]) != space
        invariant
            from <= i <= v.len(),
            next_where(v@, from as int, space) == next_where(v@, i as int, space),
        decreases v.len() - i,
    {
        i += 1;
    }
    i
}

/// Splits an identifier into the fragments to search for: its words.
pub fn fragments(identifier: &str) -> (parts: Vec<String>)
    ensures
        texts(parts@) == words_of(identifier@),
{
    let v = to_chars(identifier);
    let mut parts: Vec<String> = Vec::new();
    let mut pos: usize = 0;
    assert(texts(parts@) =~= Seq::<Seq<char>>::empty());
    loop
        invariant
            pos <= v.len(),
            v@ == identifier@,
            words_of(v@) == texts(parts@) + words_from(v@, pos as int),
        ensures
            words_of(v@) == texts(parts@),
        decreases v.len() - pos,
    {
        let start = scan(&v, pos, false);
        if start >= v.len() {
            assert(texts(parts@) + Seq::<Seq<char>>::empty() =~= texts(parts@));
            break;
        }
        let end = scan(&v, start, true);
        proof {
            lemma_next_where(v@, pos as int, false);
            lemma_next_where(v@, start as int, true);
        }
        let ghost before = texts(parts@);
        parts.push(from_range(&v, start, end));
        assert(texts(parts@) =~= before + seq![v@.subrange(start as int, end as int)]);
        pos = end;
    }
    parts
}

/// Whether `name` holds every one of the fragments.
pub open spec fn contains_all(name: Seq<char>, parts: Seq<Seq<char>>) -> bool {
    forall|i: int| 0 <= i < parts.len() ==> contains_text(name, #[trigger] parts[i])
}

/// Tests whether `name` holds every one of the fragments.
pub fn holds_all(name: &str, alias_parts: &Vec<String>) -> (r: bool)
    ensures
        r == contains_all(name@, texts(alias_parts@)),
{
    let hay = to_chars(name);
    let mut i: usize = 0;
    while i < alias_parts.len()
        invariant
            i <= alias_parts@.len(),
            hay@ == name@,
            forall|k: int| 0 <= k < i ==> contains_text(name@, #[trigger] texts(alias_parts@)[k]),
        decreases alias_parts@.len() - i,
    {
        let needle = to_chars(alias_parts[i].as_str());
        assert(texts(alias_parts@)[i as int] == needle@);
        if !contains_chars(&hay, &needle) {
            return false;
        }
        i += 1;
    }
    true
}

/// Whether `name` is found: the directory is there, holds a file of that
/// name, and the name holds every fragment.
pub open spec fn is_match(
    name: Seq<char>,
    parts: Seq<Seq<char>>,
    directory: Option<Map<Seq<char>, Seq<char>>>,
) -> bool {
    directory is Some && directory->Some_0.contains_key(name) && contains_all(name, parts)
}

/// The view of a directory that may not be there.
pub open spec fn directory_view(directory: Option<&Directory>) -> Option<Map<Seq<char>, Seq<char>>> {
    match directory {
        Some(d) => Some(d@),
        None => None,
    }
}

/// Adds to an ascending list the names of `directory` that hold every
/// fragment.
pub(crate) fn collect_matches(alias_parts: &Vec<String>, directory: &Directory, list: &mut Vec<String>)
    requires
        ascending(texts(old(list)@)),
    ensures
        ascending(texts(final(list)@)),
        forall|n: Seq<char>|
            texts(final(list)@).contains(n) <==> (texts(old(list)@).contains(n) || is_match(
                n,
                texts(alias_parts@),
                Some(directory@),
            )),
{
    let names = directory.names();
    let ghost all = texts(names@);
    let ghost parts = texts(alias_parts@);
    let mut i: usize = 0;
    while i < names.len()
        invariant
            i <= names@.len(),
            all == texts(names@),
            parts == texts(alias_parts@),
            forall|n: Seq<char>| all.contains(n) <==> directory@.contains_key(n),
            ascending(texts(list@)),
            forall|n: Seq<char>|
                texts(list@).contains(n) <==> (texts(old(list)@).contains(n) || (exists|k: int|
                    0 <= k < i && #[trigger] all[k] == n && contains_all(n, parts))),
        decreases names@.len() - i,
    {
        assert(all[i as int] == names@[i as int]@);
        if holds_all(names[i].as_str(), alias_parts) {
            let ghost before = texts(list@);
            insert_ascending(list, names[i].clone());
            proof {
                assert forall|n: Seq<char>|
                    texts(list@).contains(n) <==> (texts(old(list)@).contains(n) || (exists|
                        k: int,
                    |
                        0 <= k < i + 1 && #[trigger] all[k] == n && contains_all(n, parts))) by {
                    if before.contains(n) && !texts(old(list)@).contains(n) {
                        let k = choose|k: int|
                            0 <= k < i && #[trigger] all[k] == n && contains_all(n, parts);
                        assert(0 <= k < i + 1);
                    }
                    if n == all[i as int] {
                        assert(0 <= i < i + 1 && all[i as int] == n);
                    }
                }
            }
        } else {
            proof {
                assert forall|n: Seq<char>|
                    texts(list@).contains(n) <==> (texts(old(list)@).contains(n) || (exists|
                        k: int,
                    |
                        0 <= k < i + 1 && #[trigger] all[k] == n && contains_all(n, parts))) by {
                    if texts(list@).contains(n) && !texts(old(list)@).contains(n) {
                        let k = choose|k: int|
                            0 <= k < i && #[trigger] all[k] == n && contains_all(n, parts);
                        assert(0 <= k < i + 1);
                    }
                }
            }
        }
        i += 1;
    }
    proof {
        assert forall|n: Seq<char>|
            texts(list@).contains(n) <==> (texts(old(list)@).contains(n) || is_match(
                n,
                parts,
                Some(directory@),
            )) by {
            if is_match(n, parts, Some(directory@)) {
                let k = choose|k: int| 0 <= k < all.len() && all[k] == n;
                assert(0 <= k < i && all[k] == n);
            }
        }
    }
}

/// The names in `search` that hold every fragment, in ascending order. A
/// directory that is not there holds no name.
pub fn find_aliases(alias_parts: &Vec<String>, search: Option<&Directory>) -> (found: Vec<String>)
    ensures
        ascending(texts(found@)),
        forall|n: Seq<char>|
            texts(found@).contains(n) <==> is_match(n, texts(alias_parts@), directory_view(search)),
{
    let mut found: Vec<String> = Vec::new();
    assert(texts(found@) =~= Seq::<Seq<char>>::empty());
    match search {
        Some(directory) => {
            collect_matches(alias_parts, directory, &mut found);
        },
        None => {},
    }
    found
}

} // verus!
