//! The order of texts: character by character, as in a dictionary, with
//! the characters in the order of their code points.

use vstd::prelude::*;
use crate::format::texts;
use crate::text::to_chars;

verus! {

/// Whether `a` comes before `b`.
pub open spec fn text_lt(a: Seq<char>, b: Seq<char>) -> bool
    decreases a.len(),
{
    if b.len() == 0 {
        false
    } else if a.len() == 0 {
        true
    } else if a[0] != b[0] {
        a[0] < b[0]
    } else {
        text_lt(a.drop_first(), b.drop_first())
    }
}

/// Of two texts, one comes before the other unless they are the same
/// text; and no text comes before itself.
pub proof fn lemma_text_lt_total(a: Seq<char>, b: Seq<char>)
    ensures
        text_lt(a, b) || text_lt(b, a) || a == b,
        !(text_lt(a, b) && text_lt(b, a)),
        a == b ==> !text_lt(a, b),
    decreases a.len(),
{
    if a.len() > 0 && b.len() > 0 && a[0] == b[0] {
        lemma_text_lt_total(a.drop_first(), b.drop_first());
        if a.drop_first() == b.drop_first() {
            assert(a =~= seq![a[0]] + a.drop_first());
            assert(b =~= seq![b[0]] + b.drop_first());
        }
    } else if a.len() == 0 && b.len() == 0 {
        assert(a =~= b);
    }
}

/// What comes before a text that comes before a third comes before the
/// third.
pub proof fn lemma_text_lt_transitive(a: Seq<char>, b: Seq<char>, c: Seq<char>)
    requires
        text_lt(a, b),
        text_lt(b, c),
    ensures
        text_lt(a, c),
    decreases a.len(),
{
    if a.len() > 0 && a[0] == b[0] && b[0] == c[0] {
        lemma_text_lt_transitive(a.drop_first(), b.drop_first(), c.drop_first());
    }
}

/// Whether each text of the sequence comes before all that follow it.
pub open spec fn ascending(s: Seq<Seq<char>>) -> bool {
    forall|i: int, j: int| 0 <= i < j < s.len() ==> text_lt(#[trigger] s[i], #[trigger] s[j])
}

/// Tests whether `a` comes before `b`.
pub fn comes_before(a: &Vec<char>, b: &Vec<char>) -> (r: bool)
    ensures
        r == text_lt(a@, b@),
{
    let mut i: usize = 0;
    assert(a@.skip(0) =~= a@ && b@.skip(0) =~= b@);
    while i < a.len() && i < b.len()
        invariant
            i <= a@.len(),
            i <= b@.len(),
            text_lt(a@, b@) == text_lt(a@.skip(i as int), b@.skip(i as int)),
        decreases a@.len() - i,
    {
        let ghost x = a@.skip(i as int);
        let ghost y = b@.skip(i as int);
        assert(x[0] == a@[i as int] && y[0] == b@[i as int]);
        if a[i] != b[i] {
            return a[i] < b[i];
        }
        assert(x.drop_first() =~= a@.skip(i + 1));
        assert(y.drop_first() =~= b@.skip(i + 1));
        i += 1;
    }
    i < b.len()
}

/// Puts `name` in its place in an ascending list, unless the list holds it
/// already.
pub(crate) fn insert_ascending(list: &mut Vec<String>, name: String)
    requires
        ascending(texts(old(list)@)),
    ensures
        ascending(texts(final(list)@)),
        forall|n: Seq<char>|
            texts(final(list)@).contains(n) <==> (texts(old(list)@).contains(n) || n == name@),
{
    let key = to_chars(name.as_str());
    let ghost before = texts(list@);
    let mut at: usize = 0;
    let mut placed = false;
    while at < list.len() && !placed
        invariant
            at <= list@.len(),
            list@ == old(list)@,
            before == texts(list@),
            key@ == name@,
            forall|k: int| 0 <= k < at ==> text_lt(#[trigger] before[k], name@),
            placed ==> at < list@.len() && !text_lt(before[at as int], name@),
        decreases list@.len() - at + if placed { 0int } else { 1int },
    {
        let here = to_chars(list[at].as_str());
        assert(before[at as int] == here@);
        if comes_before(&here, &key) {
            at += 1;
        } else {
            placed = true;
        }
    }
    let present = if at < list.len() {
        let here = to_chars(list[at].as_str());
        assert(before[at as int] == here@);
        !comes_before(&key, &here)
    } else {
        false
    };
    if present {
        proof {
            lemma_text_lt_total(name@, before[at as int]);
            assert(before.contains(name@));
        }
    } else {
        list.insert(at, name);
        proof {
            let after = texts(list@);
            assert(after =~= before.insert(at as int, name@));
            assert forall|i: int, j: int| 0 <= i < j < after.len() implies text_lt(
                #[trigger] after[i],
                #[trigger] after[j],
            ) by {
                if j < at {
                    assert(after[i] == before[i] && after[j] == before[j]);
                } else if j == at {
                    assert(after[i] == before[i]);
                } else if i == at {
                    assert(after[j] == before[j - 1]);
                    lemma_text_lt_total(name@, before[at as int]);
                    if j - 1 > at {
                        assert(text_lt(before[at as int], before[j - 1]));
                        lemma_text_lt_transitive(name@, before[at as int], before[j - 1]);
                    }
                } else if i < at {
                    assert(after[i] == before[i] && after[j] == before[j - 1]);
                } else {
                    assert(after[i] == before[i - 1] && after[j] == before[j - 1]);
                }
            }
            assert forall|n: Seq<char>|
                after.contains(n) <==> (before.contains(n) || n == name@) by {
                if after.contains(n) {
                    let k = choose|k: int| 0 <= k < after.len() && after[k] == n;
                    if k < at {
                        assert(before[k] == n);
                    } else if k > at {
                        assert(before[k - 1] == n);
                    }
                }
                if before.contains(n) {
                    let k = choose|k: int| 0 <= k < before.len() && before[k] == n;
                    if k < at {
                        assert(after[k] == n);
                    } else {
                        assert(after[k + 1] == n);
                    }
                }
                if n == name@ {
                    assert(after[at as int] == n);
                }
            }
        }
    }
}

} // verus!
