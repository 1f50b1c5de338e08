//! A mapping from names to texts, kept as a list in which no name occurs
//! twice.

use vstd::prelude::*;
use crate::format::texts;
use crate::text::{same_chars, to_chars};

verus! {

/// The mapping that a list of name and value pairs stands for: each name
/// is bound to the value of its last pair.
spec fn map_of(entries: Seq<(String, String)>) -> Map<Seq<char>, Seq<char>>
    decreases entries.len(),
{
    if entries.len() == 0 {
        Map::empty()
    } else {
        map_of(entries.drop_last()).insert(entries.last().0@, entries.last().1@)
    }
}

/// Whether no two pairs of the list have the same name.
spec fn distinct_names(entries: Seq<(String, String)>) -> bool {
    forall|i: int, j: int|
        0 <= i < j < entries.len() ==> (#[trigger] entries[i]).0@ != (#[trigger] entries[j]).0@
}

/// A name that no pair of the list has is not in the mapping.
proof fn lemma_map_of_absent(entries: Seq<(String, String)>, name: Seq<char>)
    requires
        forall|i: int| 0 <= i < entries.len() ==> (#[trigger] entries[i]).0@ != name,
    ensures
        !map_of(entries).contains_key(name),
    decreases entries.len(),
{
    if entries.len() > 0 {
        let front = entries.drop_last();
        assert forall|i: int| 0 <= i < front.len() implies (#[trigger] front[i]).0@ != name by {
            assert(front[i] == entries[i]);
        }
        lemma_map_of_absent(front, name);
    }
}

/// In a list without a repeated name, each pair's name is bound to that
/// pair's value.
proof fn lemma_map_of_present(entries: Seq<(String, String)>, at: int)
    requires
        distinct_names(entries),
        0 <= at < entries.len(),
    ensures
        map_of(entries).contains_key(entries[at].0@),
        map_of(entries)[entries[at].0@] == entries[at].1@,
    decreases entries.len(),
{
    let front = entries.drop_last();
    if at < entries.len() - 1 {
        assert(distinct_names(front)) by {
            assert forall|i: int, j: int| 0 <= i < j < front.len() implies (#[trigger] front[i]).0@
                != (#[trigger] front[j]).0@ by {
                assert(front[i] == entries[i] && front[j] == entries[j]);
            }
        }
        assert(front[at] == entries[at]);
        lemma_map_of_present(front, at);
        assert(entries[at].0@ != entries[entries.len() - 1].0@);
    }
}

/// Replacing the value of one pair, in a list without a repeated name,
/// rebinds that pair's name and leaves the other names as they were.
proof fn lemma_map_of_update(entries: Seq<(String, String)>, at: int, pair: (String, String))
    requires
        distinct_names(entries),
        0 <= at < entries.len(),
        pair.0@ == entries[at].0@,
    ensures
        map_of(entries.update(at, pair)) == map_of(entries).insert(pair.0@, pair.1@),
        distinct_names(entries.update(at, pair)),
    decreases entries.len(),
{
    let updated = entries.update(at, pair);
    let front = entries.drop_last();
    assert(distinct_names(updated)) by {
        assert forall|i: int, j: int| 0 <= i < j < updated.len() implies (#[trigger] updated[i]).0@
            != (#[trigger] updated[j]).0@ by {
            assert(entries[i].0@ != entries[j].0@);
        }
    }
    if at == entries.len() - 1 {
        assert(updated.drop_last() =~= front);
        assert(map_of(updated) =~= map_of(entries).insert(pair.0@, pair.1@));
    } else {
        assert(distinct_names(front)) by {
            assert forall|i: int, j: int| 0 <= i < j < front.len() implies (#[trigger] front[i]).0@
                != (#[trigger] front[j]).0@ by {
                assert(front[i] == entries[i] && front[j] == entries[j]);
            }
        }
        assert(front[at] == entries[at]);
        lemma_map_of_update(front, at, pair);
        assert(updated.drop_last() =~= front.update(at, pair));
        assert(updated.last() == entries.last());
        assert(entries[at].0@ != entries[entries.len() - 1].0@);
        assert(map_of(updated) =~= map_of(entries).insert(pair.0@, pair.1@));
    }
}

/// Taking one pair out of a list without a repeated name unbinds that
/// pair's name and leaves the other names as they were.
proof fn lemma_map_of_remove(entries: Seq<(String, String)>, at: int)
    requires
        distinct_names(entries),
        0 <= at < entries.len(),
    ensures
        map_of(entries.remove(at)) == map_of(entries).remove(entries[at].0@),
        distinct_names(entries.remove(at)),
    decreases entries.len(),
{
    let removed = entries.remove(at);
    let front = entries.drop_last();
    assert(distinct_names(removed)) by {
        assert forall|i: int, j: int| 0 <= i < j < removed.len() implies (#[trigger] removed[i]).0@
            != (#[trigger] removed[j]).0@ by {
            let a = if i < at { i } else { i + 1 };
            let b = if j < at { j } else { j + 1 };
            assert(removed[i] == entries[a] && removed[j] == entries[b]);
        }
    }
    if at == entries.len() - 1 {
        assert(removed =~= front);
        assert forall|i: int| 0 <= i < front.len() implies (#[trigger] front[i]).0@
            != entries[at].0@ by {
            assert(front[i] == entries[i]);
        }
        lemma_map_of_absent(front, entries[at].0@);
        assert(map_of(removed) =~= map_of(entries).remove(entries[at].0@));
    } else {
        assert(distinct_names(front)) by {
            assert forall|i: int, j: int| 0 <= i < j < front.len() implies (#[trigger] front[i]).0@
                != (#[trigger] front[j]).0@ by {
                assert(front[i] == entries[i] && front[j] == entries[j]);
            }
        }
        assert(front[at] == entries[at]);
        lemma_map_of_remove(front, at);
        assert(removed.drop_last() =~= front.remove(at));
        assert(removed.last() == entries.last());
        assert(entries[at].0@ != entries[entries.len() - 1].0@);
        assert(map_of(removed) =~= map_of(entries).remove(entries[at].0@));
    }
}

/// Texts by name.
#[derive(Debug)]
pub struct TextMap {
    entries: Vec<(String, String)>,
}

impl View for TextMap {
    type V = Map<Seq<char>, Seq<char>>;

    closed spec fn view(&self) -> Map<Seq<char>, Seq<char>> {
        map_of(self.entries@)
    }
}

impl TextMap {
    /// No name occurs twice.
    #[verifier::type_invariant]
    spec fn no_name_twice(self) -> bool {
        distinct_names(self.entries@)
    }

    /// The mapping that binds no name.
    pub fn new() -> (r: TextMap)
        ensures
            r@ == Map::<Seq<char>, Seq<char>>::empty(),
    {
        TextMap { entries: Vec::new() }
    }

    /// The position of the pair named `name`, if there is one.
    fn position(&self, name: &Vec<char>) -> (r: Option<usize>)
        ensures
            match r {
                Some(at) => at < self.entries@.len() && self.entries@[at as int].0@ == name@,
                None => forall|i: int|
                    0 <= i < self.entries@.len() ==> (#[trigger] self.entries@[i]).0@ != name@,
            },
    {
        let mut i: usize = 0;
        while i < self.entries.len()
            invariant
                i <= self.entries@.len(),
                forall|k: int| 0 <= k < i ==> (#[trigger] self.entries@[k]).0@ != name@,
            decreases self.entries@.len() - i,
        {
            let key = to_chars(self.entries[i].0.as_str());
            if same_chars(&key, name) {
                return Some(i);
            }
            i += 1;
        }
        None
    }

    /// Whether `name` is bound.
    pub fn contains_key(&self, name: &str) -> (r: bool)
        ensures
            r == self@.contains_key(name@),
    {
        self.get(name).is_some()
    }

    /// The value that `name` is bound to, if it is bound.
    pub fn get(&self, name: &str) -> (r: Option<&String>)
        ensures
            r is Some <==> self@.contains_key(name@),
            r is Some ==> r->Some_0@ == self@[name@],
    {
        proof {
            use_type_invariant(self);
        }
        let key = to_chars(name);
        match self.position(&key) {
            Some(at) => {
                proof {
                    lemma_map_of_present(self.entries@, at as int);
                }
                Some(&self.entries[at].1)
            },
            None => {
                proof {
                    lemma_map_of_absent(self.entries@, name@);
                }
                None
            },
        }
    }

    /// Binds `name` to `value`, in place of the value it had if it was bound.
    pub fn insert(&mut self, name: String, value: String)
        ensures
            final(self)@ == old(self)@.insert(name@, value@),
    {
        proof {
            use_type_invariant(&*self);
        }
        let key = to_chars(name.as_str());
        let found = self.position(&key);
        let mut held = TextMap::new();
        core::mem::swap(self, &mut held);
        let mut entries = held.entries;
        match found {
            Some(at) => {
                proof {
                    lemma_map_of_update(entries@, at as int, (name, value));
                }
                entries.set(at, (name, value));
            },
            None => {
                let ghost before = entries@;
                entries.push((name, value));
                proof {
                    assert(entries@.drop_last() =~= before);
                    assert forall|i: int, j: int| 0 <= i < j < entries@.len() implies (
                    #[trigger] entries@[i]).0@ != (#[trigger] entries@[j]).0@ by {
                        if j < before.len() {
                            assert(before[i] == entries@[i] && before[j] == entries@[j]);
                        } else {
                            assert(before[i] == entries@[i]);
                        }
                    }
                }
            },
        }
        *self = TextMap { entries };
    }

    /// Unbinds `name`. Tells whether it was bound.
    pub fn remove(&mut self, name: &str) -> (was_bound: bool)
        ensures
            was_bound == old(self)@.contains_key(name@),
            final(self)@ == old(self)@.remove(name@),
    {
        proof {
            use_type_invariant(&*self);
        }
        let key = to_chars(name);
        let found = self.position(&key);
        match found {
            Some(at) => {
                let mut held = TextMap::new();
                core::mem::swap(self, &mut held);
                let mut entries = held.entries;
                proof {
                    lemma_map_of_present(entries@, at as int);
                    lemma_map_of_remove(entries@, at as int);
                }
                entries.remove(at);
                *self = TextMap { entries };
                true
            },
            None => {
                proof {
                    lemma_map_of_absent(self.entries@, name@);
                    assert(self@.remove(name@) =~= self@);
                }
                false
            },
        }
    }

    /// The names that are bound, each once, in no particular order.
    pub fn names(&self) -> (r: Vec<String>)
        ensures
            texts(r@).no_duplicates(),
            forall|n: Seq<char>| texts(r@).contains(n) <==> self@.contains_key(n),
    {
        proof {
            use_type_invariant(self);
        }
        let mut r: Vec<String> = Vec::new();
        let mut i: usize = 0;
        while i < self.entries.len()
            invariant
                i <= self.entries@.len(),
                r@.len() == i,
                forall|k: int| 0 <= k < i ==> (#[trigger] r@[k])@ == self.entries@[k].0@,
            decreases self.entries@.len() - i,
        {
            r.push(self.entries[i].0.clone());
            i += 1;
        }
        proof {
            let listed = texts(r@);
            assert forall|a: int, b: int|
                0 <= a < listed.len() && 0 <= b < listed.len() && a != b implies listed[a]
                != listed[b] by {
                assert(listed[a] == r@[a]@ && listed[b] == r@[b]@);
                if a < b {
                    assert(self.entries@[a].0@ != self.entries@[b].0@);
                } else {
                    assert(self.entries@[b].0@ != self.entries@[a].0@);
                }
            }
            assert forall|n: Seq<char>| listed.contains(n) <==> self@.contains_key(n) by {
                if listed.contains(n) {
                    let k = choose|k: int| 0 <= k < listed.len() && listed[k] == n;
                    assert(listed[k] == r@[k]@);
                    lemma_map_of_present(self.entries@, k);
                }
                if self@.contains_key(n) && !listed.contains(n) {
                    assert forall|k: int| 0 <= k < self.entries@.len() implies (
                    #[trigger] self.entries@[k]).0@ != n by {
                        assert(listed[k] == r@[k]@);
                    }
                    lemma_map_of_absent(self.entries@, n);
                }
            }
        }
        r
    }
}

} // verus!
