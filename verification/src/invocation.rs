//! Reading the words of an invocation: which of them name the alias, and
//! which give values for its parameters.

use vstd::prelude::*;
use crate::arguments::Arguments;
use crate::format::texts;
use crate::pattern::{first_match, groups_view, pattern_first_match, pattern_is_valid};

verus! {

/// The regular expression that a word giving a value matches: two dashes,
/// a name of letters, digits and underscores, which is group 1, an equals
/// sign, and the value, which is group 2.
pub const ARGUMENT_PATTERN: &'static str = "--([A-Za-z0-9_]+)=(.+)";

/// The name and the value that the groups of a match give, if there is a
/// match and both groups took part in it.
pub open spec fn pair_of(groups: Option<(Option<Seq<char>>, Option<Seq<char>>)>) -> Option<
    (Seq<char>, Seq<char>),
> {
    match groups {
        Some((Some(name), Some(value))) => Some((name, value)),
        _ => None,
    }
}

/// The name and the value that a word gives, if it gives any: the pattern
/// is valid and matches in the word with both groups.
pub open spec fn given_value(word: Seq<char>) -> Option<(Seq<char>, Seq<char>)> {
    if pattern_is_valid(ARGUMENT_PATTERN@) {
        pair_of(pattern_first_match(ARGUMENT_PATTERN@, word))
    } else {
        None
    }
}

/// The words that name the alias: those that give no value, in order.
pub open spec fn name_parts(words: Seq<Seq<char>>) -> Seq<Seq<char>>
    decreases words.len(),
{
    if words.len() == 0 {
        Seq::empty()
    } else if given_value(words.last()) is Some {
        name_parts(words.drop_last())
    } else {
        name_parts(words.drop_last()).push(words.last())
    }
}

/// The values that the words give, by name; of two words with one name
/// the later one counts.
pub open spec fn given_values(words: Seq<Seq<char>>) -> Map<Seq<char>, Seq<char>>
    decreases words.len(),
{
    if words.len() == 0 {
        Map::empty()
    } else {
        match given_value(words.last()) {
            Some((name, value)) => given_values(words.drop_last()).insert(name, value),
            None => given_values(words.drop_last()),
        }
    }
}

/// The words of an invocation, told apart.
#[derive(Debug)]
pub struct Invocation {
    /// The words that name the alias.
    pub alias_name_parts: Vec<String>,
    /// The values given for the alias's parameters.
    pub alias_args: Arguments,
}

impl Invocation {
    /// An invocation without a word.
    pub fn new() -> (r: Invocation)
        ensures
            r.alias_name_parts@.len() == 0,
            r.alias_args@ == Map::<Seq<char>, Seq<char>>::empty(),
    {
        Invocation { alias_name_parts: Vec::new(), alias_args: Arguments::new() }
    }

    /// Takes one more word, given the groups that the search for a value
    /// found in it: with both groups, the word gives the value of group 2
    /// to the name of group 1; otherwise it is part of the alias's name.
    pub fn take_word(&mut self, word: &str, groups: Option<(Option<String>, Option<String>)>)
        ensures
            match pair_of(groups_view(groups)) {
                Some((name, value)) => {
                    &&& final(self).alias_args@ == old(self).alias_args@.insert(name, value)
                    &&& final(self).alias_name_parts@ == old(self).alias_name_parts@
                },
                None => {
                    &&& final(self).alias_args@ == old(self).alias_args@
                    &&& texts(final(self).alias_name_parts@) == texts(
                        old(self).alias_name_parts@,
                    ).push(word@)
                },
            },
    {
        match groups {
            Some((Some(name), Some(value))) => {
                self.alias_args.insert(name, value);
            },
            _ => {
                let ghost before = texts(self.alias_name_parts@);
                self.alias_name_parts.push(word.to_owned());
                assert(texts(self.alias_name_parts@) =~= before.push(word@));
            },
        }
    }
}

/// Tells the words of an invocation apart: a word of the form
/// `--name=value` gives a value, every other word is part of the alias's
/// name.
pub fn read_invocation(words: &Vec<String>) -> (r: Invocation)
    ensures
        texts(r.alias_name_parts@) == name_parts(texts(words@)),
        r.alias_args@ == given_values(texts(words@)),
{
    let ghost all = texts(words@);
    let mut r = Invocation::new();
    let mut i: usize = 0;
    assert(all.take(0) =~= Seq::<Seq<char>>::empty());
    assert(texts(r.alias_name_parts@) =~= Seq::<Seq<char>>::empty());
    while i < words.len()
        invariant
            i <= words@.len(),
            all == texts(words@),
            texts(r.alias_name_parts@) == name_parts(all.take(i as int)),
            r.alias_args@ == given_values(all.take(i as int)),
        decreases words@.len() - i,
    {
        proof {
            assert(all.take(i + 1).drop_last() =~= all.take(i as int));
            assert(all.take(i + 1).last() == words@[i as int]@);
        }
        let word = words[i].as_str();
        match first_match(ARGUMENT_PATTERN, word) {
            Some(groups) => {
                r.take_word(word, groups);
            },
            None => {
                r.take_word(word, None);
            },
        }
        i += 1;
    }
    assert(all.take(i as int) =~= all);
    r
}

} // verus!
