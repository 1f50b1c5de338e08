//! Filling in the parameters of a command template.
//!
//! A parameter stands in the template as `?[name]`. Expanding a template
//! puts the value bound to each parameter's name in its place; a parameter
//! whose name is not bound is asked for once, and the answer is bound to
//! the name for the rest of the template.

use vstd::prelude::*;
use crate::alias::Alias;
use crate::arguments::Arguments;
use crate::format::texts;
use crate::pattern::{
    find_matches, found_view, found_views, matched_texts, pattern_is_valid, pattern_matches,
    pattern_pieces, split_pieces, weave, Found,
};
use crate::text::{from_range, matches_at, same_chars, to_chars};

verus! {

/// The regular expression that a parameter matches: a question mark, then
/// in square brackets a name of letters, digits and underscores, which is
/// group 1.
pub const PARAMETER_PATTERN: &'static str = "\\?\\[([A-Za-z0-9_]*)\\]";

/// The text that takes the place of a match: the value bound to the name
/// in group 1, or the matched text itself when the name is not bound.
pub open spec fn replacement(m: Found, env: Map<Seq<char>, Seq<char>>) -> Seq<char> {
    match m.1 {
        Some(name) => if env.contains_key(name) {
            env[name]
        } else {
            m.0
        },
        None => m.0,
    }
}

/// The texts that take the places of the matches.
pub open spec fn replacements(found: Seq<Found>, env: Map<Seq<char>, Seq<char>>) -> Seq<Seq<char>> {
    found.map_values(|m: Found| replacement(m, env))
}

/// The template put together again, with each match replaced.
pub open spec fn expansion(
    pieces: Seq<Seq<char>>,
    found: Seq<Found>,
    env: Map<Seq<char>, Seq<char>>,
) -> Seq<char> {
    weave(pieces, replacements(found, env))
}

/// A parameter to ask a value for: the text that matched, and the name in
/// it.
pub type Asked = (Seq<char>, Seq<char>);

/// The views of the parameters to ask for.
pub open spec fn asked_views(v: Seq<(String, String)>) -> Seq<Asked> {
    v.map_values(|p: (String, String)| (p.0@, p.1@))
}

/// The parameters to ask a value for, from left to right: each one is the
/// first match of a name that is not among the `known` ones.
pub open spec fn unknown_among(found: Seq<Found>, known: Set<Seq<char>>) -> Seq<Asked>
    decreases found.len(),
{
    if found.len() == 0 {
        Seq::empty()
    } else {
        match found[0].1 {
            Some(name) => if known.contains(name) {
                unknown_among(found.drop_first(), known)
            } else {
                seq![(found[0].0, name)] + unknown_among(found.drop_first(), known.insert(name))
            },
            None => unknown_among(found.drop_first(), known),
        }
    }
}

/// The parameters to ask a value for: the first match of each name that
/// the mapping does not bind.
pub open spec fn missing(found: Seq<Found>, env: Map<Seq<char>, Seq<char>>) -> Seq<Asked> {
    unknown_among(found, env.dom())
}

/// The value that an answer binds a name to: the answer, but for an empty
/// answer to a template that need not be filled in completely, which keeps
/// the parameter as it stands.
pub open spec fn answer_value(matched: Seq<char>, answer: Seq<char>, full: bool) -> Seq<char> {
    if answer.len() == 0 && !full {
        matched
    } else {
        answer
    }
}

/// The mapping after the answers are bound to the names asked for: the
/// first answer to the first name, and so on, as far as both go.
pub open spec fn bound(
    env: Map<Seq<char>, Seq<char>>,
    asked: Seq<Asked>,
    answers: Seq<Seq<char>>,
    full: bool,
) -> Map<Seq<char>, Seq<char>>
    decreases asked.len(),
{
    if asked.len() == 0 {
        env
    } else {
        let before = bound(env, asked.drop_last(), answers, full);
        let k = asked.len() - 1;
        if k < answers.len() {
            before.insert(asked[k].1, answer_value(asked[k].0, answers[k], full))
        } else {
            before
        }
    }
}

/// The text that stands for one match under the mapping.
fn replacement_of(m: &(String, Option<String>), args: &Arguments) -> (r: String)
    ensures
        r@ == replacement(found_view(*m), args@),
{
    match &m.1 {
        Some(name) => match args.get(name.as_str()) {
            Some(value) => value.clone(),
            None => m.0.clone(),
        },
        None => m.0.clone(),
    }
}

/// Puts a template together from its pieces and its parameters, with the
/// value of each bound parameter in its place.
pub fn instantiate(
    pieces: &Vec<String>,
    found: &Vec<(String, Option<String>)>,
    args: &Arguments,
) -> (r: String)
    ensures
        r@ == expansion(texts(pieces@), found_views(found@), args@),
{
    let ghost p = texts(pieces@);
    let ghost b = replacements(found_views(found@), args@);
    let mut out = String::new();
    let mut i: usize = 0;
    assert(p.skip(0) =~= p && b.skip(0) =~= b);
    while i < pieces.len()
        invariant
            i <= pieces@.len(),
            p == texts(pieces@),
            b == replacements(found_views(found@), args@),
            b.len() == found@.len(),
            i <= b.len(),
            weave(p, b) == out@ + weave(p.skip(i as int), b.skip(i as int)),
        decreases pieces@.len() - i,
    {
        let ghost rest_p = p.skip(i as int);
        let ghost rest_b = b.skip(i as int);
        assert(rest_p[0] == pieces@[i as int]@);
        assert(rest_p.drop_first() =~= p.skip(i + 1));
        out.append(pieces[i].as_str());
        if i == found.len() {
            proof {
                assert(rest_b.len() == 0);
                assert(weave(rest_p, rest_b) == rest_p[0]);
            }
            return out;
        }
        let value = replacement_of(&found[i], args);
        proof {
            assert(rest_b[0] == b[i as int]);
            assert(found_views(found@)[i as int] == found_view(found@[i as int]));
            assert(rest_b.drop_first() =~= b.skip(i + 1));
            assert(weave(rest_p, rest_b) == rest_p[0] + rest_b[0] + weave(
                p.skip(i + 1),
                b.skip(i + 1),
            ));
        }
        out.append(value.as_str());
        proof {
            assert(out@ + weave(p.skip(i + 1), b.skip(i + 1)) =~= weave(p, b));
        }
        i += 1;
    }
    proof {
        assert(p.skip(i as int).len() == 0);
        assert(out@ + Seq::<char>::empty() =~= out@);
    }
    out
}

/// Whether one of the names in `seen` is `name`.
fn is_among(seen: &Vec<Vec<char>>, name: &Vec<char>) -> (r: bool)
    ensures
        r == exists|k: int| 0 <= k < seen@.len() && (#[trigger] seen@[k])@ == name@,
{
    let mut k: usize = 0;
    while k < seen.len()
        invariant
            k <= seen@.len(),
            forall|j: int| 0 <= j < k ==> (#[trigger] seen@[j])@ != name@,
        decreases seen@.len() - k,
    {
        if same_chars(&seen[k], name) {
            return true;
        }
        k += 1;
    }
    false
}

/// The parameters to ask a value for: the first match of each name that
/// `args` does not bind, from left to right. Each is given as the text
/// that matched and the name in it.
pub fn missing_parameters(found: &Vec<(String, Option<String>)>, args: &Arguments) -> (r: Vec<
    (String, String),
>)
    ensures
        asked_views(r@) == missing(found_views(found@), args@),
{
    let ghost all = found_views(found@);
    let ghost mut known: Set<Seq<char>> = args@.dom();
    let mut seen: Vec<Vec<char>> = Vec::new();
    let mut out: Vec<(String, String)> = Vec::new();
    let mut i: usize = 0;
    assert(all.skip(0) =~= all);
    assert(asked_views(out@) =~= Seq::<Asked>::empty());
    while i < found.len()
        invariant
            i <= found@.len(),
            all == found_views(found@),
            forall|n: Seq<char>|
                known.contains(n) <==> (args@.contains_key(n) || exists|k: int|
                    0 <= k < seen@.len() && (#[trigger] seen@[k])@ == n),
            missing(all, args@) == asked_views(out@) + unknown_among(all.skip(i as int), known),
        decreases found@.len() - i,
    {
        let ghost rest = all.skip(i as int);
        assert(rest[0] == found_view(found@[i as int]));
        assert(rest.drop_first() =~= all.skip(i + 1));
        match &found[i].1 {
            Some(name) => {
                let key = to_chars(name.as_str());
                if !args.contains_key(name.as_str()) && !is_among(&seen, &key) {
                    let ghost before = asked_views(out@);
                    let ghost old_seen = seen@;
                    out.push((found[i].0.clone(), name.clone()));
                    seen.push(key);
                    proof {
                        assert(asked_views(out@) =~= before + seq![(rest[0].0, name@)]);
                        let grown = known.insert(name@);
                        assert forall|n: Seq<char>|
                            grown.contains(n) <==> (args@.contains_key(n) || exists|k: int|
                                0 <= k < seen@.len() && (#[trigger] seen@[k])@ == n) by {
                            if n == name@ {
                                assert(seen@[seen@.len() - 1]@ == n);
                            } else if grown.contains(n) {
                                if !args@.contains_key(n) {
                                    let k = choose|k: int|
                                        0 <= k < old_seen.len() && (#[trigger] old_seen[k])@ == n;
                                    assert(seen@[k] == old_seen[k]);
                                }
                            } else {
                                assert forall|k: int| 0 <= k < seen@.len() implies (
                                #[trigger] seen@[k])@ != n by {
                                    if k < old_seen.len() {
                                        assert(seen@[k] == old_seen[k]);
                                    }
                                }
                            }
                        }
                        known = grown;
                    }
                }
            },
            None => {},
        }
        i += 1;
    }
    proof {
        assert(all.skip(i as int).len() == 0);
        assert(asked_views(out@) + Seq::<Asked>::empty() =~= asked_views(out@));
    }
    out
}

/// Binds the answers to the names asked for: the first answer to the
/// first name in `asked`, and so on, as far as both go.
pub fn bind_answers(
    args: &mut Arguments,
    asked: &Vec<(String, String)>,
    answers: &Vec<String>,
    full_instantiation: bool,
)
    ensures
        final(args)@ == bound(old(args)@, asked_views(asked@), texts(answers@), full_instantiation),
{
    let ghost a = asked_views(asked@);
    let ghost w = texts(answers@);
    let mut i: usize = 0;
    assert(a.take(0) =~= Seq::<Asked>::empty());
    while i < asked.len()
        invariant
            i <= asked@.len(),
            a == asked_views(asked@),
            w == texts(answers@),
            args@ == bound(old(args)@, a.take(i as int), w, full_instantiation),
        decreases asked@.len() - i,
    {
        proof {
            assert(a.take(i + 1).drop_last() =~= a.take(i as int));
            assert(a.take(i + 1)[i as int] == (asked@[i as int].0@, asked@[i as int].1@));
        }
        if i < answers.len() {
            assert(w[i as int] == answers@[i as int]@);
            let value = if answers[i].as_str().is_empty() && !full_instantiation {
                asked[i].0.clone()
            } else {
                answers[i].clone()
            };
            args.insert(asked[i].1.clone(), value);
        }
        i += 1;
    }
    proof {
        assert(a.take(i as int) =~= a);
    }
}

/// The marker that stands for the working directory at the end of a
/// template.
pub open spec fn directory_marker() -> Seq<char> {
    seq!['?', 'p', 'w', 'd']
}

/// A path in double quotes.
pub open spec fn quoted(path: Seq<char>) -> Seq<char> {
    seq!['"'] + path + seq!['"']
}

/// Whether the template ends with the working-directory marker.
pub open spec fn ends_with_marker(template: Seq<char>) -> bool {
    template.len() >= 4 && template.subrange(template.len() - 4, template.len() as int)
        == directory_marker()
}

/// The template with the marker at its end replaced by the quoted
/// directory. A template that does not end with the marker stays as it is,
/// and so does every marker that stands elsewhere in the template.
pub open spec fn with_working_directory(template: Seq<char>, directory: Seq<char>) -> Seq<char> {
    if ends_with_marker(template) {
        template.subrange(0, template.len() - 4) + quoted(directory)
    } else {
        template
    }
}

/// Only the marker at the end is replaced: the text before it stays, the
/// quoted directory follows, and a template without a marker at its end
/// is not changed, whatever stands in it.
pub proof fn lemma_only_trailing_marker_is_replaced(template: Seq<char>, directory: Seq<char>)
    ensures
        !ends_with_marker(template) ==> with_working_directory(template, directory) == template,
        ends_with_marker(template) ==> {
            let kept = template.len() - 4;
            let result = with_working_directory(template, directory);
            &&& result.len() == kept + directory.len() + 2
            &&& result.subrange(0, kept) == template.subrange(0, kept)
            &&& result.subrange(kept, result.len() as int) == quoted(directory)
        },
{
    if ends_with_marker(template) {
        let kept = template.len() - 4;
        let result = with_working_directory(template, directory);
        assert(result.subrange(0, kept) =~= template.subrange(0, kept));
        assert(result.subrange(kept, result.len() as int) =~= quoted(directory));
    }
}

/// Tests whether `template` ends with the working-directory marker, so
/// that expanding it takes the working directory.
pub fn needs_working_directory(template: &str) -> (r: bool)
    ensures
        r == ends_with_marker(template@),
{
    let chars = to_chars(template);
    let marker = to_chars("?pwd");
    proof {
        reveal_strlit("?pwd");
        assert(marker@ =~= directory_marker());
    }
    chars.len() >= 4 && matches_at(&chars, &marker, chars.len() - 4)
}

/// Replaces the working-directory marker at the end of `template`, if
/// there is one, by `directory` in double quotes.
pub fn substitute_working_directory(template: &str, directory: &str) -> (r: String)
    ensures
        r@ == with_working_directory(template@, directory@),
{
    let chars = to_chars(template);
    let marker = to_chars("?pwd");
    proof {
        reveal_strlit("?pwd");
        assert(marker@ =~= directory_marker());
    }
    if chars.len() >= 4 && matches_at(&chars, &marker, chars.len() - 4) {
        let mut out = from_range(&chars, 0, chars.len() - 4);
        out.push('"');
        out.append(directory);
        out.push('"');
        assert(out@ =~= with_working_directory(template@, directory@));
        out
    } else {
        template.to_owned()
    }
}

/// Whether `answer` is what `handler` may give when it is asked, for the
/// record `al`, for the parameter `name`.
pub open spec fn is_answer<F: Fn(&Alias, &str) -> String>(
    handler: F,
    al: &Alias,
    name: Seq<char>,
    answer: Seq<char>,
) -> bool {
    exists|asked: &str, given: String|
        #![trigger call_ensures(handler, (al, asked), given)]
        asked@ == name && given@ == answer && call_ensures(handler, (al, asked), given)
}

/// Whether each answer is one that `handler` gives for the name of the
/// parameter that the answer is for.
pub open spec fn answered_by<F: Fn(&Alias, &str) -> String>(
    handler: F,
    al: &Alias,
    asked: Seq<Asked>,
    answers: Seq<Seq<char>>,
) -> bool {
    forall|k: int|
        0 <= k < asked.len() && k < answers.len() ==> #[trigger] is_answer(
            handler,
            al,
            asked[k].1,
            answers[k],
        )
}

/// Whether `result` is `command` with its parameters filled in from `env`
/// and from the answers that `handler` gives for the parameters that `env`
/// leaves open, one answer for each. Where the parameter pattern is not a
/// valid one, the command stays as it is.
pub open spec fn is_filling_by<F: Fn(&Alias, &str) -> String>(
    handler: F,
    al: &Alias,
    command: Seq<char>,
    env: Map<Seq<char>, Seq<char>>,
    full: bool,
    result: Seq<char>,
) -> bool {
    if pattern_is_valid(PARAMETER_PATTERN@) {
        let found = pattern_matches(PARAMETER_PATTERN@, command);
        let pieces = pattern_pieces(PARAMETER_PATTERN@, command);
        exists|answers: Seq<Seq<char>>|
            answers.len() == missing(found, env).len() && answered_by(
                handler,
                al,
                missing(found, env),
                answers,
            ) && result == #[trigger] expansion(
                pieces,
                found,
                bound(env, missing(found, env), answers, full),
            )
    } else {
        result == command
    }
}

/// Whether `result` is `command` with its parameters filled in from `env`
/// and from some answers to the parameters that `env` leaves open, one
/// answer for each. Where the parameter pattern is not a valid one, the
/// command stays as it is.
pub open spec fn is_filling(
    command: Seq<char>,
    env: Map<Seq<char>, Seq<char>>,
    full: bool,
    result: Seq<char>,
) -> bool {
    if pattern_is_valid(PARAMETER_PATTERN@) {
        let found = pattern_matches(PARAMETER_PATTERN@, command);
        let pieces = pattern_pieces(PARAMETER_PATTERN@, command);
        exists|answers: Seq<Seq<char>>|
            answers.len() == missing(found, env).len() && result == #[trigger] expansion(
                pieces,
                found,
                bound(env, missing(found, env), answers, full),
            )
    } else {
        result == command
    }
}

/// With no match to replace, the pieces woven with the replacements are
/// the pieces woven with the matched texts.
proof fn lemma_nothing_to_replace(pieces: Seq<Seq<char>>, found: Seq<Found>, env: Map<Seq<char>, Seq<char>>)
    requires
        found.len() == 0,
    ensures
        expansion(pieces, found, env) == weave(pieces, matched_texts(found)),
{
    assert(replacements(found, env) =~= matched_texts(found));
}

impl Alias {
    /// Fills in the parameters of `command`. A parameter whose name `args`
    /// binds is replaced by its value. For each name that `args` does not
    /// bind, `missing_arg_handler` is asked once, at the name's first
    /// parameter, and its answer stands for every parameter of that name;
    /// an empty answer leaves the parameter in the text unless
    /// `full_instantiation` is set. A command without a parameter comes
    /// back as it is.
    pub fn fill_in_parameters<F: Fn(&Alias, &str) -> String>(
        &self,
        command: &str,
        args: Arguments,
        missing_arg_handler: F,
        full_instantiation: bool,
    ) -> (r: String)
        requires
            forall|name: &str| call_requires(missing_arg_handler, (self, name)),
        ensures
            is_filling_by(missing_arg_handler, self, command@, args@, full_instantiation, r@),
            pattern_matches(PARAMETER_PATTERN@, command@).len() == 0 ==> r@ == command@,
    {
        let searched = find_matches(PARAMETER_PATTERN, command);
        let cut = split_pieces(PARAMETER_PATTERN, command);
        match (searched, cut) {
            (Some(found), Some(pieces)) => {
                let mut args = args;
                let ghost env = args@;
                let asked = missing_parameters(&found, &args);
                let ghost a = asked_views(asked@);
                let mut answers: Vec<String> = Vec::new();
                let mut i: usize = 0;
                while i < asked.len()
                    invariant
                        i <= asked@.len(),
                        answers@.len() == i,
                        a == asked_views(asked@),
                        forall|name: &str| call_requires(missing_arg_handler, (self, name)),
                        forall|k: int|
                            0 <= k < i ==> #[trigger] is_answer(
                                missing_arg_handler,
                                self,
                                a[k].1,
                                answers@[k]@,
                            ),
                    decreases asked@.len() - i,
                {
                    let name = asked[i].1.as_str();
                    let answer = missing_arg_handler(self, name);
                    let ghost given = answer;
                    let ghost before = answers@;
                    answers.push(answer);
                    proof {
                        assert(a[i as int].1 == name@);
                        assert(call_ensures(missing_arg_handler, (self, name), given));
                        assert(is_answer(missing_arg_handler, self, a[i as int].1, given@));
                        assert forall|k: int| 0 <= k < i + 1 implies #[trigger] is_answer(
                            missing_arg_handler,
                            self,
                            a[k].1,
                            answers@[k]@,
                        ) by {
                            if k < i {
                                assert(answers@[k] == before[k]);
                            }
                        }
                    }
                    i += 1;
                }
                bind_answers(&mut args, &asked, &answers, full_instantiation);
                let r = instantiate(&pieces, &found, &args);
                proof {
                    let f = pattern_matches(PARAMETER_PATTERN@, command@);
                    let p = pattern_pieces(PARAMETER_PATTERN@, command@);
                    let w = texts(answers@);
                    assert(w.len() == missing(f, env).len());
                    assert(answered_by(missing_arg_handler, self, missing(f, env), w)) by {
                        assert forall|k: int|
                            0 <= k < missing(f, env).len() && k < w.len() implies #[trigger] is_answer(
                            missing_arg_handler,
                            self,
                            missing(f, env)[k].1,
                            w[k],
                        ) by {
                            assert(w[k] == answers@[k]@);
                            assert(is_answer(missing_arg_handler, self, a[k].1, answers@[k]@));
                        }
                    }
                    assert(r@ == expansion(p, f, bound(env, missing(f, env), w, full_instantiation)));
                    if f.len() == 0 {
                        lemma_nothing_to_replace(p, f, args@);
                    }
                }
                r
            },
            _ => command.to_owned(),
        }
    }

    /// The command line that running this alias from `working_directory`
    /// gives: the command template with the working-directory marker at
    /// its end replaced, then with every parameter filled in.
    pub fn execute<F: Fn(&Alias, &str) -> String>(
        &self,
        working_directory: &str,
        args: Arguments,
        missing_arg_handler: F,
    ) -> (line: String)
        requires
            forall|name: &str| call_requires(missing_arg_handler, (self, name)),
        ensures
            is_filling_by(
                missing_arg_handler,
                self,
                with_working_directory(self@.command, working_directory@),
                args@,
                true,
                line@,
            ),
    {
        let template = substitute_working_directory(self.get_command(), working_directory);
        self.fill_in_parameters(template.as_str(), args, missing_arg_handler, true)
    }
}

} // verus!
