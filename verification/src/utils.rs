//! Small rules of the command line: the reserved words, the number of
//! arguments a command takes, and the form in which a path is shown.

use vstd::prelude::*;
use crate::text::{from_range, same_text, to_chars};

verus! {

/// Whether `word` is one of the command words, which cannot name an alias.
pub open spec fn is_reserved(word: Seq<char>) -> bool {
    ||| word == "is_exec_action"@
    ||| word == "list"@
    ||| word == "add"@
    ||| word == "addwd"@
    ||| word == "addpath"@
    ||| word == "addshr"@
    ||| word == "desc"@
    ||| word == "confirm"@
    ||| word == "rm"@
    ||| word == "cp"@
    ||| word == "cpshr"@
}

/// Tests whether `action` is a command word rather than an alias name.
pub fn is_reserved_keyword(action: &str) -> (r: bool)
    ensures
        r == is_reserved(action@),
{
    same_text(action, "is_exec_action") || same_text(action, "list") || same_text(action, "add")
        || same_text(action, "addwd") || same_text(action, "addpath") || same_text(
        action,
        "addshr",
    ) || same_text(action, "desc") || same_text(action, "confirm") || same_text(action, "rm")
        || same_text(action, "cp") || same_text(action, "cpshr")
}

/// Tests whether a command line holds, after the program's name and the
/// command word, at least `num` arguments.
pub fn args_ok(args: &Vec<String>, num: usize) -> (r: bool)
    ensures
        r == (args@.len() >= num + 2),
{
    args.len() >= 2 && args.len() - 2 >= num
}

/// The prefix that marks an extended-length path.
pub open spec fn extended_prefix() -> Seq<char> {
    seq!['\\', '\\', '?', '\\']
}

/// A path as it is shown: without the extended-length prefix, if it has
/// one.
pub open spec fn shown_path(path: Seq<char>) -> Seq<char> {
    if path.len() >= 4 && path.subrange(0, 4) == extended_prefix() {
        path.subrange(4, path.len() as int)
    } else {
        path
    }
}

/// The form in which an absolute path is shown: the path without the
/// extended-length prefix, if it has one.
pub fn absolute_path(canonical: &str) -> (r: String)
    ensures
        r@ == shown_path(canonical@),
{
    let chars = to_chars(canonical);
    if chars.len() >= 4 && chars[0] == '\\' && chars[1] == '\\' && chars[2] == '?' && chars[3]
        == '\\' {
        assert(chars@.subrange(0, 4) =~= extended_prefix());
        from_range(&chars, 4, chars.len())
    } else {
        proof {
            if chars@.len() >= 4 {
                let head = chars@.subrange(0, 4);
                assert(head[0] == chars@[0] && head[1] == chars@[1] && head[2] == chars@[2]
                    && head[3] == chars@[3]);
            }
        }
        canonical.to_owned()
    }
}

/// The words joined by single spaces.
pub open spec fn joined(words: Seq<Seq<char>>) -> Seq<char>
    decreases words.len(),
{
    if words.len() == 0 {
        Seq::empty()
    } else if words.len() == 1 {
        words[0]
    } else {
        joined(words.drop_last()) + seq![' '] + words.last()
    }
}

/// The arguments from position `from` on, joined by single spaces; the
/// empty text when there is none.
pub fn join_arguments(args: &Vec<String>, from: usize) -> (r: String)
    ensures
        from <= args@.len() ==> r@ == joined(
            crate::format::texts(args@).subrange(from as int, args@.len() as int),
        ),
        from > args@.len() ==> r@ == Seq::<char>::empty(),
{
    let mut r = String::new();
    if from >= args.len() {
        proof {
            if from == args@.len() {
                assert(crate::format::texts(args@).subrange(from as int, args@.len() as int)
                    =~= Seq::<Seq<char>>::empty());
            }
        }
        return r;
    }
    let ghost all = crate::format::texts(args@);
    r.append(args[from].as_str());
    let mut i: usize = from + 1;
    proof {
        assert(all.subrange(from as int, from + 1) =~= seq![args@[from as int]@]);
        assert(r@ =~= args@[from as int]@);
    }
    while i < args.len()
        invariant
            from < i <= args@.len(),
            all == crate::format::texts(args@),
            r@ == joined(all.subrange(from as int, i as int)),
        decreases args@.len() - i,
    {
        proof {
            let next = all.subrange(from as int, i + 1);
            assert(next.drop_last() =~= all.subrange(from as int, i as int));
            assert(next.last() == args@[i as int]@);
        }
        r.push(' ');
        r.append(args[i].as_str());
        i += 1;
    }
    r
}

/// The command that runs `cmd` in the directory `directory` and goes back
/// to where it was called.
pub open spec fn in_directory(directory: Seq<char>, cmd: Seq<char>) -> Seq<char> {
    "cd \""@ + directory + "\";"@ + cmd + ";cd ?pwd"@
}

/// The command of an alias that always runs `cmd` in `directory`.
pub fn working_directory_command(directory: &str, cmd: &str) -> (r: String)
    ensures
        r@ == in_directory(directory@, cmd@),
{
    let mut r = "cd \"".to_owned();
    r.append(directory);
    r.append("\";");
    r.append(cmd);
    r.append(";cd ?pwd");
    r
}

/// The command that goes to `path`.
pub open spec fn go_to(path: Seq<char>) -> Seq<char> {
    "cd \""@ + path + "\""@
}

/// The command of an alias that goes to `path`.
pub fn path_command(path: &str) -> (r: String)
    ensures
        r@ == go_to(path@),
{
    let mut r = "cd \"".to_owned();
    r.append(path);
    r.append("\"");
    r
}

} // verus!
