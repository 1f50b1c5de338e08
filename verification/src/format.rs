//! The alias file format: up to three lines of text that hold the command
//! template, the description and the options.

use vstd::prelude::*;
use crate::alias::{AliasView, ConfirmationLevel, StorageRoot, level_of_number, number_of_level};
use crate::text::{from_range, to_chars};

verus! {

/// The views of a sequence of strings.
pub open spec fn texts(v: Seq<String>) -> Seq<Seq<char>> {
    v.map_values(|s: String| s@)
}

/// The first position at or after `from` that holds a line feed, or the
/// length of `t` when there is none.
pub open spec fn newline_from(t: Seq<char>, from: int) -> int
    decreases t.len() - from,
{
    if from < 0 || from >= t.len() {
        t.len() as int
    } else if t[from] == '\n' {
        from
    } else {
        newline_from(t, from + 1)
    }
}

/// A line without the carriage return that ended it, if one did.
pub open spec fn strip_cr(line: Seq<char>) -> Seq<char> {
    if line.len() > 0 && line.last() == '\r' {
        line.drop_last()
    } else {
        line
    }
}

/// The lines of `t` from position `from` on. A line ends at a line feed,
/// which is dropped together with a carriage return just before it; text
/// after the last line feed is a line of its own unless it is empty.
pub open spec fn lines_from(t: Seq<char>, from: int) -> Seq<Seq<char>>
    decreases t.len() - from,
{
    if from < 0 || from >= t.len() {
        Seq::empty()
    } else {
        let end = newline_from(t, from);
        if end >= t.len() {
            seq![t.subrange(from, t.len() as int)]
        } else if end < from {
            Seq::empty()
        } else {
            seq![strip_cr(t.subrange(from, end))] + lines_from(t, end + 1)
        }
    }
}

/// The lines of `t`.
pub open spec fn lines_of(t: Seq<char>) -> Seq<Seq<char>> {
    lines_from(t, 0)
}

/// The position that `newline_from` gives is the only one at or after
/// `from` that holds a line feed with none before it.
proof fn lemma_newline_from_is(t: Seq<char>, from: int, end: int)
    requires
        0 <= from <= end <= t.len(),
        end < t.len() ==> t[end] == '\n',
        forall|k: int| from <= k < end ==> t[k] != '\n',
    ensures
        newline_from(t, from) == end,
    decreases end - from,
{
    if from < end {
        lemma_newline_from_is(t, from + 1, end);
    }
}

/// The position of the line feed that ends the line starting at `from`, or
/// the length of `v` when none does.
fn line_end(v: &Vec<char>, from: usize) -> (end: usize)
    requires
        from <= v.len(),
    ensures
        end as int == newline_from(v@, from as int),
        from <= end <= v.len(),
{
    let mut i: usize = from;
    while i < v.len() && v[i] != '\n'
        invariant
            from <= i <= v.len(),
            forall|k: int| from <= k < i ==> v@[k] != '\n',
        decreases v.len() - i,
    {
        i += 1;
    }
    proof {
        lemma_newline_from_is(v@, from as int, i as int);
    }
    i
}

/// Splits text into its lines.
pub fn split_lines(v: &Vec<char>) -> (lines: Vec<String>)
    ensures
        texts(lines@) == lines_of(v@),
{
    let mut lines: Vec<String> = Vec::new();
    let mut pos: usize = 0;
    assert(texts(lines@) =~= Seq::<Seq<char>>::empty());
    while pos < v.len()
        invariant
            pos <= v.len(),
            lines_of(v@) == texts(lines@) + lines_from(v@, pos as int),
        decreases v.len() - pos,
    {
        let end = line_end(v, pos);
        let ghost before = texts(lines@);
        if end >= v.len() {
            let line = from_range(v, pos, v.len());
            lines.push(line);
            assert(texts(lines@) =~= before + seq![v@.subrange(pos as int, v@.len() as int)]);
            pos = v.len();
            assert(lines_from(v@, pos as int) =~= Seq::<Seq<char>>::empty());
        } else {
            let stop: usize = if end > pos && v[end - 1] == '\r' {
                end - 1
            } else {
                end
            };
            let line = from_range(v, pos, stop);
            let ghost whole = v@.subrange(pos as int, end as int);
            assert(line@ =~= strip_cr(whole)) by {
                if end > pos {
                    assert(whole.last() == v@[end - 1]);
                }
            }
            lines.push(line);
            assert(texts(lines@) =~= before + seq![strip_cr(whole)]);
            assert(lines_from(v@, pos as int) == seq![strip_cr(whole)] + lines_from(v@, end + 1));
            pos = end + 1;
        }
    }
    lines
}

/// The text that an options line starts with.
pub open spec fn options_key() -> Seq<char> {
    seq!['c', 'o', 'n', 'f', 'i', 'r', 'm', '=']
}

/// Whether `c` is one of the ten decimal digits.
pub open spec fn is_digit(c: char) -> bool {
    '0' <= c && c <= '9'
}

/// The number that the decimal digit `c` stands for.
pub open spec fn digit_value(c: char) -> int {
    c as int - '0' as int
}

/// Whether `s` is a decimal numeral: one or more digits, and nothing else.
pub open spec fn is_numeral(s: Seq<char>) -> bool {
    s.len() > 0 && forall|i: int| 0 <= i < s.len() ==> is_digit(#[trigger] s[i])
}

/// The number that the digits of `s` stand for.
pub open spec fn numeral_value(s: Seq<char>) -> int
    decreases s.len(),
{
    if s.len() == 0 {
        0
    } else {
        numeral_value(s.drop_last()) * 10 + digit_value(s.last())
    }
}

/// The level that the number text `s` stands for. A numeral, or a numeral
/// after a plus sign, stands for its number; a numeral after a minus sign
/// stands for a number that is not above zero; other text stands for no
/// number. Only the numbers 1 and 2 give a confirming level.
pub open spec fn level_of_text(s: Seq<char>) -> ConfirmationLevel {
    if is_numeral(s) {
        level_of_number(numeral_value(s))
    } else if s.len() > 0 && s[0] == '+' && is_numeral(s.drop_first()) {
        level_of_number(numeral_value(s.drop_first()))
    } else {
        ConfirmationLevel::NoPrompt
    }
}

/// The level that an options line sets: the line is `confirm=` and a
/// number text; any other line sets none.
pub open spec fn level_of_options(line: Seq<char>) -> ConfirmationLevel {
    if line.len() >= 8 && line.subrange(0, 8) == options_key() {
        level_of_text(line.subrange(8, line.len() as int))
    } else {
        ConfirmationLevel::NoPrompt
    }
}

/// The record that the lines of a file give, for a file with at least one
/// line: the first line is the command, the second the description, the
/// third the options; further lines are not read.
pub open spec fn record_of_lines(name: Seq<char>, lines: Seq<Seq<char>>, root: StorageRoot) -> AliasView {
    AliasView {
        name,
        command: lines[0],
        description: if lines.len() >= 2 {
            lines[1]
        } else {
            Seq::empty()
        },
        level: if lines.len() >= 3 {
            level_of_options(lines[2])
        } else {
            ConfirmationLevel::NoPrompt
        },
        root,
    }
}

/// The digit that a level is written as.
pub open spec fn level_digit(level: ConfirmationLevel) -> char {
    match level {
        ConfirmationLevel::NoPrompt => '0',
        ConfirmationLevel::YesNo => '1',
        ConfirmationLevel::ExplicitTyped => '2',
    }
}

/// The text of the file that holds a record: the command, the description
/// and the options, each on a line of its own.
pub open spec fn file_text(a: AliasView) -> Seq<char> {
    a.command + seq!['\n'] + a.description + seq!['\n'] + options_key() + seq![level_digit(a.level)]
}

/// Whether a field comes back from a file as it was written: it holds no
/// line feed and does not end in a carriage return.
pub open spec fn fits_a_line(field: Seq<char>) -> bool {
    &&& forall|i: int| 0 <= i < field.len() ==> field[i] != '\n'
    &&& strip_cr(field) == field
}

/// The number of a numeral is not negative, and one more digit makes it
/// ten times as large at least.
proof fn lemma_numeral_value_bounds(s: Seq<char>)
    requires
        forall|i: int| 0 <= i < s.len() ==> is_digit(#[trigger] s[i]),
    ensures
        numeral_value(s) >= 0,
    decreases s.len(),
{
    if s.len() > 0 {
        let front = s.drop_last();
        assert(forall|i: int| 0 <= i < front.len() ==> is_digit(#[trigger] front[i])) by {
            assert(forall|i: int| 0 <= i < front.len() ==> front[i] == s[i]);
        }
        lemma_numeral_value_bounds(front);
    }
}

/// Reads the level off a number text.
fn parse_level(v: &Vec<char>, from: usize) -> (level: ConfirmationLevel)
    requires
        from <= v.len(),
    ensures
        level == level_of_text(v@.subrange(from as int, v@.len() as int)),
{
    let ghost s = v@.subrange(from as int, v@.len() as int);
    let start: usize = if from < v.len() && v[from] == '+' {
        from + 1
    } else {
        from
    };
    let ghost body = v@.subrange(start as int, v@.len() as int);
    let ghost expected = if is_numeral(body) {
        level_of_number(numeral_value(body))
    } else {
        ConfirmationLevel::NoPrompt
    };
    proof {
        assert(s.len() > 0 ==> s[0] == v@[from as int]);
        if start > from {
            assert(body =~= s.drop_first());
            assert(!is_digit(s[0]));
            assert(!is_numeral(s));
        } else {
            assert(body =~= s);
        }
        assert(level_of_text(s) == expected);
    }
    if start >= v.len() {
        assert(!is_numeral(body));
        return ConfirmationLevel::NoPrompt;
    }
    // `small` follows the number read so far, but stays at 3 once the
    // number has passed 2.
    let mut small: u8 = 0;
    let mut i: usize = start;
    assert(v@.subrange(start as int, i as int) =~= Seq::<char>::empty());
    while i < v.len()
        invariant
            start <= i <= v.len(),
            forall|k: int| start <= k < i ==> is_digit(v@[k]),
            body == v@.subrange(start as int, v@.len() as int),
            level_of_text(v@.subrange(from as int, v@.len() as int)) == if is_numeral(body) {
                level_of_number(numeral_value(body))
            } else {
                ConfirmationLevel::NoPrompt
            },
            small <= 3,
            small < 3 ==> numeral_value(v@.subrange(start as int, i as int)) == small,
            small == 3 ==> numeral_value(v@.subrange(start as int, i as int)) >= 3,
        decreases v.len() - i,
    {
        let c = v[i];
        if !(c >= '0' && c <= '9') {
            assert(!is_digit(body[i - start]));
            assert(!is_numeral(body));
            return ConfirmationLevel::NoPrompt;
        }
        let ghost prefix = v@.subrange(start as int, i as int);
        let ghost next = v@.subrange(start as int, i + 1);
        proof {
            assert(next.drop_last() =~= prefix);
            assert(next.last() == c);
            assert forall|k: int| 0 <= k < prefix.len() implies is_digit(#[trigger] prefix[k]) by {
                assert(prefix[k] == v@[start + k]);
            }
            lemma_numeral_value_bounds(prefix);
        }
        let d: u8 = if c == '0' {
            0
        } else if c == '1' {
            1
        } else if c == '2' {
            2
        } else {
            3
        };
        assert(d < 3 ==> digit_value(c) == d);
        assert(d == 3 ==> digit_value(c) >= 3);
        small = if small == 0 {
            d
        } else {
            3
        };
        i += 1;
    }
    proof {
        assert(v@.subrange(start as int, i as int) =~= body);
        assert forall|k: int| 0 <= k < body.len() implies is_digit(#[trigger] body[k]) by {
            assert(body[k] == v@[start + k]);
        }
        assert(is_numeral(body));
    }
    if small == 1 {
        ConfirmationLevel::YesNo
    } else if small == 2 {
        ConfirmationLevel::ExplicitTyped
    } else {
        ConfirmationLevel::NoPrompt
    }
}

/// Reads the level off an options line.
pub fn parse_options(line: &Vec<char>) -> (level: ConfirmationLevel)
    ensures
        level == level_of_options(line@),
{
    if line.len() < 8 {
        return ConfirmationLevel::NoPrompt;
    }
    let head_matches = line[0] == 'c' && line[1] == 'o' && line[2] == 'n' && line[3] == 'f'
        && line[4] == 'i' && line[5] == 'r' && line[6] == 'm' && line[7] == '=';
    proof {
        let head = line@.subrange(0, 8);
        if head_matches {
            assert(head =~= options_key());
        } else {
            assert(head[0] == line@[0] && head[1] == line@[1] && head[2] == line@[2] && head[3]
                == line@[3] && head[4] == line@[4] && head[5] == line@[5] && head[6] == line@[6]
                && head[7] == line@[7]);
            assert(head != options_key());
        }
    }
    if head_matches {
        parse_level(line, 8)
    } else {
        ConfirmationLevel::NoPrompt
    }
}

/// An options line as it is written gives back the level it was written
/// for.
pub proof fn lemma_options_round_trip(level: ConfirmationLevel)
    ensures
        level_of_options(options_key() + seq![level_digit(level)]) == level,
{
    let line = options_key() + seq![level_digit(level)];
    let rest = line.subrange(8, line.len() as int);
    assert(line.subrange(0, 8) =~= options_key());
    assert(rest =~= seq![level_digit(level)]);
    assert(is_numeral(rest));
    assert(rest.drop_last() =~= Seq::<char>::empty());
    assert(numeral_value(rest.drop_last()) == 0);
    assert(numeral_value(rest) == digit_value(level_digit(level)));
}

/// Writing a record and reading the text back gives the record, for every
/// record whose command and description fit a line.
pub proof fn lemma_write_read_round_trip(a: AliasView)
    requires
        fits_a_line(a.command),
        fits_a_line(a.description),
    ensures
        lines_of(file_text(a)).len() == 3,
        record_of_lines(a.name, lines_of(file_text(a)), a.root) == a,
{
    let t = file_text(a);
    let c = a.command.len() as int;
    let d = a.description.len() as int;
    let options = options_key() + seq![level_digit(a.level)];
    assert(t.len() == c + d + 11);
    assert forall|k: int| 0 <= k < c implies t[k] != '\n' by {
        assert(t[k] == a.command[k]);
    }
    assert(t[c] == '\n');
    lemma_newline_from_is(t, 0, c);
    assert(t.subrange(0, c) =~= a.command);
    assert forall|k: int| c + 1 <= k < c + 1 + d implies t[k] != '\n' by {
        assert(t[k] == a.description[k - c - 1]);
    }
    assert(t[c + 1 + d] == '\n');
    lemma_newline_from_is(t, c + 1, c + 1 + d);
    assert(t.subrange(c + 1, c + 1 + d) =~= a.description);
    assert forall|k: int| c + d + 2 <= k < t.len() implies t[k] != '\n' by {
        assert(t[k] == options[k - c - d - 2]);
    }
    lemma_newline_from_is(t, c + d + 2, t.len() as int);
    assert(t.subrange(c + d + 2, t.len() as int) =~= options);
    assert(lines_from(t, c + d + 2) =~= seq![options]);
    assert(lines_from(t, c + 1) =~= seq![a.description, options]);
    assert(lines_from(t, 0) =~= seq![a.command, a.description, options]);
    lemma_options_round_trip(a.level);
}

/// The number that a level given on the command line stands for: 1 or 2
/// where the text is that number, and 0 for every other text.
pub fn parse_confirmation(text: &str) -> (confirm: i8)
    ensures
        confirm as int == number_of_level(level_of_text(text@)),
{
    let chars = to_chars(text);
    assert(chars@.subrange(0, chars@.len() as int) =~= text@);
    parse_level(&chars, 0).number()
}

/// A text that is not a number, and a number other than 1 and 2, stand
/// for no confirmation.
pub proof fn lemma_unknown_level_is_none(s: Seq<char>)
    ensures
        !is_numeral(s) && !(s.len() > 0 && s[0] == '+' && is_numeral(s.drop_first()))
            ==> level_of_text(s) == ConfirmationLevel::NoPrompt,
        is_numeral(s) && numeral_value(s) != 1 && numeral_value(s) != 2 ==> level_of_text(s)
            == ConfirmationLevel::NoPrompt,
        !is_numeral(s) && s.len() > 0 && s[0] == '+' && is_numeral(s.drop_first())
            && numeral_value(s.drop_first()) != 1 && numeral_value(s.drop_first()) != 2
            ==> level_of_text(s) == ConfirmationLevel::NoPrompt,
        number_of_level(level_of_text(s)) == 0 <==> level_of_text(s) == ConfirmationLevel::NoPrompt,
{
}

} // verus!
