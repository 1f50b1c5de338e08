//! How alias records are shown in a list.

use vstd::prelude::*;
use vstd::utf8::encode_utf8;
use crate::alias::{Alias, AliasView, ConfirmationLevel};

verus! {

/// `n` spaces.
pub open spec fn spaces(n: int) -> Seq<char> {
    Seq::new(
        if n > 0 {
            n as nat
        } else {
            0
        },
        |i: int| ' ',
    )
}

/// A text filled up with spaces on the right to `width` characters; a text
/// that is longer stays as it is.
pub open spec fn padded(text: Seq<char>, width: int) -> Seq<char> {
    text + spaces(width - text.len())
}

/// The note that tells which confirmation a level asks for.
pub open spec fn level_note(level: ConfirmationLevel) -> Seq<char> {
    match level {
        ConfirmationLevel::NoPrompt => Seq::empty(),
        ConfirmationLevel::YesNo => "(Y/N confirmation)"@,
        ConfirmationLevel::ExplicitTyped => "(Explicit confirmation)"@,
    }
}

/// A record as the list shows it: the name in a column of `width`
/// characters, two spaces, the command, a space and the level's note; and
/// on a second line, under the command, the description if there is one.
pub open spec fn rendering(a: AliasView, width: int) -> Seq<char> {
    let first = padded(a.name, width) + seq![' ', ' '] + a.command + seq![' '] + level_note(
        a.level,
    );
    if a.description.len() == 0 {
        first
    } else {
        first + seq!['\n'] + spaces(width) + seq![' ', ' '] + a.description
    }
}

/// The number of bytes that a text takes.
pub open spec fn byte_len(text: Seq<char>) -> usize {
    encode_utf8(text).len() as usize
}

/// The width of the name column for a list of records: the largest number
/// of bytes that one of the names takes.
pub open spec fn column_width(records: Seq<Alias>) -> usize
    decreases records.len(),
{
    if records.len() == 0 {
        0
    } else {
        let rest = column_width(records.drop_last());
        let own = byte_len(records.last()@.name);
        if own > rest {
            own
        } else {
            rest
        }
    }
}

/// The lines that show the records, each in a name column of `width`.
pub open spec fn renderings(records: Seq<Alias>, width: int) -> Seq<Seq<char>> {
    records.map_values(|a: Alias| rendering(a@, width))
}

/// The line that stands above the records of the shared root.
pub open spec fn shared_heading(shared_path: Seq<char>) -> Seq<char> {
    "\nAliases in shared folder: ("@ + shared_path + ")\n"@
}

/// The whole list: the records of the default root, then, if the shared
/// root holds any, its heading and its records. One column width serves
/// both parts.
pub open spec fn listing(main: Seq<Alias>, shared: Seq<Alias>, shared_path: Seq<char>) -> Seq<
    Seq<char>,
> {
    let width = if column_width(main) > column_width(shared) {
        column_width(main)
    } else {
        column_width(shared)
    };
    if shared.len() == 0 {
        renderings(main, width as int)
    } else {
        renderings(main, width as int) + seq![shared_heading(shared_path)] + renderings(
            shared,
            width as int,
        )
    }
}

/// Appends `n` spaces to `out`.
fn push_spaces(out: &mut String, n: usize)
    ensures
        final(out)@ == old(out)@ + spaces(n as int),
{
    let mut i: usize = 0;
    assert(out@ =~= old(out)@ + spaces(0));
    while i < n
        invariant
            i <= n,
            out@ == old(out)@ + spaces(i as int),
        decreases n - i,
    {
        out.push(' ');
        assert(out@ =~= old(out)@ + spaces(i + 1));
        i += 1;
    }
}

impl Alias {
    /// This record as a list shows it, with the name in a column of
    /// `width` characters.
    pub fn to_string(&self, width: usize) -> (r: String)
        ensures
            r@ == rendering(self@, width as int),
    {
        let flags = match self.confirmation() {
            ConfirmationLevel::NoPrompt => "",
            ConfirmationLevel::YesNo => "(Y/N confirmation)",
            ConfirmationLevel::ExplicitTyped => "(Explicit confirmation)",
        };
        proof {
            reveal_strlit("");
            assert(flags@ =~= level_note(self@.level));
        }
        let name_len = self.get_alias().unicode_len();
        let mut out = self.get_alias().to_owned();
        if width > name_len {
            push_spaces(&mut out, width - name_len);
        } else {
            assert(spaces(width - name_len) =~= Seq::<char>::empty());
            assert(out@ + Seq::<char>::empty() =~= out@);
        }
        assert(out@ == padded(self@.name, width as int));
        out.push(' ');
        out.push(' ');
        out.append(self.get_command());
        out.push(' ');
        out.append(flags);
        if !self.get_description().is_empty() {
            out.push('\n');
            push_spaces(&mut out, width);
            out.push(' ');
            out.push(' ');
            out.append(self.get_description());
        }
        assert(out@ =~= rendering(self@, width as int));
        out
    }

    /// This record shown on its own: the name column is as wide as the
    /// name takes bytes.
    pub fn display(&self) -> (r: String)
        ensures
            r@ == rendering(self@, byte_len(self@.name) as int),
    {
        self.to_string(self.get_alias().len())
    }
}

/// The width of the name column for the records.
pub fn name_column_width(records: &Vec<Alias>) -> (width: usize)
    ensures
        width == column_width(records@),
{
    let mut width: usize = 0;
    let mut i: usize = 0;
    assert(records@.take(0) =~= Seq::<Alias>::empty());
    while i < records.len()
        invariant
            i <= records@.len(),
            width == column_width(records@.take(i as int)),
        decreases records@.len() - i,
    {
        assert(records@.take(i + 1).drop_last() =~= records@.take(i as int));
        let own = records[i].get_alias().len();
        if own > width {
            width = own;
        }
        i += 1;
    }
    assert(records@.take(i as int) =~= records@);
    width
}

/// Shows each record in a name column of `width`.
fn render_all(records: &Vec<Alias>, width: usize, lines: &mut Vec<String>)
    ensures
        crate::format::texts(final(lines)@) == crate::format::texts(old(lines)@) + renderings(
            records@,
            width as int,
        ),
{
    let mut i: usize = 0;
    let ghost before = crate::format::texts(lines@);
    assert(before + renderings(records@, width as int).take(0) =~= before);
    while i < records.len()
        invariant
            i <= records@.len(),
            crate::format::texts(lines@) == before + renderings(records@, width as int).take(
                i as int,
            ),
        decreases records@.len() - i,
    {
        let shown = records[i].to_string(width);
        let ghost so_far = crate::format::texts(lines@);
        lines.push(shown);
        assert(crate::format::texts(lines@) =~= so_far + seq![shown@]);
        assert(renderings(records@, width as int)[i as int] == shown@);
        assert(crate::format::texts(lines@) =~= before + renderings(records@, width as int).take(
            i + 1,
        ));
        i += 1;
    }
    assert(renderings(records@, width as int).take(i as int) =~= renderings(
        records@,
        width as int,
    ));
}

/// The lines that list the records of the default root and those of the
/// shared root, which is shown as `shared_path`.
pub fn list_aliases(main: &Vec<Alias>, shared: &Vec<Alias>, shared_path: &str) -> (lines: Vec<
    String,
>)
    ensures
        crate::format::texts(lines@) == listing(main@, shared@, shared_path@),
{
    let own = name_column_width(main);
    let other = name_column_width(shared);
    let width = if own > other {
        own
    } else {
        other
    };
    let mut lines: Vec<String> = Vec::new();
    assert(crate::format::texts(lines@) =~= Seq::<Seq<char>>::empty());
    render_all(main, width, &mut lines);
    if shared.len() != 0 {
        let mut heading = "\nAliases in shared folder: (".to_owned();
        heading.append(shared_path);
        heading.append(")\n");
        let ghost before = crate::format::texts(lines@);
        lines.push(heading);
        assert(crate::format::texts(lines@) =~= before + seq![shared_heading(shared_path@)]);
        render_all(shared, width, &mut lines);
    }
    assert(crate::format::texts(lines@) =~= listing(main@, shared@, shared_path@));
    lines
}

} // verus!
