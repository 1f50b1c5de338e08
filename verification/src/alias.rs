//! The alias record: a name bound to a command template, with a
//! description, a confirmation level and the storage root that holds it.

use vstd::prelude::*;
use crate::error::AliasError;
use crate::format::{
    file_text, lines_of, options_key, parse_options, record_of_lines, split_lines, texts,
};
use crate::text::{same_text, to_chars};

verus! {

/// How much confirmation an alias asks for before it runs.
#[derive(Clone, Copy, Debug, PartialEq, Eq, Structural)]
pub enum ConfirmationLevel {
    /// Runs at once.
    NoPrompt,
    /// Asks a yes/no question first.
    YesNo,
    /// Asks the user to type the alias name first.
    ExplicitTyped,
}

/// One of the two directories that hold alias files.
#[derive(Clone, Copy, Debug, PartialEq, Eq, Structural)]
pub enum StorageRoot {
    /// The user's own directory, always present.
    Default,
    /// The shared directory, present only when configured.
    Shared,
}

/// The level that the number `n` stands for: 1 and 2 are the two
/// confirming levels, every other number is `NoPrompt`.
pub open spec fn level_of_number(n: int) -> ConfirmationLevel {
    if n == 1 {
        ConfirmationLevel::YesNo
    } else if n == 2 {
        ConfirmationLevel::ExplicitTyped
    } else {
        ConfirmationLevel::NoPrompt
    }
}

/// The number that a level is stored as.
pub open spec fn number_of_level(level: ConfirmationLevel) -> int {
    match level {
        ConfirmationLevel::NoPrompt => 0,
        ConfirmationLevel::YesNo => 1,
        ConfirmationLevel::ExplicitTyped => 2,
    }
}

impl ConfirmationLevel {
    /// The level that `n` stands for; a number out of range gives `NoPrompt`.
    pub fn from_number(n: i8) -> (level: ConfirmationLevel)
        ensures
            level == level_of_number(n as int),
    {
        if n == 1 {
            ConfirmationLevel::YesNo
        } else if n == 2 {
            ConfirmationLevel::ExplicitTyped
        } else {
            ConfirmationLevel::NoPrompt
        }
    }

    /// The number that this level is stored as: 0, 1 or 2.
    pub fn number(self) -> (n: i8)
        ensures
            n as int == number_of_level(self),
            0 <= n <= 2,
    {
        match self {
            ConfirmationLevel::NoPrompt => 0,
            ConfirmationLevel::YesNo => 1,
            ConfirmationLevel::ExplicitTyped => 2,
        }
    }
}

/// What an alias record holds.
pub struct AliasView {
    pub name: Seq<char>,
    pub command: Seq<char>,
    pub description: Seq<char>,
    pub level: ConfirmationLevel,
    pub root: StorageRoot,
}

/// Where an alias file lies: the root, and the file's name in it.
pub struct AliasPath {
    pub root: StorageRoot,
    pub name: String,
}

/// The description that an update to `given` leaves: a lone dash clears it.
pub open spec fn normalized_description(given: Seq<char>) -> Seq<char> {
    if given == seq!['-'] {
        Seq::empty()
    } else {
        given
    }
}

/// An alias record.
#[derive(Debug)]
pub struct Alias {
    alias: String,
    command: String,
    description: String,
    confirm: ConfirmationLevel,
    storage: StorageRoot,
}

impl View for Alias {
    type V = AliasView;

    closed spec fn view(&self) -> AliasView {
        AliasView {
            name: self.alias@,
            command: self.command@,
            description: self.description@,
            level: self.confirm,
            root: self.storage,
        }
    }
}

impl Clone for Alias {
    fn clone(&self) -> (r: Alias)
        ensures
            r@ == self@,
    {
        Alias {
            alias: self.alias.clone(),
            command: self.command.clone(),
            description: self.description.clone(),
            confirm: self.confirm,
            storage: self.storage,
        }
    }
}

impl Alias {
    /// A record with the given name, command template and description, the
    /// confirmation level that `confirm` stands for, in the given root.
    pub fn new(alias: &str, cmd: &str, description: &str, confirm: i8, storage: StorageRoot) -> (r: Alias)
        ensures
            r@ == (AliasView {
                name: alias@,
                command: cmd@,
                description: description@,
                level: level_of_number(confirm as int),
                root: storage,
            }),
    {
        Alias {
            alias: alias.to_owned(),
            command: cmd.to_owned(),
            description: description.to_owned(),
            confirm: ConfirmationLevel::from_number(confirm),
            storage,
        }
    }

    /// The alias's name.
    pub fn get_alias(&self) -> (r: &str)
        ensures
            r@ == self@.name,
    {
        self.alias.as_str()
    }

    /// The command template.
    pub fn get_command(&self) -> (r: &str)
        ensures
            r@ == self@.command,
    {
        self.command.as_str()
    }

    /// The description; empty when there is none.
    pub fn get_description(&self) -> (r: &str)
        ensures
            r@ == self@.description,
    {
        self.description.as_str()
    }

    /// Where the record's file lies: in its root, under its name.
    pub fn get_file_path(&self) -> (r: AliasPath)
        ensures
            r.root == self@.root,
            r.name@ == self@.name,
    {
        AliasPath { root: self.storage, name: self.alias.clone() }
    }

    /// The record with its description replaced; a lone dash clears it.
    pub fn update_description(self, description: &str) -> (r: Alias)
        ensures
            r@ == (AliasView { description: normalized_description(description@), ..self@ }),
    {
        proof {
            reveal_strlit("-");
            reveal_strlit("");
        }
        let cleared = same_text(description, "-");
        assert(cleared == (description@ == seq!['-'])) by {
            assert("-"@ =~= seq!['-']);
        }
        let kept = if cleared { "" } else { description };
        assert(kept@ =~= normalized_description(description@));
        Alias {
            alias: self.alias,
            command: self.command,
            description: kept.to_owned(),
            confirm: self.confirm,
            storage: self.storage,
        }
    }

    /// The record with its confirmation level replaced by the one that
    /// `confirm` stands for.
    pub fn update_confirm(self, confirm: i8) -> (r: Alias)
        ensures
            r@ == (AliasView { level: level_of_number(confirm as int), ..self@ }),
    {
        Alias {
            alias: self.alias,
            command: self.command,
            description: self.description,
            confirm: ConfirmationLevel::from_number(confirm),
            storage: self.storage,
        }
    }

    /// The confirmation level as its number: 0, 1 or 2.
    pub fn get_confirmation_level(&self) -> (n: i8)
        ensures
            n as int == number_of_level(self@.level),
            0 <= n <= 2,
    {
        self.confirm.number()
    }

    /// The confirmation level.
    pub fn confirmation(&self) -> (level: ConfirmationLevel)
        ensures
            level == self@.level,
    {
        self.confirm
    }

    /// Reads a record from the text of its file. The file's name gives the
    /// alias's name, and the root it lies in gives the record's root.
    pub fn read(alias: &str, contents: &str, storage: StorageRoot) -> (r: Result<Alias, AliasError>)
        ensures
            lines_of(contents@).len() == 0 ==> r == Err::<Alias, AliasError>(AliasError::Empty),
            lines_of(contents@).len() > 0 ==> r is Ok && r->Ok_0@ == record_of_lines(
                alias@,
                lines_of(contents@),
                storage,
            ),
    {
        let chars = to_chars(contents);
        let lines = split_lines(&chars);
        assert(texts(lines@).len() == lines@.len());
        if lines.len() == 0 {
            return Err(AliasError::Empty);
        }
        assert(texts(lines@)[0] == lines@[0]@);
        let description: String = if lines.len() >= 2 {
            assert(texts(lines@)[1] == lines@[1]@);
            lines[1].clone()
        } else {
            String::new()
        };
        let confirm = if lines.len() >= 3 {
            assert(texts(lines@)[2] == lines@[2]@);
            let options = to_chars(lines[2].as_str());
            parse_options(&options)
        } else {
            ConfirmationLevel::NoPrompt
        };
        Ok(
            Alias {
                alias: alias.to_owned(),
                command: lines[0].clone(),
                description,
                confirm,
                storage,
            },
        )
    }

    /// The text of the file that holds this record.
    pub fn write(&self) -> (contents: String)
        ensures
            contents@ == file_text(self@),
    {
        let mut contents = self.command.clone();
        contents.push('\n');
        contents.append(self.description.as_str());
        contents.push('\n');
        contents.append("confirm=");
        let digit = match self.confirm {
            ConfirmationLevel::NoPrompt => '0',
            ConfirmationLevel::YesNo => '1',
            ConfirmationLevel::ExplicitTyped => '2',
        };
        contents.push(digit);
        proof {
            reveal_strlit("confirm=");
            assert("confirm="@ =~= options_key());
            assert(contents@ =~= file_text(self@));
        }
        contents
    }

    /// Whether the record lies in the default root rather than the shared one.
    pub fn is_in_main_storage(&self) -> (r: bool)
        ensures
            r == (self@.root == StorageRoot::Default),
    {
        match self.storage {
            StorageRoot::Default => true,
            StorageRoot::Shared => false,
        }
    }
}

} // verus!
