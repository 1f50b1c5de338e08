//! The ways in which an operation on aliases can fail.

use vstd::prelude::*;

verus! {

/// Why an operation did not go through.
#[derive(Clone, Copy, Debug, PartialEq, Eq, Structural)]
pub enum AliasError {
    /// No stored alias answers to the name or the fragments given.
    NotFound,
    /// The alias file holds no line.
    Empty,
    /// The name is a command word and cannot name an alias.
    ReservedName,
    /// The shared root is asked for and none is configured.
    Unconfigured,
    /// The text typed to confirm is not the alias's name.
    InputMismatch,
}

/// The message that tells the user of an error about `subject`, the
/// name or identifier that the operation was given.
pub open spec fn message_of(error: AliasError, subject: Seq<char>) -> Seq<char> {
    match error {
        AliasError::NotFound => "no matching aliases found."@,
        AliasError::Empty => "Empty or invalid alias file: "@ + subject,
        AliasError::ReservedName => "\""@ + subject
            + "\" cannot be used as an alias name; it is a reserved keyword."@,
        AliasError::Unconfigured =>
            "no shared storage path configured! Please set the JUMPCUT_SHARED_PATH environment variable."@,
        AliasError::InputMismatch => "unexpected input."@,
    }
}

impl AliasError {
    /// The message that tells the user of this error about `subject`.
    pub fn message(&self, subject: &str) -> (r: String)
        ensures
            r@ == message_of(*self, subject@),
    {
        match self {
            AliasError::NotFound => "no matching aliases found.".to_owned(),
            AliasError::Empty => {
                let mut r = "Empty or invalid alias file: ".to_owned();
                r.append(subject);
                r
            },
            AliasError::ReservedName => {
                let mut r = "\"".to_owned();
                r.append(subject);
                r.append("\" cannot be used as an alias name; it is a reserved keyword.");
                r
            },
            AliasError::Unconfigured =>
                "no shared storage path configured! Please set the JUMPCUT_SHARED_PATH environment variable.".to_owned(),
            AliasError::InputMismatch => "unexpected input.".to_owned(),
        }
    }
}

} // verus!
