//! The confirmation that stands between an alias and its execution.
//!
//! Whatever is decided, running an alias gives exactly one line: the
//! command, or a blank line that does nothing.

use vstd::prelude::*;
use crate::alias::{Alias, ConfirmationLevel};
use crate::arguments::Arguments;
use crate::error::AliasError;
use crate::expand::{is_filling_by, with_working_directory};
use crate::text::same_text;

verus! {

/// What to ask the user before an alias runs.
#[derive(Debug)]
pub enum Prompt {
    /// Nothing: the alias runs at once.
    Nothing,
    /// A yes/no question with this text; the answer offered is no.
    Confirm(String),
    /// A request with this text to type the alias's name.
    Input(String),
}

/// What the user gave back.
#[derive(Debug)]
pub enum Reply {
    /// Nothing was asked.
    Unasked,
    /// The answer to a yes/no question.
    Decision(bool),
    /// The text typed.
    Typed(String),
}

/// What becomes of the execution.
#[derive(Clone, Copy, Debug, PartialEq, Eq, Structural)]
pub enum Verdict {
    /// The command is expanded and handed out.
    Run,
    /// The user declined: a blank line is handed out.
    Decline,
    /// The text typed is not the alias's name: an error is reported and a
    /// blank line is handed out.
    Mismatch,
}

/// The line that running an alias gives, and the error to report with it.
#[derive(Debug)]
pub struct Emission {
    pub line: String,
    pub error: Option<AliasError>,
}

/// The text of the yes/no question for the alias `name`.
pub open spec fn confirm_text(name: Seq<char>) -> Seq<char> {
    "Execute alias \""@ + name + "\"?"@
}

/// The text of the request to type the name of the alias `name`.
pub open spec fn input_text(name: Seq<char>) -> Seq<char> {
    "Type \""@ + name + "\" to confirm"@
}

/// The line that does nothing.
pub open spec fn blank_line() -> Seq<char> {
    seq![' ']
}

/// What is asked before an alias of the given level and name runs.
pub open spec fn prompt_for(level: ConfirmationLevel, name: Seq<char>, prompt: Prompt) -> bool {
    match level {
        ConfirmationLevel::NoPrompt => prompt is Nothing,
        ConfirmationLevel::YesNo => prompt is Confirm && prompt->Confirm_0@ == confirm_text(name),
        ConfirmationLevel::ExplicitTyped => prompt is Input && prompt->Input_0@ == input_text(
            name,
        ),
    }
}

/// What a reply decides for an alias of the given level and name. Without
/// a level the alias runs. A yes/no level runs on a yes and on nothing
/// else. A typed level runs when the text typed is the name, character
/// for character, and is a mismatch on anything else.
pub open spec fn verdict_of(level: ConfirmationLevel, name: Seq<char>, reply: Reply) -> Verdict {
    match level {
        ConfirmationLevel::NoPrompt => Verdict::Run,
        ConfirmationLevel::YesNo => if reply == Reply::Decision(true) {
            Verdict::Run
        } else {
            Verdict::Decline
        },
        ConfirmationLevel::ExplicitTyped => if reply is Typed && reply->Typed_0@ == name {
            Verdict::Run
        } else {
            Verdict::Mismatch
        },
    }
}

/// A no to the yes/no question declines, whatever the alias is called: the
/// line handed out is then the blank one.
pub proof fn lemma_no_declines(name: Seq<char>)
    ensures
        verdict_of(ConfirmationLevel::YesNo, name, Reply::Decision(false)) == Verdict::Decline,
{
}

/// The line handed out when no alias runs.
pub fn exec_nothing() -> (line: String)
    ensures
        line@ == blank_line(),
{
    proof {
        reveal_strlit(" ");
    }
    let line = " ".to_owned();
    assert(line@ =~= blank_line());
    line
}

impl Alias {
    /// What to ask the user before this alias runs.
    pub fn confirmation_prompt(&self) -> (prompt: Prompt)
        ensures
            prompt_for(self@.level, self@.name, prompt),
    {
        match self.confirmation() {
            ConfirmationLevel::NoPrompt => Prompt::Nothing,
            ConfirmationLevel::YesNo => {
                let mut text = "Execute alias \"".to_owned();
                text.append(self.get_alias());
                text.append("\"?");
                Prompt::Confirm(text)
            },
            ConfirmationLevel::ExplicitTyped => {
                let mut text = "Type \"".to_owned();
                text.append(self.get_alias());
                text.append("\" to confirm");
                Prompt::Input(text)
            },
        }
    }

    /// What the user's reply decides.
    pub fn verdict(&self, reply: &Reply) -> (v: Verdict)
        ensures
            v == verdict_of(self@.level, self@.name, *reply),
    {
        match self.confirmation() {
            ConfirmationLevel::NoPrompt => Verdict::Run,
            ConfirmationLevel::YesNo => match reply {
                Reply::Decision(true) => Verdict::Run,
                _ => Verdict::Decline,
            },
            ConfirmationLevel::ExplicitTyped => match reply {
                Reply::Typed(text) => if same_text(text.as_str(), self.get_alias()) {
                    Verdict::Run
                } else {
                    Verdict::Mismatch
                },
                _ => Verdict::Mismatch,
            },
        }
    }
}

/// Runs an alias past its confirmation: the one line to hand out, and the
/// error to report. The command template is expanded only when the reply
/// lets the alias run; otherwise the line is blank.
pub fn exec_alias<F: Fn(&Alias, &str) -> String>(
    al: &Alias,
    reply: &Reply,
    working_directory: &str,
    args: Arguments,
    missing_arg_handler: F,
) -> (out: Emission)
    requires
        forall|name: &str| call_requires(missing_arg_handler, (al, name)),
    ensures
        match verdict_of(al@.level, al@.name, *reply) {
            Verdict::Run => out.error is None && is_filling_by(
                missing_arg_handler,
                al,
                with_working_directory(al@.command, working_directory@),
                args@,
                true,
                out.line@,
            ),
            Verdict::Decline => out.error is None && out.line@ == blank_line(),
            Verdict::Mismatch => out.error == Some(AliasError::InputMismatch) && out.line@
                == blank_line(),
        },
{
    match al.verdict(reply) {
        Verdict::Run => Emission {
            line: al.execute(working_directory, args, missing_arg_handler),
            error: None,
        },
        Verdict::Decline => Emission { line: exec_nothing(), error: None },
        Verdict::Mismatch => Emission {
            line: exec_nothing(),
            error: Some(AliasError::InputMismatch),
        },
    }
}

} // verus!
