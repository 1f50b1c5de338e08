//! The life of a stored alias: loading, adding, copying, changing and
//! removing it.
//!
//! Each operation names the alias by an identifier, which is resolved
//! first. Where the identifier may mean several aliases, `selection` is
//! what the user chose among them; `None` says that nothing was chosen,
//! and then nothing is done.

use vstd::prelude::*;
use crate::alias::{
    level_of_number, normalized_description, Alias, AliasPath, AliasView, ConfirmationLevel,
    StorageRoot,
};
use crate::arguments::Arguments;
use crate::error::AliasError;
use crate::expand::{is_filling_by, with_working_directory};
use crate::gate::{blank_line, exec_alias, exec_nothing, verdict_of, Reply, Verdict};
use crate::format::{file_text, lines_of, record_of_lines};
use crate::resolver::{
    contents_of, directory_of, is_stored, pick, picked, resolution, with_file,
    without_file, Candidate, CandidateView, Store, StoreView,
};
use crate::utils::{is_reserved, is_reserved_keyword};

verus! {

/// The alias that an identifier means, given the user's selection; `None`
/// when the user chose nothing.
pub open spec fn meant(store: StoreView, identifier: Seq<char>, selection: Option<usize>) -> Result<
    Option<CandidateView>,
    AliasError,
> {
    match resolution(store, identifier) {
        Ok(list) => Ok(picked(list, selection)),
        Err(e) => Err(e),
    }
}

/// The record that the candidate's file holds.
pub open spec fn stored_record(store: StoreView, c: CandidateView) -> Result<AliasView, AliasError> {
    if directory_of(store, c.root) is None {
        Err(AliasError::Unconfigured)
    } else if !is_stored(store, c) {
        Err(AliasError::NotFound)
    } else if lines_of(contents_of(store, c)).len() == 0 {
        Err(AliasError::Empty)
    } else {
        Ok(record_of_lines(c.name, lines_of(contents_of(store, c)), c.root))
    }
}

/// The record that an identifier means; `None` when the user chose
/// nothing.
pub open spec fn meant_record(store: StoreView, identifier: Seq<char>, selection: Option<usize>) -> Result<
    Option<AliasView>,
    AliasError,
> {
    match meant(store, identifier, selection) {
        Ok(Some(c)) => match stored_record(store, c) {
            Ok(a) => Ok(Some(a)),
            Err(e) => Err(e),
        },
        Ok(None) => Ok(None),
        Err(e) => Err(e),
    }
}

/// The place of a record in the store.
pub open spec fn place_of(a: AliasView) -> CandidateView {
    CandidateView { name: a.name, root: a.root }
}

/// What storing a record does. A reserved name is refused, and so is the
/// shared root when it is not configured. A record whose file is there
/// already is stored only when overwriting is agreed to. `Ok` tells
/// whether the record was stored.
pub open spec fn stored(store: StoreView, a: AliasView, overwrite: bool) -> (
    Result<bool, AliasError>,
    StoreView,
) {
    if is_reserved(a.name) {
        (Err(AliasError::ReservedName), store)
    } else if directory_of(store, a.root) is None {
        (Err(AliasError::Unconfigured), store)
    } else if is_stored(store, place_of(a)) && !overwrite {
        (Ok(false), store)
    } else {
        (Ok(true), with_file(store, place_of(a), file_text(a)))
    }
}

/// A record with a reserved name is refused, and the store stays as it
/// is, whether or not overwriting is agreed to.
pub proof fn lemma_reserved_name_is_refused(store: StoreView, a: AliasView, overwrite: bool)
    requires
        is_reserved(a.name),
    ensures
        stored(store, a, overwrite) == (Err::<bool, AliasError>(AliasError::ReservedName), store),
{
}

/// Storing a record changes nothing unless it says that the record was
/// stored, and then only the record's own file.
pub proof fn lemma_stored_touches_one_file(store: StoreView, a: AliasView, overwrite: bool)
    ensures
        stored(store, a, overwrite).0 != Ok::<bool, AliasError>(true) ==> stored(
            store,
            a,
            overwrite,
        ).1 == store,
        stored(store, a, overwrite).0 == Ok::<bool, AliasError>(true) ==> stored(
            store,
            a,
            overwrite,
        ).1 == with_file(store, place_of(a), file_text(a)),
{
}

impl Store {
    /// Resolves an identifier to the one alias that is meant.
    pub fn resolve(&self, identifier: &str, selection: Option<usize>) -> (r: Result<
        Option<Candidate>,
        AliasError,
    >)
        ensures
            match meant(self@, identifier@, selection) {
                Ok(Some(c)) => r is Ok && r->Ok_0 is Some && r->Ok_0->Some_0@ == c,
                Ok(None) => r is Ok && r->Ok_0 is None,
                Err(e) => r == Err::<Option<Candidate>, AliasError>(e),
            },
    {
        match self.lookup(identifier) {
            Ok(list) => Ok(pick(&list, selection)),
            Err(e) => Err(e),
        }
    }

    /// Reads the record of a candidate from its file.
    pub fn load(&self, c: &Candidate) -> (r: Result<Alias, AliasError>)
        ensures
            match stored_record(self@, c@) {
                Ok(a) => r is Ok && r->Ok_0@ == a,
                Err(e) => r == Err::<Alias, AliasError>(e),
            },
    {
        if self.directory(c.root).is_none() {
            return Err(AliasError::Unconfigured);
        }
        match self.read_file(c) {
            Some(contents) => Alias::read(c.name.as_str(), contents.as_str(), c.root),
            None => Err(AliasError::NotFound),
        }
    }

    /// Resolves an identifier and reads the record of the alias that is
    /// meant.
    pub fn load_alias(&self, alias: &str, selection: Option<usize>) -> (r: Result<
        Option<Alias>,
        AliasError,
    >)
        ensures
            match meant_record(self@, alias@, selection) {
                Ok(Some(a)) => r is Ok && r->Ok_0 is Some && r->Ok_0->Some_0@ == a,
                Ok(None) => r is Ok && r->Ok_0 is None,
                Err(e) => r == Err::<Option<Alias>, AliasError>(e),
            },
    {
        match self.resolve(alias, selection) {
            Ok(Some(c)) => match self.load(&c) {
                Ok(a) => Ok(Some(a)),
                Err(e) => Err(e),
            },
            Ok(None) => Ok(None),
            Err(e) => Err(e),
        }
    }

    /// Whether storing a record of that name in that root would replace a
    /// file, so that the user is to be asked first.
    pub fn would_overwrite(&self, name: &str, root: StorageRoot) -> (r: bool)
        ensures
            r == (!is_reserved(name@) && is_stored(self@, CandidateView { name: name@, root })),
    {
        !is_reserved_keyword(name) && self.holds(name, root)
    }

    /// Stores a record in the file that its name and root give.
    pub fn store_alias(&mut self, al: &Alias, overwrite: bool) -> (r: Result<bool, AliasError>)
        ensures
            r == stored(old(self)@, al@, overwrite).0,
            final(self)@ == stored(old(self)@, al@, overwrite).1,
    {
        let path = al.get_file_path();
        let c = Candidate { name: path.name, root: path.root };
        assert(c@ == place_of(al@));
        if is_reserved_keyword(al.get_alias()) {
            return Err(AliasError::ReservedName);
        }
        if self.directory(c.root).is_none() {
            return Err(AliasError::Unconfigured);
        }
        if self.holds(al.get_alias(), c.root) && !overwrite {
            return Ok(false);
        }
        self.write_file(&c, al.write());
        Ok(true)
    }

    /// Creates an alias for a command, without a description and without
    /// confirmation.
    pub fn add_alias(&mut self, alias: &str, cmd: &str, root: StorageRoot, overwrite: bool) -> (r:
        Result<bool, AliasError>)
        ensures
            r == stored(old(self)@, new_record(alias@, cmd@, root), overwrite).0,
            final(self)@ == stored(old(self)@, new_record(alias@, cmd@, root), overwrite).1,
    {
        let al = Alias::new(alias, cmd, "", 0, root);
        proof {
            reveal_strlit("");
            assert(""@ =~= Seq::<char>::empty());
            assert(al@ == new_record(alias@, cmd@, root));
        }
        self.store_alias(&al, overwrite)
    }

    /// Removes the alias that an identifier means. `Ok` holds the place of
    /// the file removed, or `None` when the user chose nothing.
    pub fn remove_alias(&mut self, alias: &str, selection: Option<usize>) -> (r: Result<
        Option<AliasPath>,
        AliasError,
    >)
        ensures
            match meant(old(self)@, alias@, selection) {
                Ok(Some(c)) => if is_stored(old(self)@, c) {
                    &&& r is Ok && r->Ok_0 is Some
                    &&& r->Ok_0->Some_0.name@ == c.name
                    &&& r->Ok_0->Some_0.root == c.root
                    &&& final(self)@ == without_file(old(self)@, c)
                } else {
                    r == Err::<Option<AliasPath>, AliasError>(AliasError::NotFound) && final(self)@
                        == old(self)@
                },
                Ok(None) => r is Ok && r->Ok_0 is None && final(self)@ == old(self)@,
                Err(e) => r == Err::<Option<AliasPath>, AliasError>(e) && final(self)@ == old(
                    self,
                )@,
            },
    {
        match self.resolve(alias, selection) {
            Ok(Some(c)) => {
                if !self.holds(c.name.as_str(), c.root) {
                    return Err(AliasError::NotFound);
                }
                self.delete_file(&c);
                Ok(Some(AliasPath { root: c.root, name: c.name }))
            },
            Ok(None) => Ok(None),
            Err(e) => Err(e),
        }
    }

    /// Changes the alias that an identifier means: reads its record,
    /// applies `modify_fn`, and writes the result to the same file. `Ok`
    /// holds the record written, or `None` when the user chose nothing.
    pub fn modify_alias<F: Fn(Alias) -> Alias>(
        &mut self,
        alias: &str,
        selection: Option<usize>,
        modify_fn: F,
    ) -> (r: Result<Option<Alias>, AliasError>)
        requires
            forall|a: Alias| call_requires(modify_fn, (a,)),
        ensures
            match meant_record(old(self)@, alias@, selection) {
                Ok(Some(a)) => {
                    &&& r is Ok && r->Ok_0 is Some
                    &&& exists|loaded: Alias|
                        loaded@ == a && call_ensures(modify_fn, (loaded,), r->Ok_0->Some_0)
                    &&& final(self)@ == with_file(
                        old(self)@,
                        place_of(a),
                        file_text(r->Ok_0->Some_0@),
                    )
                },
                Ok(None) => r is Ok && r->Ok_0 is None && final(self)@ == old(self)@,
                Err(e) => r == Err::<Option<Alias>, AliasError>(e) && final(self)@ == old(self)@,
            },
    {
        match self.resolve(alias, selection) {
            Ok(Some(c)) => match self.load(&c) {
                Ok(loaded) => {
                    let changed = modify_fn(loaded);
                    self.write_file(&c, changed.write());
                    Ok(Some(changed))
                },
                Err(e) => Err(e),
            },
            Ok(None) => Ok(None),
            Err(e) => Err(e),
        }
    }

    /// Sets the description of the alias that an identifier means; a lone
    /// dash clears it.
    pub fn add_description(&mut self, alias: &str, selection: Option<usize>, description: &str) -> (r:
        Result<Option<Alias>, AliasError>)
        ensures
            match meant_record(old(self)@, alias@, selection) {
                Ok(Some(a)) => {
                    let changed = AliasView {
                        description: normalized_description(description@),
                        ..a
                    };
                    &&& r is Ok && r->Ok_0 is Some && r->Ok_0->Some_0@ == changed
                    &&& final(self)@ == with_file(old(self)@, place_of(a), file_text(changed))
                },
                Ok(None) => r is Ok && r->Ok_0 is None && final(self)@ == old(self)@,
                Err(e) => r == Err::<Option<Alias>, AliasError>(e) && final(self)@ == old(self)@,
            },
    {
        let change = |al: Alias| -> (r: Alias)
            ensures
                r@ == (AliasView { description: normalized_description(description@), ..al@ }),
            { al.update_description(description) };
        self.modify_alias(alias, selection, change)
    }

    /// Sets the confirmation level of the alias that an identifier means
    /// to the level that `confirm` stands for.
    pub fn set_confirmation(&mut self, alias: &str, selection: Option<usize>, confirm: i8) -> (r:
        Result<Option<Alias>, AliasError>)
        ensures
            match meant_record(old(self)@, alias@, selection) {
                Ok(Some(a)) => {
                    let changed = AliasView { level: level_of_number(confirm as int), ..a };
                    &&& r is Ok && r->Ok_0 is Some && r->Ok_0->Some_0@ == changed
                    &&& final(self)@ == with_file(old(self)@, place_of(a), file_text(changed))
                },
                Ok(None) => r is Ok && r->Ok_0 is None && final(self)@ == old(self)@,
                Err(e) => r == Err::<Option<Alias>, AliasError>(e) && final(self)@ == old(self)@,
            },
    {
        let change = |al: Alias| -> (r: Alias)
            ensures
                r@ == (AliasView { level: level_of_number(confirm as int), ..al@ }),
            { al.update_confirm(confirm) };
        self.modify_alias(alias, selection, change)
    }

    /// Makes the copy of an alias under another name and root. The
    /// parameters of the source's command are offered to
    /// `fill_in_argument_handler` one by one; each answer is filled in, and
    /// a parameter that gets an empty answer stays a parameter. The copy
    /// has the source's description and confirmation level. It is not
    /// stored yet: `store_alias` does that. `Ok` holds the copy, or `None`
    /// when the user chose nothing. A target root that is not there is
    /// refused before anything is asked.
    pub fn copy_alias<F: Fn(&Alias, &str) -> String>(
        &self,
        alias_source: &str,
        selection: Option<usize>,
        alias_target: &str,
        target_root: StorageRoot,
        fill_in_argument_handler: F,
    ) -> (r: Result<Option<Alias>, AliasError>)
        requires
            forall|a: &Alias, name: &str| call_requires(fill_in_argument_handler, (a, name)),
        ensures
            directory_of(self@, target_root) is None ==> r == Err::<Option<Alias>, AliasError>(
                AliasError::Unconfigured,
            ),
            directory_of(self@, target_root) is Some ==> match meant_record(
                self@,
                alias_source@,
                selection,
            ) {
                Ok(Some(source)) => {
                    &&& r is Ok && r->Ok_0 is Some
                    &&& r->Ok_0->Some_0@.name == alias_target@
                    &&& r->Ok_0->Some_0@.root == target_root
                    &&& r->Ok_0->Some_0@.description == normalized_description(source.description)
                    &&& r->Ok_0->Some_0@.level == source.level
                    &&& exists|al: Alias|
                        al@ == source && #[trigger] is_filling_by(
                            fill_in_argument_handler,
                            &al,
                            source.command,
                            Map::<Seq<char>, Seq<char>>::empty(),
                            false,
                            r->Ok_0->Some_0@.command,
                        )
                },
                Ok(None) => r is Ok && r->Ok_0 is None,
                Err(e) => r == Err::<Option<Alias>, AliasError>(e),
            },
    {
        if self.directory(target_root).is_none() {
            return Err(AliasError::Unconfigured);
        }
        match self.load_alias(alias_source, selection) {
            Ok(Some(al)) => {
                let copied_command = al.fill_in_parameters(
                    al.get_command(),
                    Arguments::new(),
                    fill_in_argument_handler,
                    false,
                );
                let copy = Alias::new(alias_target, copied_command.as_str(), "", 0, target_root);
                let copy = copy.update_description(al.get_description());
                let copy = copy.update_confirm(al.get_confirmation_level());
                assert(is_filling_by(
                    fill_in_argument_handler,
                    &al,
                    al@.command,
                    Map::<Seq<char>, Seq<char>>::empty(),
                    false,
                    copy@.command,
                ));
                Ok(Some(copy))
            },
            Ok(None) => Ok(None),
            Err(e) => Err(e),
        }
    }

    /// Finds the alias that an identifier means and runs it past its
    /// confirmation. An alias that is found gives one line: its command
    /// when the reply lets it run, a blank line otherwise. An identifier
    /// that does not resolve to a readable alias gives a blank line and the
    /// error. When the user chose nothing among several aliases, there is
    /// no line and no error.
    pub fn find_and_exec_alias<F: Fn(&Alias, &str) -> String>(
        &self,
        identifier: &str,
        selection: Option<usize>,
        reply: &Reply,
        working_directory: &str,
        args: Arguments,
        missing_arg_handler: F,
    ) -> (out: Execution)
        requires
            forall|a: &Alias, name: &str| call_requires(missing_arg_handler, (a, name)),
        ensures
            match meant_record(self@, identifier@, selection) {
                Ok(Some(a)) => out.line is Some && match verdict_of(a.level, a.name, *reply) {
                    Verdict::Run => out.error is None && exists|al: Alias|
                        al@ == a && #[trigger] is_filling_by(
                            missing_arg_handler,
                            &al,
                            with_working_directory(a.command, working_directory@),
                            args@,
                            true,
                            out.line->Some_0@,
                        ),
                    Verdict::Decline => out.error is None && out.line->Some_0@ == blank_line(),
                    Verdict::Mismatch => out.error == Some(AliasError::InputMismatch)
                        && out.line->Some_0@ == blank_line(),
                },
                Ok(None) => out.line is None && out.error is None,
                Err(e) => out.line is Some && out.line->Some_0@ == blank_line() && out.error
                    == Some(e),
            },
    {
        match self.load_alias(identifier, selection) {
            Ok(Some(al)) => {
                let emitted = exec_alias(&al, reply, working_directory, args, missing_arg_handler);
                let out = Execution { line: Some(emitted.line), error: emitted.error };
                proof {
                    if verdict_of(al@.level, al@.name, *reply) == Verdict::Run {
                        assert(is_filling_by(
                            missing_arg_handler,
                            &al,
                            with_working_directory(al@.command, working_directory@),
                            args@,
                            true,
                            out.line->Some_0@,
                        ));
                    }
                }
                out
            },
            Ok(None) => Execution { line: None, error: None },
            Err(e) => Execution { line: Some(exec_nothing()), error: Some(e) },
        }
    }
}

/// What an invocation hands out: at most one line, and the error to
/// report.
#[derive(Debug)]
pub struct Execution {
    pub line: Option<String>,
    pub error: Option<AliasError>,
}

/// The record of a new alias: no description, no confirmation.
pub open spec fn new_record(name: Seq<char>, command: Seq<char>, root: StorageRoot) -> AliasView {
    AliasView {
        name,
        command,
        description: Seq::empty(),
        level: ConfirmationLevel::NoPrompt,
        root,
    }
}

} // verus!
