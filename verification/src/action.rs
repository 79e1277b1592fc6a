//! The action contract: a closed set of action kinds, the selector
//! parser, and the single `execute` contract the three variants share.

use vstd::prelude::*;

use crate::errors::{unknown_action_message_spec, ActionError, ErrorKind};
use crate::fs_model::{EntryModel, FileSystem};
use crate::paths::str_eq;

verus! {

/// The closed set of actions a request can select.
#[derive(Clone, Copy, PartialEq, Eq, Structural, Debug)]
pub enum FileSystemAction {
    Copy,
    List,
    Remove,
}

/// A failure at the specification level: its kind and message.
#[verifier::ext_equal]
pub struct ErrInfo {
    pub kind: ErrorKind,
    pub message: Seq<char>,
}

/// What an execution reports, at the specification level: a list of
/// result paths, success without paths, or a failure.
#[verifier::ext_equal]
pub enum OutcomeModel {
    Paths(Seq<Seq<char>>),
    NoOutput,
    Failure(ErrInfo),
}

/// The outcome that an execution result denotes.
pub open spec fn outcome_of(r: Result<Option<Vec<String>>, ActionError>) -> OutcomeModel {
    match r {
        Ok(Some(paths)) => OutcomeModel::Paths(paths.deep_view()),
        Ok(None) => OutcomeModel::NoOutput,
        Err(e) => OutcomeModel::Failure(ErrInfo { kind: e.kind, message: e.message@ }),
    }
}

/// One unit of work over the modelled filesystem.
///
/// Each variant fixes, as a function of the filesystem it starts
/// from, both the filesystem it leaves behind and the outcome it
/// reports; `execute` is obliged to realize exactly those.
pub trait Action {
    /// The filesystem after the action has run on `m`.
    spec fn fs_after(&self, m: Seq<EntryModel>) -> Seq<EntryModel>;

    /// The outcome the action reports when run on `m`.
    spec fn outcome(&self, m: Seq<EntryModel>) -> OutcomeModel;

    /// Runs the action on the filesystem.
    fn execute(&self, file_system: &mut FileSystem) -> (r: Result<Option<Vec<String>>, ActionError>)
        requires
            old(file_system).wf(),
        ensures
            final(file_system).wf(),
            final(file_system)@ == self.fs_after(old(file_system)@),
            outcome_of(r) == self.outcome(old(file_system)@),
    ;
}

/// Resolves an action selector, failing on any unknown name.
pub fn parse_action(selector: &str) -> (r: Result<FileSystemAction, ActionError>)
    ensures
        selector@ == "copy"@ ==> r == Ok::<FileSystemAction, ActionError>(FileSystemAction::Copy),
        selector@ == "list"@ ==> r == Ok::<FileSystemAction, ActionError>(FileSystemAction::List),
        selector@ == "remove"@ ==> r == Ok::<FileSystemAction, ActionError>(
            FileSystemAction::Remove,
        ),
        selector@ != "copy"@ && selector@ != "list"@ && selector@ != "remove"@ ==> r is Err
            && r->Err_0.kind == ErrorKind::UnknownAction && r->Err_0.message@
            == unknown_action_message_spec(selector@),
{
    proof {
        reveal_strlit("copy");
        reveal_strlit("list");
        reveal_strlit("remove");
        assert("copy"@ != "list"@) by {
            assert("copy"@[0] != "list"@[0]);
        }
        assert("copy"@.len() != "remove"@.len());
        assert("list"@.len() != "remove"@.len());
    }
    if str_eq(selector, "copy") {
        Ok(FileSystemAction::Copy)
    } else if str_eq(selector, "list") {
        Ok(FileSystemAction::List)
    } else if str_eq(selector, "remove") {
        Ok(FileSystemAction::Remove)
    } else {
        Err(ActionError::unknown_action(selector))
    }
}

} // verus!
