//! The failure vocabulary of the engine: an error kind, a
//! human-readable message, and the exact message each failure carries.

use vstd::prelude::*;

verus! {

/// The kinds of failure an action or the dispatcher can report.
#[derive(Clone, Copy, PartialEq, Eq, Structural, Debug)]
pub enum ErrorKind {
    /// A required parameter is absent.
    MissingParameter,
    /// A source path for a removal is neither a file nor a directory.
    PathNotFound,
    /// A filesystem operation could not be carried out.
    IoFailure,
    /// The action selector names no known action.
    UnknownAction,
}

/// A structured failure: its kind and its message.
#[derive(Debug, PartialEq, Eq)]
pub struct ActionError {
    pub kind: ErrorKind,
    pub message: String,
}

/// The message reported when a removal meets a path that is neither a
/// file nor a directory.
pub open spec fn missing_path_message_spec(p: Seq<char>) -> Seq<char> {
    "No such a file or directory: \""@ + p + "\""@
}

/// The message reported when a source path cannot be copied.
pub open spec fn copy_failure_message_spec(p: Seq<char>) -> Seq<char> {
    "Could not copy path \""@ + p + "\""@
}

/// The message reported when the output directory cannot be created.
pub open spec fn mkdir_failure_message_spec(d: Seq<char>) -> Seq<char> {
    "Could not create directory \""@ + d + "\""@
}

/// The message reported for an unrecognized action selector.
pub open spec fn unknown_action_message_spec(selector: Seq<char>) -> Seq<char> {
    "Unknown action named "@ + selector
}

/// The message reported when a copy request carries no output
/// directory.
pub open spec fn missing_output_directory_message_spec() -> Seq<char> {
    "Could not copy files without output directory."@
}

impl ActionError {
    /// The failure for a removal path that is neither file nor
    /// directory.
    pub fn path_not_found(p: &str) -> (r: ActionError)
        ensures
            r.kind == ErrorKind::PathNotFound,
            r.message@ == missing_path_message_spec(p@),
    {
        let mut message = String::from_str("No such a file or directory: \"");
        message.append(p);
        message.append("\"");
        ActionError { kind: ErrorKind::PathNotFound, message }
    }

    /// The failure for a source path that cannot be copied.
    pub fn copy_failure(p: &str) -> (r: ActionError)
        ensures
            r.kind == ErrorKind::IoFailure,
            r.message@ == copy_failure_message_spec(p@),
    {
        let mut message = String::from_str("Could not copy path \"");
        message.append(p);
        message.append("\"");
        ActionError { kind: ErrorKind::IoFailure, message }
    }

    /// The failure for an output directory that cannot be created.
    pub fn directory_creation_failure(d: &str) -> (r: ActionError)
        ensures
            r.kind == ErrorKind::IoFailure,
            r.message@ == mkdir_failure_message_spec(d@),
    {
        let mut message = String::from_str("Could not create directory \"");
        message.append(d);
        message.append("\"");
        ActionError { kind: ErrorKind::IoFailure, message }
    }

    /// The failure for a copy request without an output directory.
    pub fn missing_output_directory() -> (r: ActionError)
        ensures
            r.kind == ErrorKind::MissingParameter,
            r.message@ == missing_output_directory_message_spec(),
    {
        ActionError {
            kind: ErrorKind::MissingParameter,
            message: String::from_str("Could not copy files without output directory."),
        }
    }

    /// The failure for an unrecognized action selector.
    pub fn unknown_action(selector: &str) -> (r: ActionError)
        ensures
            r.kind == ErrorKind::UnknownAction,
            r.message@ == unknown_action_message_spec(selector@),
    {
        let mut message = String::from_str("Unknown action named ");
        message.append(selector);
        ActionError { kind: ErrorKind::UnknownAction, message }
    }
}

} // verus!
