//! The dispatcher: resolves a request into the matching action, runs
//! it, and translates the outcome into the job-result vocabulary.

use vstd::prelude::*;

use crate::action::{Action, ErrInfo, FileSystemAction, OutcomeModel};
use crate::copy::{copy_run, CopyAction};
use crate::errors::{missing_output_directory_message_spec, ActionError, ErrorKind};
use crate::fs_model::{EntryModel, FileSystem};
use crate::job::{JobResult, JobResultModel, JobStatus, MessageError};
use crate::list::{list_run, ListAction};
use crate::remove::{remove_run, RemoveAction};

verus! {

/// One resolved request: the action to run, the source paths it works
/// on, and the output directory a copy needs.
pub struct FileSystemParameters {
    pub source_paths: Vec<String>,
    pub action: FileSystemAction,
    pub output_directory: Option<String>,
}

/// The filesystem a dispatched request leaves behind.
pub open spec fn dispatch_fs(
    action: FileSystemAction,
    paths: Seq<Seq<char>>,
    od: Option<Seq<char>>,
    m: Seq<EntryModel>,
) -> Seq<EntryModel> {
    match action {
        FileSystemAction::Copy => match od {
            Some(d) => copy_run(m, paths, d).fs,
            None => m,
        },
        FileSystemAction::List => m,
        FileSystemAction::Remove => remove_run(m, paths).fs,
    }
}

/// The outcome a dispatched request reports: a copy without an output
/// directory is refused before anything runs; otherwise the selected
/// action decides.
pub open spec fn dispatch_outcome(
    action: FileSystemAction,
    paths: Seq<Seq<char>>,
    od: Option<Seq<char>>,
    m: Seq<EntryModel>,
) -> OutcomeModel {
    match action {
        FileSystemAction::Copy => match od {
            Some(d) => {
                let run = copy_run(m, paths, d);
                match run.failure {
                    None => OutcomeModel::Paths(run.outputs),
                    Some(e) => OutcomeModel::Failure(e),
                }
            },
            None => OutcomeModel::Failure(
                ErrInfo {
                    kind: ErrorKind::MissingParameter,
                    message: missing_output_directory_message_spec(),
                },
            ),
        },
        FileSystemAction::List => OutcomeModel::Paths(list_run(m, paths)),
        FileSystemAction::Remove => match remove_run(m, paths).failure {
            None => OutcomeModel::NoOutput,
            Some(e) => OutcomeModel::Failure(e),
        },
    }
}

/// Dispatches one request: constructs the matching action, runs it on
/// the filesystem, and reports the job completed with its destination
/// paths, or failed with the failure's message behind an `IO Error:`
/// prefix.
pub fn process(
    parameters: FileSystemParameters,
    job_result: JobResult,
    file_system: &mut FileSystem,
) -> (r: Result<JobResult, MessageError>)
    requires
        old(file_system).wf(),
    ensures
        final(file_system).wf(),
        final(file_system)@ == dispatch_fs(
            parameters.action,
            parameters.source_paths.deep_view(),
            parameters.output_directory.deep_view(),
            old(file_system)@,
        ),
        match dispatch_outcome(
            parameters.action,
            parameters.source_paths.deep_view(),
            parameters.output_directory.deep_view(),
            old(file_system)@,
        ) {
            OutcomeModel::Paths(paths) => r is Ok && r->Ok_0@ == (JobResultModel {
                status: JobStatus::Completed,
                destination_paths: paths,
                ..job_result@
            }),
            OutcomeModel::NoOutput => r is Ok && r->Ok_0@ == (JobResultModel {
                status: JobStatus::Completed,
                ..job_result@
            }),
            OutcomeModel::Failure(e) => r is Err && match r->Err_0 {
                MessageError::ProcessingError(j) => j@ == (JobResultModel {
                    status: JobStatus::Error,
                    message: "IO Error: "@ + e.message,
                    ..job_result@
                }),
            },
        },
{
    let FileSystemParameters { source_paths, action, output_directory } = parameters;
    let result: Result<Option<Vec<String>>, ActionError> = match action {
        FileSystemAction::Copy => {
            match output_directory {
                Some(output_directory) => CopyAction::new(source_paths, output_directory).execute(
                    file_system,
                ),
                None => Err(ActionError::missing_output_directory()),
            }
        },
        FileSystemAction::List => ListAction::new(source_paths).execute(file_system),
        FileSystemAction::Remove => RemoveAction::new(source_paths).execute(file_system),
    };
    match result {
        Ok(Some(paths)) => Ok(
            job_result.with_status(JobStatus::Completed).with_destination_paths(paths),
        ),
        Ok(None) => Ok(job_result.with_status(JobStatus::Completed)),
        Err(error) => Err(MessageError::from(error, job_result)),
    }
}

/// A copy request without an output directory is refused by the
/// dispatcher, with its fixed message, before any filesystem work.
pub proof fn lemma_copy_without_output_directory(
    paths: Seq<Seq<char>>,
    m: Seq<EntryModel>,
)
    ensures
        dispatch_fs(FileSystemAction::Copy, paths, None, m) == m,
        dispatch_outcome(FileSystemAction::Copy, paths, None, m) == OutcomeModel::Failure(
            ErrInfo {
                kind: ErrorKind::MissingParameter,
                message: missing_output_directory_message_spec(),
            },
        ),
{
}

} // verus!
