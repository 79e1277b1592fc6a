//! The job-result vocabulary the dispatcher reports through: a job
//! result with a status, a message and destination paths, and the
//! error that marks a job failed.

use vstd::prelude::*;

use crate::errors::ActionError;

verus! {

/// The status a job result carries.
#[derive(Clone, Copy, PartialEq, Eq, Structural, Debug)]
pub enum JobStatus {
    Unknown,
    Completed,
    Error,
}

/// A job result, at the specification level.
#[verifier::ext_equal]
pub struct JobResultModel {
    pub job_id: u64,
    pub status: JobStatus,
    pub message: Seq<char>,
    pub destination_paths: Seq<Seq<char>>,
}

/// The result reported back for one job: its identifier, a status, a
/// message, and the destination paths the job produced.
#[derive(Debug, PartialEq, Eq)]
pub struct JobResult {
    job_id: u64,
    status: JobStatus,
    message: String,
    destination_paths: Vec<String>,
}

impl View for JobResult {
    type V = JobResultModel;

    closed spec fn view(&self) -> JobResultModel {
        JobResultModel {
            job_id: self.job_id,
            status: self.status,
            message: self.message@,
            destination_paths: self.destination_paths.deep_view(),
        }
    }
}

impl JobResult {
    /// A fresh result for the job with the given identifier.
    pub fn new(job_id: u64) -> (r: JobResult)
        ensures
            r@ == (JobResultModel {
                job_id,
                status: JobStatus::Unknown,
                message: Seq::<char>::empty(),
                destination_paths: Seq::<Seq<char>>::empty(),
            }),
    {
        let r = JobResult {
            job_id,
            status: JobStatus::Unknown,
            message: String::new(),
            destination_paths: Vec::new(),
        };
        proof {
            assert(r@.destination_paths =~= Seq::<Seq<char>>::empty());
        }
        r
    }

    /// The same result with the given status.
    pub fn with_status(self, status: JobStatus) -> (r: JobResult)
        ensures
            r@ == (JobResultModel { status, ..self@ }),
    {
        JobResult { status, ..self }
    }

    /// The same result with the given message.
    pub fn with_message(self, message: &str) -> (r: JobResult)
        ensures
            r@ == (JobResultModel { message: message@, ..self@ }),
    {
        JobResult { message: String::from_str(message), ..self }
    }

    /// The same result with the given destination paths.
    pub fn with_destination_paths(self, destination_paths: Vec<String>) -> (r: JobResult)
        ensures
            r@ == (JobResultModel { destination_paths: destination_paths.deep_view(), ..self@ }),
    {
        JobResult { destination_paths, ..self }
    }

    /// The destination paths this result carries.
    pub fn get_destination_paths(&self) -> (r: &Vec<String>)
        ensures
            r.deep_view() == self@.destination_paths,
    {
        &self.destination_paths
    }

    /// The message this result carries.
    pub fn get_message(&self) -> (r: &String)
        ensures
            r@ == self@.message,
    {
        &self.message
    }

    /// The status this result carries.
    pub fn get_status(&self) -> (r: JobStatus)
        ensures
            r == self@.status,
    {
        self.status
    }
}

/// The error the dispatcher reports when a job fails.
#[derive(Debug, PartialEq, Eq)]
pub enum MessageError {
    ProcessingError(JobResult),
}

impl MessageError {
    /// Wraps an action failure into a failed job result, prefixing
    /// the failure's message.
    pub fn from(error: ActionError, job_result: JobResult) -> (r: MessageError)
        ensures
            match r {
                MessageError::ProcessingError(j) => j@ == (JobResultModel {
                    status: JobStatus::Error,
                    message: "IO Error: "@ + error.message@,
                    ..job_result@
                }),
            },
    {
        let mut message = String::from_str("IO Error: ");
        message.append(error.message.as_str());
        MessageError::ProcessingError(
            job_result.with_status(JobStatus::Error).with_message(message.as_str()),
        )
    }
}

} // verus!
