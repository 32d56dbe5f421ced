//! The data the synchronization engine works on: tasks, submissions, the
//! stored configuration, and the error taxonomy.

use vstd::prelude::*;

verus! {

/// The kinds of failure the engine distinguishes.
///
/// `NotConfigured` is a fatal precondition failure; `Auth`, `Network` and
/// `Decode` abort the step that hit them; `Io` failures are collected per
/// task; `Rejected` is a server verdict on a submission; `InvalidPath`
/// marks a task whose fields cannot name a file.
#[derive(Clone, Copy, Debug, PartialEq, Eq, Structural)]
pub enum CoreError {
    NotConfigured,
    Auth,
    Network,
    Io,
    Decode,
    Rejected,
    InvalidPath,
}

/// The one-line description of each failure kind.
pub open spec fn message_spec(e: CoreError) -> Seq<char> {
    match e {
        CoreError::NotConfigured => "run the configuration step first"@,
        CoreError::Auth => "authentication failed or expired"@,
        CoreError::Network => "network request failed"@,
        CoreError::Io => "a file could not be written"@,
        CoreError::Decode => "malformed server response"@,
        CoreError::Rejected => "the server rejected the submission"@,
        CoreError::InvalidPath => "task fields cannot name a file"@,
    }
}

impl CoreError {
    /// A one-line description, for reports.
    pub fn message(&self) -> (r: &'static str)
        ensures
            r@ == message_spec(*self),
    {
        match self {
            CoreError::NotConfigured => "run the configuration step first",
            CoreError::Auth => "authentication failed or expired",
            CoreError::Network => "network request failed",
            CoreError::Io => "a file could not be written",
            CoreError::Decode => "malformed server response",
            CoreError::Rejected => "the server rejected the submission",
            CoreError::InvalidPath => "task fields cannot name a file",
        }
    }
}

/// The human-facing description of a task.
#[derive(Clone, Debug)]
pub struct TaskDescription {
    /// Short label; its slug names the task directory.
    pub shortname: String,
    /// Markdown body, written to the task's `README.md`.
    pub task: String,
    /// Starter code; may be empty, in which case a placeholder is used.
    pub default_editor_input: String,
}

/// One exercise of the course, as the remote listing describes it.
#[derive(Clone, Debug)]
pub struct Task {
    /// Unique identity of the task.
    pub taskid: u64,
    /// Position of the task in the course ordering; not necessarily
    /// contiguous.
    pub order_by: u64,
    /// File-extension tag of the task's language.
    pub lang: String,
    pub task_description: TaskDescription,
}

/// A submission timestamp as the server sent it: sometimes a number,
/// sometimes a decimal string.
#[derive(Clone, Debug)]
pub enum RawTimestamp {
    Numeric(u64),
    Textual(String),
}

/// One entry of a task's submission history.
#[derive(Clone, Debug)]
pub struct RawSubmission {
    pub timestamp: RawTimestamp,
    /// Tag the server gave the outcome, part of the archived file name.
    pub result_type: String,
    /// The submitted source text.
    pub content: String,
    /// The full original record, kept verbatim for the metadata sidecar.
    pub metadata: String,
}

/// Compiler output inside a submission verdict.
#[derive(Clone, Debug)]
pub struct Compiler {
    pub stdout: String,
    pub exit_code: i32,
}

/// The simplified part of a submission verdict.
#[derive(Clone, Debug)]
pub struct Simplified {
    pub compiler: Compiler,
}

/// The stored configuration, as far as the engine reads it.
#[derive(Clone, Debug)]
pub struct Config {
    pub host: String,
    pub course: String,
    pub user: String,
    pub token: Option<String>,
}

/// Whether every value the engine needs before starting is present.
pub open spec fn configured(cfg: Config) -> bool {
    cfg.host@.len() > 0 && cfg.course@.len() > 0 && cfg.user@.len() > 0
}

/// Checks the stored configuration before any step runs: host, course and
/// user must all be set.
pub fn ensure_configured(cfg: &Config) -> (r: Result<(), CoreError>)
    ensures
        r is Ok <==> configured(*cfg),
        r is Err ==> r->Err_0 == CoreError::NotConfigured,
{
    if cfg.host.as_str().is_empty() || cfg.course.as_str().is_empty()
        || cfg.user.as_str().is_empty() {
        Err(CoreError::NotConfigured)
    } else {
        Ok(())
    }
}

} // verus!
