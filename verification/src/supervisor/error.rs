//! What can go wrong with a supervisor.
use crate::text::{join2, join3};
use vstd::prelude::*;
use vstd::string::*;

verus! {

/// Why a supervisor did not start.
#[derive(Debug)]
pub enum StartError {
    /// Its initialization failed.
    InitFailed(String),
    /// Its process was not spawned.
    SpawnFailed(String),
    /// A child did not start: the child, and why.
    ChildFailed(String, String),
}

impl StartError {
    /// The error as text.
    pub fn display(&self) -> (r: String)
        ensures
            r@ == (match self {
                StartError::InitFailed(msg) => "supervisor init failed: "@ + msg@,
                StartError::SpawnFailed(msg) => "supervisor spawn failed: "@ + msg@,
                StartError::ChildFailed(id, msg) => "child '"@ + id@ + "' failed to start: "@ + msg@,
            }),
    {
        match self {
            StartError::InitFailed(msg) => join2("supervisor init failed: ", msg.as_str()),
            StartError::SpawnFailed(msg) => join2("supervisor spawn failed: ", msg.as_str()),
            StartError::ChildFailed(id, msg) => join3(
                "child '",
                id.as_str(),
                "' failed to start: ",
            ).concat(msg.as_str()),
        }
    }
}

/// Why a child was not terminated.
#[derive(Debug)]
pub enum TerminateError {
    /// There is no such child.
    NotFound(String),
    /// It did not terminate in time.
    Timeout,
}

impl TerminateError {
    /// The error as text.
    pub fn display(&self) -> (r: String)
        ensures
            r@ == (match self {
                TerminateError::NotFound(id) => "child '"@ + id@ + "' not found"@,
                TerminateError::Timeout => "termination timed out"@,
            }),
    {
        match self {
            TerminateError::NotFound(id) => join3("child '", id.as_str(), "' not found"),
            TerminateError::Timeout => "termination timed out".to_owned(),
        }
    }
}

/// Why a child was not restarted.
#[derive(Debug)]
pub enum RestartError {
    /// There is no such child.
    NotFound(String),
    /// It runs already.
    AlreadyRunning(String),
    /// It did not start.
    StartFailed(String),
}

impl RestartError {
    /// The error as text.
    pub fn display(&self) -> (r: String)
        ensures
            r@ == (match self {
                RestartError::NotFound(id) => "child '"@ + id@ + "' not found"@,
                RestartError::AlreadyRunning(id) => "child '"@ + id@ + "' is already running"@,
                RestartError::StartFailed(msg) => "child failed to start: "@ + msg@,
            }),
    {
        match self {
            RestartError::NotFound(id) => join3("child '", id.as_str(), "' not found"),
            RestartError::AlreadyRunning(id) => join3(
                "child '",
                id.as_str(),
                "' is already running",
            ),
            RestartError::StartFailed(msg) => join2("child failed to start: ", msg.as_str()),
        }
    }
}

/// Why a child's specification was not deleted.
#[derive(Debug)]
pub enum DeleteError {
    /// There is no such child.
    NotFound(String),
    /// It still runs.
    Running(String),
}

impl DeleteError {
    /// The error as text.
    pub fn display(&self) -> (r: String)
        ensures
            r@ == (match self {
                DeleteError::NotFound(id) => "child '"@ + id@ + "' not found"@,
                DeleteError::Running(id) => "child '"@ + id@ + "' is still running"@,
            }),
    {
        match self {
            DeleteError::NotFound(id) => join3("child '", id.as_str(), "' not found"),
            DeleteError::Running(id) => join3("child '", id.as_str(), "' is still running"),
        }
    }
}

} // verus!
