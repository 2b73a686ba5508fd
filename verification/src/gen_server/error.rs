//! What can go wrong with a server.
use crate::base::exit_reason::ExitReason;
use crate::base::node::LocalNode;
use crate::base::pid::Pid;
use crate::text::{join2, join3};
use vstd::prelude::*;

verus! {

/// Why a server did not start.
#[derive(Debug)]
pub enum StartError {
    /// Its initialization chose not to start.
    Ignore,
    /// Its initialization failed, for the reason.
    Stop(ExitReason),
    /// Its initialization took too long.
    Timeout,
    /// Its process was not spawned.
    SpawnFailed(String),
}

impl StartError {
    /// The error as text.
    pub fn display(&self) -> (r: String)
        ensures
            r@ == (match self {
                StartError::Ignore => "init returned :ignore"@,
                StartError::Stop(reason) => "init stopped: "@ + reason.deep_view().text(),
                StartError::Timeout => "init timed out"@,
                StartError::SpawnFailed(msg) => "spawn failed: "@ + msg@,
            }),
    {
        match self {
            StartError::Ignore => "init returned :ignore".to_owned(),
            StartError::Stop(reason) => join2("init stopped: ", reason.display().as_str()),
            StartError::Timeout => "init timed out".to_owned(),
            StartError::SpawnFailed(msg) => join2("spawn failed: ", msg.as_str()),
        }
    }
}

/// Why a call failed.
#[derive(Debug)]
pub enum CallError {
    /// The server's process is not alive.
    NotAlive(Pid),
    /// No reply came in time.
    Timeout,
    /// The server ended during the call.
    Exit(ExitReason),
    /// No server has the name.
    NotFound(String),
}

impl CallError {
    /// Whether the process that the error names, if any, is on a known node.
    pub open spec fn known(&self, node: &LocalNode) -> bool {
        match self {
            CallError::NotAlive(pid) => node.atoms.knows(pid.spec_node()),
            _ => true,
        }
    }

    /// The error as text.
    pub fn display(&self, node: &LocalNode) -> (r: String)
        requires
            self.known(node),
        ensures
            r@ == (match self {
                CallError::NotAlive(pid) => "process "@ + pid.text(node) + " is not alive"@,
                CallError::Timeout => "call timed out"@,
                CallError::Exit(reason) => "server exited: "@ + reason.deep_view().text(),
                CallError::NotFound(name) => "server not found: "@ + name@,
            }),
    {
        match self {
            CallError::NotAlive(pid) => join3(
                "process ",
                pid.display(node).as_str(),
                " is not alive",
            ),
            CallError::Timeout => "call timed out".to_owned(),
            CallError::Exit(reason) => join2("server exited: ", reason.display().as_str()),
            CallError::NotFound(name) => join2("server not found: ", name.as_str()),
        }
    }
}

/// Why a server was not stopped.
#[derive(Debug)]
pub enum StopError {
    /// The server's process is not alive.
    NotAlive(Pid),
    /// It did not stop in time.
    Timeout,
    /// No server has the name.
    NotFound(String),
}

impl StopError {
    /// Whether the process that the error names, if any, is on a known node.
    pub open spec fn known(&self, node: &LocalNode) -> bool {
        match self {
            StopError::NotAlive(pid) => node.atoms.knows(pid.spec_node()),
            _ => true,
        }
    }

    /// The error as text.
    pub fn display(&self, node: &LocalNode) -> (r: String)
        requires
            self.known(node),
        ensures
            r@ == (match self {
                StopError::NotAlive(pid) => "process "@ + pid.text(node) + " is not alive"@,
                StopError::Timeout => "stop timed out"@,
                StopError::NotFound(name) => "server not found: "@ + name@,
            }),
    {
        match self {
            StopError::NotAlive(pid) => join3(
                "process ",
                pid.display(node).as_str(),
                " is not alive",
            ),
            StopError::Timeout => "stop timed out".to_owned(),
            StopError::NotFound(name) => join2("server not found: ", name.as_str()),
        }
    }
}

} // verus!
