//! What can go wrong with a state machine.
use crate::base::exit_reason::ExitReason;
use crate::base::node::LocalNode;
use crate::base::pid::Pid;
use crate::text::join2;
use vstd::prelude::*;

verus! {

/// Why a state machine did not start.
#[derive(Debug)]
pub enum StartError {
    /// `init` failed, for the reason.
    Stop(ExitReason),
    /// `init` chose not to start.
    Ignore,
    /// The process was not spawned.
    SpawnFailed,
}

impl StartError {
    /// The error as text.
    pub fn display(&self) -> (r: String)
        ensures
            r@ == (match self {
                StartError::Stop(reason) => "init stopped: "@ + reason.deep_view().text(),
                StartError::Ignore => "init ignored"@,
                StartError::SpawnFailed => "spawn failed"@,
            }),
    {
        match self {
            StartError::Stop(reason) => join2("init stopped: ", reason.display().as_str()),
            StartError::Ignore => "init ignored".to_owned(),
            StartError::SpawnFailed => "spawn failed".to_owned(),
        }
    }
}

/// Why a call failed.
#[derive(Debug)]
pub enum CallError {
    /// The process is not there.
    ProcessNotFound(Pid),
    /// No reply came in time.
    Timeout,
    /// The machine stopped during the call.
    Stopped(ExitReason),
    /// The reply could not be read.
    DecodeError(String),
    /// The machine was not in the expected state.
    InvalidState,
}

impl CallError {
    /// Whether the process that the error names, if any, is on a known node.
    pub open spec fn known(&self, node: &LocalNode) -> bool {
        match self {
            CallError::ProcessNotFound(pid) => node.atoms.knows(pid.spec_node()),
            _ => true,
        }
    }

    /// The error as text.
    pub fn display(&self, node: &LocalNode) -> (r: String)
        requires
            self.known(node),
        ensures
            r@ == (match self {
                CallError::ProcessNotFound(pid) => "process not found: "@ + ("Pid"@ + pid.text(
                    node,
                )),
                CallError::Timeout => "timeout"@,
                CallError::Stopped(reason) => "fsm stopped: "@ + reason.deep_view().text(),
                CallError::DecodeError(message) => "decode error: "@ + message@,
                CallError::InvalidState => "invalid state"@,
            }),
    {
        match self {
            CallError::ProcessNotFound(pid) => join2(
                "process not found: ",
                pid.debug(node).as_str(),
            ),
            CallError::Timeout => "timeout".to_owned(),
            CallError::Stopped(reason) => join2("fsm stopped: ", reason.display().as_str()),
            CallError::DecodeError(message) => join2("decode error: ", message.as_str()),
            CallError::InvalidState => "invalid state".to_owned(),
        }
    }
}

/// Why an event was not sent.
#[derive(Debug)]
pub enum SendEventError {
    /// The process is not there.
    ProcessNotFound(Pid),
    /// The event could not be encoded.
    EncodeError,
}

impl SendEventError {
    /// Whether the process that the error names, if any, is on a known node.
    pub open spec fn known(&self, node: &LocalNode) -> bool {
        match self {
            SendEventError::ProcessNotFound(pid) => node.atoms.knows(pid.spec_node()),
            SendEventError::EncodeError => true,
        }
    }

    /// The error as text.
    pub fn display(&self, node: &LocalNode) -> (r: String)
        requires
            self.known(node),
        ensures
            r@ == (match self {
                SendEventError::ProcessNotFound(pid) => "process not found: "@ + ("Pid"@
                    + pid.text(node)),
                SendEventError::EncodeError => "encode error"@,
            }),
    {
        match self {
            SendEventError::ProcessNotFound(pid) => join2(
                "process not found: ",
                pid.debug(node).as_str(),
            ),
            SendEventError::EncodeError => "encode error".to_owned(),
        }
    }
}

} // verus!
