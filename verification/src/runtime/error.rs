//! What can go wrong at run time.
use crate::base::node::LocalNode;
use crate::base::pid::Pid;
use crate::text::join2;
use vstd::prelude::*;

verus! {

/// Why a message was not sent.
#[derive(Debug, PartialEq, Eq)]
pub enum SendError {
    /// The process is not there.
    ProcessNotFound(Pid),
    /// The mailbox has no room.
    MailboxFull,
    /// The process has ended.
    ProcessTerminated,
}

impl SendError {
    /// Whether the process that the error names, if any, is on a known node.
    pub open spec fn known(&self, node: &LocalNode) -> bool {
        match self {
            SendError::ProcessNotFound(pid) => node.atoms.knows(pid.spec_node()),
            _ => true,
        }
    }

    /// The error as text.
    pub open spec fn text(&self, node: &LocalNode) -> Seq<char> {
        match self {
            SendError::ProcessNotFound(pid) => "process not found: "@ + pid.text(node),
            SendError::MailboxFull => "mailbox full"@,
            SendError::ProcessTerminated => "process terminated"@,
        }
    }

    /// The error as text.
    pub fn display(&self, node: &LocalNode) -> (r: String)
        requires
            self.known(node),
        ensures
            r@ == self.text(node),
    {
        match self {
            SendError::ProcessNotFound(pid) => join2(
                "process not found: ",
                pid.display(node).as_str(),
            ),
            SendError::MailboxFull => "mailbox full".to_owned(),
            SendError::ProcessTerminated => "process terminated".to_owned(),
        }
    }
}

/// Why a process was not spawned.
#[derive(Debug, PartialEq, Eq)]
pub enum SpawnError {
    /// Its task was not created.
    TaskCreationFailed(String),
    /// It failed to initialize.
    InitFailed(String),
}

impl SpawnError {
    /// The error as text.
    pub open spec fn text(&self) -> Seq<char> {
        match self {
            SpawnError::TaskCreationFailed(msg) => "failed to create process task: "@ + msg@,
            SpawnError::InitFailed(msg) => "process initialization failed: "@ + msg@,
        }
    }

    /// The error as text.
    pub fn display(&self) -> (r: String)
        ensures
            r@ == self.text(),
    {
        match self {
            SpawnError::TaskCreationFailed(msg) => join2(
                "failed to create process task: ",
                msg.as_str(),
            ),
            SpawnError::InitFailed(msg) => join2("process initialization failed: ", msg.as_str()),
        }
    }
}

/// What can go wrong at run time.
#[derive(Debug, PartialEq, Eq)]
pub enum RuntimeError {
    /// The process is not there.
    ProcessNotFound(Pid),
    /// A message was not sent.
    SendFailed(SendError),
    /// A process was not spawned.
    SpawnFailed(SpawnError),
}

impl RuntimeError {
    /// Whether the process that the error names, if any, is on a known node.
    pub open spec fn known(&self, node: &LocalNode) -> bool {
        match self {
            RuntimeError::ProcessNotFound(pid) => node.atoms.knows(pid.spec_node()),
            RuntimeError::SendFailed(e) => e.known(node),
            RuntimeError::SpawnFailed(e) => true,
        }
    }

    /// The error as text.
    pub fn display(&self, node: &LocalNode) -> (r: String)
        requires
            self.known(node),
        ensures
            r@ == (match self {
                RuntimeError::ProcessNotFound(pid) => "process not found: "@ + pid.text(node),
                RuntimeError::SendFailed(e) => "send failed: "@ + e.text(node),
                RuntimeError::SpawnFailed(e) => "spawn failed: "@ + e.text(),
            }),
    {
        match self {
            RuntimeError::ProcessNotFound(pid) => join2(
                "process not found: ",
                pid.display(node).as_str(),
            ),
            RuntimeError::SendFailed(e) => join2("send failed: ", e.display(node).as_str()),
            RuntimeError::SpawnFailed(e) => join2("spawn failed: ", e.display().as_str()),
        }
    }
}

impl From<SendError> for RuntimeError {
    fn from(e: SendError) -> (r: Self) {
        RuntimeError::SendFailed(e)
    }
}

impl vstd::std_specs::convert::FromSpecImpl<SendError> for RuntimeError {
    open spec fn obeys_from_spec() -> bool {
        true
    }

    open spec fn from_spec(e: SendError) -> Self {
        RuntimeError::SendFailed(e)
    }
}

impl From<SpawnError> for RuntimeError {
    fn from(e: SpawnError) -> (r: Self) {
        RuntimeError::SpawnFailed(e)
    }
}

impl vstd::std_specs::convert::FromSpecImpl<SpawnError> for RuntimeError {
    open spec fn obeys_from_spec() -> bool {
        true
    }

    open spec fn from_spec(e: SpawnError) -> Self {
        RuntimeError::SpawnFailed(e)
    }
}

} // verus!
