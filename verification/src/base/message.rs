//! Messages that the runtime itself sends.
use crate::base::exit_reason::{ExitModel, ExitReason};
use crate::base::pid::Pid;
use crate::base::reference::Ref;
use vstd::prelude::*;

verus! {

/// A message from the runtime.
#[derive(Debug, PartialEq, Eq)]
pub enum SystemMessage {
    /// A linked process ended, or a process sent an exit signal.
    Exit {
        /// The process that the signal comes from.
        from: Pid,
        /// Why.
        reason: ExitReason,
    },
    /// A monitored process ended.
    Down {
        /// The monitor.
        monitor_ref: Ref,
        /// The process.
        pid: Pid,
        /// Why it ended.
        reason: ExitReason,
    },
}

/// What a message says.
pub enum SystemModel {
    Exit { from: Pid, reason: ExitModel },
    Down { monitor_ref: Ref, pid: Pid, reason: ExitModel },
}

impl DeepView for SystemMessage {
    type V = SystemModel;

    open spec fn deep_view(&self) -> SystemModel {
        match self {
            SystemMessage::Exit { from, reason } => SystemModel::Exit {
                from: *from,
                reason: reason.deep_view(),
            },
            SystemMessage::Down { monitor_ref, pid, reason } => SystemModel::Down {
                monitor_ref: *monitor_ref,
                pid: *pid,
                reason: reason.deep_view(),
            },
        }
    }
}

} // verus!
