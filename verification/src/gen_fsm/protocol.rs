//! The messages of state machines.
use crate::base::pid::Pid;
use crate::base::reference::Ref;
use vstd::prelude::*;

verus! {

/// A message to the process of a state machine, or back from it.
#[derive(Debug)]
pub enum FsmMessage {
    /// An event, encoded.
    Event(Vec<u8>),
    /// A call.
    Call {
        /// The calling process.
        from: Pid,
        /// The reference of the call.
        reference: Ref,
        /// The request, encoded.
        request: Vec<u8>,
    },
    /// The reply to a call.
    Reply {
        /// The reference of the call.
        reference: Ref,
        /// The reply, encoded.
        reply: Vec<u8>,
    },
    /// The state timeout ran out.
    StateTimeout,
    /// The timeout with the name ran out.
    GenericTimeout(String),
}

/// What a message says.
pub enum FsmMessageModel {
    Event(Seq<u8>),
    Call { from: Pid, reference: Ref, request: Seq<u8> },
    Reply { reference: Ref, reply: Seq<u8> },
    StateTimeout,
    GenericTimeout(Seq<char>),
}

impl DeepView for FsmMessage {
    type V = FsmMessageModel;

    open spec fn deep_view(&self) -> FsmMessageModel {
        match self {
            FsmMessage::Event(data) => FsmMessageModel::Event(data@),
            FsmMessage::Call { from, reference, request } => FsmMessageModel::Call {
                from: *from,
                reference: *reference,
                request: request@,
            },
            FsmMessage::Reply { reference, reply } => FsmMessageModel::Reply {
                reference: *reference,
                reply: reply@,
            },
            FsmMessage::StateTimeout => FsmMessageModel::StateTimeout,
            FsmMessage::GenericTimeout(name) => FsmMessageModel::GenericTimeout(name@),
        }
    }
}

} // verus!
