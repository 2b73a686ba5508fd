//! What the callbacks of a state machine return.
use crate::base::exit_reason::ExitReason;
use crate::base::pid::Pid;
use crate::base::reference::Ref;
use crate::time::Duration;
use vstd::prelude::*;

verus! {

/// A call that waits for a reply.
#[derive(Clone, Copy, Debug, PartialEq, Eq, Structural, Hash)]
pub struct From {
    /// The calling process.
    pub caller: Pid,
    /// The reference of the call.
    pub reference: Ref,
}

impl From {
    /// The call from its parts.
    pub fn new(caller: Pid, reference: Ref) -> (r: Self)
        ensures
            r == (From { caller, reference }),
    {
        From { caller, reference }
    }
}

/// What is to be done along with a transition, or in place of one.
#[derive(Debug)]
pub enum StateAction<R> {
    /// Nothing.
    NoAction,
    /// Reply to a call that waits.
    Reply(From, R),
    /// Set the state timeout.
    StateTimeout(Duration),
    /// Set the timeout with the name.
    GenericTimeout(String, Duration),
    /// Cancel the timeout with the name.
    CancelTimeout(String),
    /// Put the event off, to be retried in the next state.
    Postpone,
}

/// What `init` returns.
#[derive(Debug)]
pub enum InitResult<S, D> {
    /// The machine starts in the state, with the data.
    Okay(S, D),
    /// The machine starts, with a state timeout.
    OkTimeout(S, D, Duration),
    /// The machine does not start, and its process exits normally.
    Ignore,
    /// The machine fails to start, and its process exits for the reason.
    Stop(ExitReason),
}

impl<S, D> InitResult<S, D> {
    /// The machine starts in the state, with the data.
    pub fn ok(state: S, data: D) -> (r: Self)
        ensures
            r == InitResult::Okay(state, data),
    {
        InitResult::Okay(state, data)
    }

    /// The machine starts, with a state timeout.
    pub fn ok_timeout(state: S, data: D, timeout: Duration) -> (r: Self)
        ensures
            r == InitResult::OkTimeout(state, data, timeout),
    {
        InitResult::OkTimeout(state, data, timeout)
    }

    /// The machine fails to start.
    pub fn stop(reason: ExitReason) -> (r: Self)
        ensures
            r == InitResult::<S, D>::Stop(reason),
    {
        InitResult::Stop(reason)
    }

    /// The machine does not start.
    pub fn ignore() -> (r: Self)
        ensures
            r == InitResult::<S, D>::Ignore,
    {
        InitResult::Ignore
    }
}

/// What `handle_event` returns.
#[derive(Debug)]
pub enum EventResult<S, R> {
    /// Go to the state.
    NextState(S),
    /// Go to the state, and set the state timeout.
    NextStateTimeout(S, Duration),
    /// Stay in the state.
    KeepState,
    /// Stay in the state, and set the state timeout.
    KeepStateTimeout(Duration),
    /// Go to the state, and take the actions.
    NextStateActions(S, Vec<StateAction<R>>),
    /// Stay in the state, and take the actions.
    KeepStateActions(Vec<StateAction<R>>),
    /// Stop the machine.
    Stop(ExitReason),
    /// Reply to a call that waits, and stop the machine.
    StopReply(ExitReason, From, R),
}

impl<S, R> EventResult<S, R> {
    /// Go to the state.
    pub fn next_state(state: S) -> (r: Self)
        ensures
            r == EventResult::<S, R>::NextState(state),
    {
        EventResult::NextState(state)
    }

    /// Go to the state, and set the state timeout.
    pub fn next_state_timeout(state: S, timeout: Duration) -> (r: Self)
        ensures
            r == EventResult::<S, R>::NextStateTimeout(state, timeout),
    {
        EventResult::NextStateTimeout(state, timeout)
    }

    /// Stay in the state.
    pub fn keep_state() -> (r: Self)
        ensures
            r == EventResult::<S, R>::KeepState,
    {
        EventResult::KeepState
    }

    /// Stay in the state, and set the state timeout.
    pub fn keep_state_timeout(timeout: Duration) -> (r: Self)
        ensures
            r == EventResult::<S, R>::KeepStateTimeout(timeout),
    {
        EventResult::KeepStateTimeout(timeout)
    }

    /// Go to the state, and take the actions.
    pub fn next_state_actions(state: S, actions: Vec<StateAction<R>>) -> (r: Self)
        ensures
            r == EventResult::<S, R>::NextStateActions(state, actions),
    {
        EventResult::NextStateActions(state, actions)
    }

    /// Stay in the state, and take the actions.
    pub fn keep_state_actions(actions: Vec<StateAction<R>>) -> (r: Self)
        ensures
            r == EventResult::<S, R>::KeepStateActions(actions),
    {
        EventResult::KeepStateActions(actions)
    }

    /// Stop the machine.
    pub fn stop(reason: ExitReason) -> (r: Self)
        ensures
            r == EventResult::<S, R>::Stop(reason),
    {
        EventResult::Stop(reason)
    }

    /// Reply to a call that waits, and stop the machine.
    pub fn stop_reply(reason: ExitReason, from: From, reply: R) -> (r: Self)
        ensures
            r == EventResult::<S, R>::StopReply(reason, from, reply),
    {
        EventResult::StopReply(reason, from, reply)
    }
}

/// What `handle_call` returns.
#[derive(Debug)]
pub enum CallResult<S, R> {
    /// Reply, and go to the state.
    Reply(R, S),
    /// Reply, go to the state, and set the state timeout.
    ReplyTimeout(R, S, Duration),
    /// Go to the state without a reply for now.
    NoReply(S),
    /// Go to the state without a reply for now, and set the state timeout.
    NoReplyTimeout(S, Duration),
    /// Reply, and stay in the state.
    KeepStateReply(R),
    /// Stay in the state without a reply.
    KeepState,
    /// Reply, and stop the machine in the state.
    Stop(ExitReason, R, S),
    /// Stop the machine in the state without a reply.
    StopNoReply(ExitReason, S),
}

impl<S, R> CallResult<S, R> {
    /// Reply, and go to the state.
    pub fn reply(reply: R, state: S) -> (r: Self)
        ensures
            r == CallResult::Reply(reply, state),
    {
        CallResult::Reply(reply, state)
    }

    /// Reply, go to the state, and set the state timeout.
    pub fn reply_timeout(reply: R, state: S, timeout: Duration) -> (r: Self)
        ensures
            r == CallResult::ReplyTimeout(reply, state, timeout),
    {
        CallResult::ReplyTimeout(reply, state, timeout)
    }

    /// Go to the state without a reply for now.
    pub fn noreply(state: S) -> (r: Self)
        ensures
            r == CallResult::<S, R>::NoReply(state),
    {
        CallResult::NoReply(state)
    }

    /// Reply, and stay in the state.
    pub fn keep_state_reply(reply: R) -> (r: Self)
        ensures
            r == CallResult::<S, R>::KeepStateReply(reply),
    {
        CallResult::KeepStateReply(reply)
    }

    /// Stay in the state without a reply.
    pub fn keep_state() -> (r: Self)
        ensures
            r == CallResult::<S, R>::KeepState,
    {
        CallResult::KeepState
    }

    /// Reply, and stop the machine in the state.
    pub fn stop(reason: ExitReason, reply: R, state: S) -> (r: Self)
        ensures
            r == CallResult::Stop(reason, reply, state),
    {
        CallResult::Stop(reason, reply, state)
    }

    /// Stop the machine in the state without a reply.
    pub fn stop_noreply(reason: ExitReason, state: S) -> (r: Self)
        ensures
            r == CallResult::<S, R>::StopNoReply(reason, state),
    {
        CallResult::StopNoReply(reason, state)
    }
}

} // verus!
