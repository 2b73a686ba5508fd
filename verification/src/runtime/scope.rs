//! The process that a piece of code runs for.
use crate::base::exit_reason::ExitReason;
use crate::base::message::SystemModel;
use crate::base::node::LocalNode;
use crate::base::pid::Pid;
use crate::runtime::context::{after_exit_signal, Context};
use crate::runtime::error::SendError;
use crate::runtime::process::{ProcessModel, ProcessRegistry};
use crate::wire::primitive::Wire;
use crate::wire::system::system_bytes;
use vstd::prelude::*;

verus! {

/// The process that a piece of code runs for. While its context is in use
/// elsewhere, nothing can be done through it.
#[derive(Clone, Copy, Debug, PartialEq, Eq, Structural)]
pub struct ProcessScope {
    /// The process, as it sees itself.
    pub ctx: Context,
    /// Whether the context is in use elsewhere.
    pub locked: bool,
}

impl ProcessScope {
    /// The scope of a process, with its context free.
    pub fn new(ctx: Context) -> (r: Self)
        ensures
            r == (ProcessScope { ctx, locked: false }),
    {
        ProcessScope { ctx, locked: false }
    }
}

/// The process that runs.
pub fn current_pid(scope: &ProcessScope) -> (r: Pid)
    ensures
        r == scope.ctx.me(),
{
    scope.ctx.pid()
}

/// The process that runs, if one does.
pub fn try_current_pid(scope: Option<&ProcessScope>) -> (r: Option<Pid>)
    ensures
        r == (match scope {
            Some(s) => Some(s.ctx.me()),
            None => None,
        }),
{
    match scope {
        Some(s) => Some(s.ctx.pid()),
        None => None,
    }
}

/// The oldest message that waits for the process that runs, if there is one and
/// the context is free.
pub fn try_recv(scope: &ProcessScope, registry: &mut ProcessRegistry) -> (r: Option<Vec<u8>>)
    requires
        scope.ctx.in_registry(old(registry)),
    ensures
        final(registry).well_formed(),
        ({
            let mine = old(registry).deep_view().processes[scope.ctx.me()];
            match r {
                Some(data) => {
                    &&& !scope.locked
                    &&& mine.mailbox.len() > 0
                    &&& data@ == mine.mailbox[0]
                    &&& final(registry).deep_view() == old(registry).deep_view().changed(
                        scope.ctx.me(),
                        ProcessModel { mailbox: mine.mailbox.drop_first(), ..mine },
                    )
                },
                None => {
                    &&& scope.locked || mine.mailbox.len() == 0
                    &&& final(registry).deep_view() == old(registry).deep_view()
                },
            }
        }),
{
    if scope.locked {
        return None;
    }
    scope.ctx.try_recv(registry)
}

/// Sends a process a message. While the context is in use elsewhere, the process
/// counts as not found.
pub fn send_raw(scope: &ProcessScope, registry: &mut ProcessRegistry, pid: Pid, data: Vec<u8>)
    -> (r: Result<(), SendError>)
    requires
        old(registry).well_formed(),
    ensures
        final(registry).well_formed(),
        scope.locked ==> {
            &&& r == Err::<(), SendError>(SendError::ProcessNotFound(pid))
            &&& final(registry).deep_view() == old(registry).deep_view()
        },
        !scope.locked ==> {
            &&& r == old(registry).deep_view().send_result(pid)
            &&& final(registry).deep_view() == old(registry).deep_view().delivered(pid, data@)
        },
{
    if scope.locked {
        return Err(SendError::ProcessNotFound(pid));
    }
    scope.ctx.send_raw(registry, pid, data)
}

/// Sends a process a value. While the context is in use elsewhere, the process
/// counts as not found.
pub fn send<M: Wire>(scope: &ProcessScope, registry: &mut ProcessRegistry, pid: Pid, msg: &M) -> (r:
    Result<(), SendError>)
    requires
        old(registry).well_formed(),
    ensures
        final(registry).well_formed(),
        scope.locked ==> {
            &&& r == Err::<(), SendError>(SendError::ProcessNotFound(pid))
            &&& final(registry).deep_view() == old(registry).deep_view()
        },
        !scope.locked ==> {
            &&& r == old(registry).deep_view().send_result(pid)
            &&& final(registry).deep_view() == old(registry).deep_view().delivered(
                pid,
                M::bytes_of(msg.deep_view()),
            )
        },
{
    if scope.locked {
        return Err(SendError::ProcessNotFound(pid));
    }
    scope.ctx.send(registry, pid, msg)
}

/// Calls a function with the context of the process that runs, which must be free.
pub fn with_ctx<R, F: FnOnce(&mut Context) -> R>(scope: &mut ProcessScope, f: F) -> (r: R)
    requires
        !old(scope).locked,
        forall|ctx: &mut Context| *ctx == old(scope).ctx ==> f.requires((ctx,)),
    ensures
        !final(scope).locked,
        exists|ctx: &mut Context|
            *ctx == old(scope).ctx && *final(ctx) == final(scope).ctx && f.ensures((ctx,), r),
{
    f(&mut scope.ctx)
}

/// Sends a process an exit signal. While the context is in use elsewhere,
/// nothing is sent.
pub fn exit(
    scope: &ProcessScope,
    registry: &mut ProcessRegistry,
    node: &LocalNode,
    target: Pid,
    reason: ExitReason,
)
    requires
        old(registry).well_formed(),
        node.atoms.knows(scope.ctx.me().spec_node()),
    ensures
        final(registry).well_formed(),
        final(registry).deep_view() == (if scope.locked {
            old(registry).deep_view()
        } else {
            after_exit_signal(
                old(registry).deep_view(),
                target,
                reason.deep_view(),
                system_bytes(
                    &node.atoms,
                    SystemModel::Exit { from: scope.ctx.me(), reason: reason.deep_view() },
                ),
            )
        }),
{
    if !scope.locked {
        let _ = scope.ctx.exit(registry, node, target, reason);
    }
}

} // verus!
