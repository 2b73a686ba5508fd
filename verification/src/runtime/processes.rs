//! What becomes of each process.
use crate::atom::AtomTable;
use crate::base::exit_reason::{ExitModel, ExitReason};
use crate::base::message::{SystemMessage, SystemModel};
use crate::base::node::LocalNode;
use crate::base::pid::Pid;
use crate::base::reference::Ref;
use crate::runtime::context::{
    after_demonitor, after_exit_signal, after_link, after_monitor, after_unlink, alive, exit_effect,
    exit_result, monitoring,
};
use crate::runtime::error::{SendError, SpawnError};
use crate::runtime::exit::{after_downs, after_lost_links};
use crate::runtime::process::{fresh_process, ProcessModel, ProcessState, Processes, ProcessesModel};
use crate::wire::system::system_bytes;
use vstd::prelude::*;

verus! {

/// Whether the processes are as before, but for one.
pub open spec fn same_but(p: Processes, q: Processes, one: Pid) -> bool {
    forall|x: Pid|
        x != one ==> #[trigger] q.contains_key(x) == p.contains_key(x) && (p.contains_key(x)
            ==> q[x] == p[x])
}

/// Whether the processes are as before, but for two.
pub open spec fn same_but_two(p: Processes, q: Processes, one: Pid, two: Pid) -> bool {
    forall|x: Pid|
        x != one && x != two ==> #[trigger] q.contains_key(x) == p.contains_key(x) && (
        p.contains_key(x) ==> q[x] == p[x])
}

/// A process with the given links, and otherwise as before.
pub open spec fn only_links(a: ProcessModel, b: ProcessModel) -> bool {
    &&& a.monitors == b.monitors
    &&& a.monitored_by == b.monitored_by
    &&& a.trap_exit == b.trap_exit
    &&& a.terminated == b.terminated
    &&& a.open == b.open
    &&& a.mailbox == b.mailbox
}

/// A process that has just come has no links, no monitors and no messages, traps
/// no exits and takes messages.
pub proof fn process_starts_alone(pid: Pid, r: Ref)
    ensures
        !fresh_process().links.contains(pid),
        !fresh_process().monitors.contains_key(r),
        !fresh_process().monitored_by.contains_key(r),
        !fresh_process().trap_exit,
        fresh_process().terminated is None,
        fresh_process().open,
        fresh_process().mailbox.len() == 0,
{
}

/// What a process is, is what is kept of it, every part of it.
pub proof fn processes_are_read_whole(a: ProcessState)
    ensures
        a.deep_view().links == a.links.deep_view(),
        a.deep_view().monitors == a.monitors.deep_view(),
        a.deep_view().monitored_by == a.monitored_by.deep_view(),
        a.deep_view().trap_exit == a.trap_exit,
        a.deep_view().terminated is Some == a.terminated is Some,
        a.terminated is Some ==> a.deep_view().terminated->Some_0
            == a.terminated->Some_0.deep_view(),
        a.deep_view().open == a.open,
        a.deep_view().mailbox.len() == a.mailbox@.len(),
        forall|i: int| 0 <= i < a.mailbox@.len() ==> #[trigger] a.deep_view().mailbox[i]
            == a.mailbox@[i]@,
{
    assert forall|i: int| 0 <= i < a.mailbox@.len() implies #[trigger] a.deep_view().mailbox[i]
        == a.mailbox@[i]@ by {
        assert(a.mailbox@[i].deep_view() =~= a.mailbox@[i]@);
    }
}

/// What a reason says is the reason, with its very text.
pub proof fn reasons_are_read_whole(reason: ExitReason, model: ExitModel)
    ensures
        reason.deep_view() == model <==> match (reason, model) {
            (ExitReason::Normal, ExitModel::Normal) => true,
            (ExitReason::Shutdown, ExitModel::Shutdown) => true,
            (ExitReason::ShutdownReason(a), ExitModel::ShutdownReason(b)) => a@ == b,
            (ExitReason::Killed, ExitModel::Killed) => true,
            (ExitReason::Error(a), ExitModel::Error(b)) => a@ == b,
            _ => false,
        },
        model.normal() == (model is Normal || model is Shutdown || model is ShutdownReason),
{
}

/// The texts of reasons and of errors.
pub proof fn reasons_and_errors_as_text(
    reason: ExitModel,
    send: SendError,
    spawn: SpawnError,
    node: &LocalNode,
)
    ensures
        reason.text() == (match reason {
            ExitModel::Normal => "normal"@,
            ExitModel::Shutdown => "shutdown"@,
            ExitModel::ShutdownReason(text) => "shutdown: "@ + text,
            ExitModel::Killed => "killed"@,
            ExitModel::Error(text) => "error: "@ + text,
        }),
        send.text(node) == (match send {
            SendError::ProcessNotFound(pid) => "process not found: "@ + pid.text(node),
            SendError::MailboxFull => "mailbox full"@,
            SendError::ProcessTerminated => "process terminated"@,
        }),
        spawn.text() == (match spawn {
            SpawnError::TaskCreationFailed(e) => "failed to create process task: "@ + e@,
            SpawnError::InitFailed(e) => "process initialization failed: "@ + e@,
        }),
{
}

/// What a message of the runtime says is what is in it, every part of it.
pub proof fn system_messages_are_read_whole(message: SystemMessage, model: SystemModel)
    ensures
        message.deep_view() == model <==> match (message, model) {
            (
                SystemMessage::Exit { from, reason },
                SystemModel::Exit { from: f, reason: r },
            ) => from == f && reason.deep_view() == r,
            (
                SystemMessage::Down { monitor_ref, pid, reason },
                SystemModel::Down { monitor_ref: m, pid: p, reason: r },
            ) => monitor_ref == m && pid == p && reason.deep_view() == r,
            _ => false,
        },
{
}

/// A message that is sent stands at the end of the mailbox as it is, where the
/// process is there and takes messages. Otherwise the sender is told which of the two
/// does not hold. Nothing else changes.
pub proof fn sent_message_arrives(m: ProcessesModel, pid: Pid, data: Seq<u8>)
    ensures
        ({
            let after = m.delivered(pid, data);
            let there = m.processes.contains_key(pid);
            &&& after.names == m.names
            &&& same_but(m.processes, after.processes, pid)
            &&& after.processes.contains_key(pid) == there
            &&& there && m.processes[pid].open ==> {
                &&& after.processes[pid].mailbox == m.processes[pid].mailbox.push(data)
                &&& after.processes[pid].links == m.processes[pid].links
                &&& after.processes[pid].monitors == m.processes[pid].monitors
                &&& after.processes[pid].monitored_by == m.processes[pid].monitored_by
                &&& after.processes[pid].trap_exit == m.processes[pid].trap_exit
                &&& after.processes[pid].terminated == m.processes[pid].terminated
                &&& after.processes[pid].open
                &&& m.send_result(pid) == Ok::<(), SendError>(())
            }
            &&& there && !m.processes[pid].open ==> {
                &&& after.processes[pid] == m.processes[pid]
                &&& m.send_result(pid) == Err::<(), SendError>(SendError::ProcessTerminated)
            }
            &&& !there ==> m.send_result(pid) == Err::<(), SendError>(
                SendError::ProcessNotFound(pid),
            )
        }),
{
}

/// A link and its end change the links of the two processes, and nothing else.
pub proof fn link_changes_links_alone(p: Processes, me: Pid, other: Pid)
    requires
        p.contains_key(me),
    ensures
        ({
            let q = after_link(p, me, other);
            &&& same_but_two(p, q, me, other)
            &&& q.contains_key(me) && q.contains_key(other) == p.contains_key(other)
            &&& only_links(p[me], q[me])
            &&& p.contains_key(other) ==> only_links(p[other], q[other])
            &&& forall|x: Pid|
                x != me && x != other ==> (#[trigger] q[me].links.contains(x) == p[me].links.contains(x))
            &&& forall|x: Pid|
                x != me && x != other && p.contains_key(other) ==> (
                #[trigger] q[other].links.contains(x) == p[other].links.contains(x))
            &&& q[me].links.contains(other) == p.contains_key(other)
            &&& p.contains_key(other) ==> q[other].links.contains(me)
        }),
        ({
            let q = after_unlink(p, me, other);
            &&& same_but_two(p, q, me, other)
            &&& q.contains_key(me) && q.contains_key(other) == p.contains_key(other)
            &&& only_links(p[me], q[me])
            &&& p.contains_key(other) ==> only_links(p[other], q[other])
            &&& forall|x: Pid|
                x != me && x != other ==> (#[trigger] q[me].links.contains(x) == p[me].links.contains(x))
            &&& forall|x: Pid|
                x != me && x != other && p.contains_key(other) ==> (
                #[trigger] q[other].links.contains(x) == p[other].links.contains(x))
            &&& !q[me].links.contains(other)
            &&& p.contains_key(other) ==> !q[other].links.contains(me)
        }),
{
}

/// A process with the given monitors, and otherwise as before.
pub open spec fn only_monitors(a: ProcessModel, b: ProcessModel) -> bool {
    &&& a.links == b.links
    &&& a.trap_exit == b.trap_exit
    &&& a.terminated == b.terminated
    &&& a.open == b.open
    &&& a.mailbox == b.mailbox
}

/// A monitor is noted on both sides under its reference, and to end it takes it
/// away on both. Nothing else changes.
pub proof fn monitor_changes_monitors_alone(p: Processes, me: Pid, target: Pid, r: Ref, s: Ref)
    requires
        p.contains_key(me),
        p.contains_key(target),
    ensures
        ({
            let q = after_monitor(p, me, target, r);
            &&& same_but_two(p, q, me, target)
            &&& q.contains_key(me) && q.contains_key(target)
            &&& only_monitors(p[me], q[me])
            &&& only_monitors(p[target], q[target])
            &&& q[me].monitors.contains_key(r) && q[me].monitors[r] == target
            &&& q[target].monitored_by.contains_key(r) && q[target].monitored_by[r] == me
            &&& s != r ==> {
                &&& q[me].monitors.contains_key(s) == p[me].monitors.contains_key(s)
                &&& q[me].monitors[s] == p[me].monitors[s]
                &&& q[target].monitored_by.contains_key(s) == p[target].monitored_by.contains_key(s)
                &&& q[target].monitored_by[s] == p[target].monitored_by[s]
            }
            &&& me != target ==> q[me].monitored_by == p[me].monitored_by && q[target].monitors
                == p[target].monitors
        }),
        p[me].monitors.contains_key(r) && p[me].monitors[r] == target ==> {
            let q = after_demonitor(p, me, r);
            &&& same_but_two(p, q, me, target)
            &&& q.contains_key(me) && q.contains_key(target)
            &&& only_monitors(p[me], q[me])
            &&& only_monitors(p[target], q[target])
            &&& !q[me].monitors.contains_key(r)
            &&& !q[target].monitored_by.contains_key(r)
            &&& s != r ==> {
                &&& q[me].monitors.contains_key(s) == p[me].monitors.contains_key(s)
                &&& q[me].monitors[s] == p[me].monitors[s]
                &&& q[target].monitored_by.contains_key(s) == p[target].monitored_by.contains_key(s)
                &&& q[target].monitored_by[s] == p[target].monitored_by[s]
            }
            &&& me != target ==> q[me].monitored_by == p[me].monitored_by && q[target].monitors
                == p[target].monitors
        },
{
}

/// To end a monitor that is not there, or of a process that is not there, leaves
/// everything but that the monitor goes.
pub proof fn idle_demonitor_changes_nothing(p: Processes, me: Pid, r: Ref, s: Ref)
    requires
        p.contains_key(me),
        !p[me].monitors.contains_key(r) || !p.contains_key(p[me].monitors[r]),
    ensures
        ({
            let q = after_demonitor(p, me, r);
            &&& same_but(p, q, me)
            &&& q.contains_key(me)
            &&& only_monitors(p[me], q[me])
            &&& q[me].monitored_by == p[me].monitored_by
            &&& !q[me].monitors.contains_key(r)
            &&& s != r ==> {
                &&& q[me].monitors.contains_key(s) == p[me].monitors.contains_key(s)
                &&& q[me].monitors[s] == p[me].monitors[s]
            }
        }),
{
}

/// A process that monitors one that is not there is told at once, by the message
/// that this one is down since there is no such process, with the very reference.
pub proof fn absent_process_is_down_at_once(
    m: ProcessesModel,
    me: Pid,
    target: Pid,
    r: Ref,
    atoms: &AtomTable,
)
    requires
        m.processes.contains_key(me),
        m.processes[me].open,
    ensures
        ({
            let after = monitoring(m, me, target, r, atoms);
            let message = system_bytes(
                atoms,
                SystemModel::Down {
                    monitor_ref: r,
                    pid: target,
                    reason: ExitModel::Error("noproc"@),
                },
            );
            &&& after.names == m.names
            &&& m.processes.contains_key(target) ==> after.processes == after_monitor(
                m.processes,
                me,
                target,
                r,
            )
            &&& !m.processes.contains_key(target) ==> {
                &&& same_but(m.processes, after.processes, me)
                &&& after.processes.contains_key(me)
                &&& after.processes[me].mailbox == m.processes[me].mailbox.push(message)
                &&& !after.processes[me].monitors.contains_key(r)
                &&& after.processes[me].links == m.processes[me].links
                &&& after.processes[me].monitored_by == m.processes[me].monitored_by
                &&& after.processes[me].trap_exit == m.processes[me].trap_exit
                &&& after.processes[me].terminated == m.processes[me].terminated
                &&& after.processes[me].open
            }
        }),
{
}

/// What an exit signal does. One that is killed ends whatever it does about
/// exits. One that traps exits gets the message, if it takes any. Any other ends
/// by an abnormal reason, and is left alone by a normal one. The sender learns of a
/// process that is not there, or that takes no message.
pub proof fn exit_signal_does_this(
    m: ProcessesModel,
    target: Pid,
    reason: ExitModel,
    message: Seq<u8>,
)
    ensures
        ({
            let after = after_exit_signal(m, target, reason, message);
            let result = exit_result(m, target, reason);
            let there = m.processes.contains_key(target);
            let before = m.processes[target];
            let now = after.processes[target];
            let ends = reason is Killed || (!before.trap_exit && reason is Error);
            let hears = !(reason is Killed) && before.trap_exit;
            &&& after.names == m.names
            &&& same_but(m.processes, after.processes, target)
            &&& after.processes.contains_key(target) == there
            &&& !there ==> result == Err::<(), SendError>(SendError::ProcessNotFound(target))
            &&& there ==> {
                &&& now.links == before.links
                &&& now.monitors == before.monitors
                &&& now.monitored_by == before.monitored_by
                &&& now.trap_exit == before.trap_exit
                &&& now.open == before.open
                &&& now.terminated == (if ends {
                    Some(reason)
                } else {
                    before.terminated
                })
                &&& now.mailbox == (if hears && before.open {
                    before.mailbox.push(message)
                } else {
                    before.mailbox
                })
                &&& result == (if hears && !before.open {
                    Err::<(), SendError>(SendError::ProcessTerminated)
                } else {
                    Ok::<(), SendError>(())
                })
                &&& exit_effect(before, reason) is Terminate == ends
                &&& exit_effect(before, reason) is Message == hears
                &&& alive(m, target) == (before.terminated is None)
            }
            &&& !there ==> !alive(m, target)
        }),
{
}

/// The messages for one of the watchers of a process that ended, in order.
pub open spec fn downs_for(
    watchers: Seq<(Ref, Pid)>,
    node: &LocalNode,
    pid: Pid,
    reason: ExitModel,
    x: Pid,
) -> Seq<Seq<u8>>
    decreases watchers.len(),
{
    if watchers.len() == 0 {
        Seq::empty()
    } else {
        let before = downs_for(watchers.drop_last(), node, pid, reason, x);
        if watchers.last().1 == x {
            before.push(
                system_bytes(
                    &node.atoms,
                    SystemModel::Down { monitor_ref: watchers.last().0, pid, reason },
                ),
            )
        } else {
            before
        }
    }
}

/// What the watchers of a process that ended find: one message for each of their
/// monitors, in order, at the end of the mailbox. Those monitors are gone, and
/// nothing else changes, for them or for others.
pub proof fn watchers_hear_of_end(
    m: ProcessesModel,
    watchers: Seq<(Ref, Pid)>,
    node: &LocalNode,
    pid: Pid,
    reason: ExitModel,
    x: Pid,
    r: Ref,
)
    ensures
        ({
            let after = after_downs(m, watchers, node, pid, reason);
            let before = m.processes[x];
            let now = after.processes[x];
            &&& after.names == m.names
            &&& after.processes.contains_key(x) == m.processes.contains_key(x)
            &&& m.processes.contains_key(x) ==> {
                &&& now.links == before.links
                &&& now.monitored_by == before.monitored_by
                &&& now.trap_exit == before.trap_exit
                &&& now.terminated == before.terminated
                &&& now.open == before.open
                &&& now.mailbox == (if before.open {
                    before.mailbox + downs_for(watchers, node, pid, reason, x)
                } else {
                    before.mailbox
                })
                &&& now.monitors.contains_key(r) <==> before.monitors.contains_key(r)
                    && !watchers.contains((r, x))
                &&& now.monitors.contains_key(r) ==> now.monitors[r] == before.monitors[r]
            }
        }),
    decreases watchers.len(),
{
    if watchers.len() == 0 {
        assert(m.processes[x].mailbox + downs_for(watchers, node, pid, reason, x)
            =~= m.processes[x].mailbox);
    } else {
        let less = watchers.drop_last();
        watchers_hear_of_end(m, less, node, pid, reason, x, r);
        assert(watchers =~= less.push(watchers.last()));
        if watchers.contains((r, x)) && watchers.last() != (r, x) {
            let i = choose|i: int| 0 <= i < watchers.len() && watchers[i] == (r, x);
            assert(less[i] == (r, x));
        }
        if less.contains((r, x)) {
            let i = choose|i: int| 0 <= i < less.len() && less[i] == (r, x);
            assert(watchers[i] == (r, x));
        }
        assert(watchers[watchers.len() - 1] == watchers.last());
        let so_far = downs_for(less, node, pid, reason, x);
        if watchers.last().1 == x {
            let message = system_bytes(
                &node.atoms,
                SystemModel::Down { monitor_ref: watchers.last().0, pid, reason },
            );
            assert((m.processes[x].mailbox + so_far).push(message) =~= m.processes[x].mailbox
                + so_far.push(message));
        }
    }
}

/// What the processes that were linked with one that ended find: each loses the
/// link and gets an exit signal, once. Others stay as they are.
pub proof fn linked_hear_of_end(
    m: ProcessesModel,
    linked: Seq<Pid>,
    node: &LocalNode,
    pid: Pid,
    reason: ExitModel,
    x: Pid,
)
    requires
        linked.no_duplicates(),
    ensures
        ({
            let after = after_lost_links(m, linked, node, pid, reason);
            let before = m.processes[x];
            let now = after.processes[x];
            let ends = reason is Killed || (!before.trap_exit && reason is Error);
            let hears = !(reason is Killed) && before.trap_exit;
            let message = system_bytes(&node.atoms, SystemModel::Exit { from: pid, reason });
            &&& after.names == m.names
            &&& after.processes.contains_key(x) == m.processes.contains_key(x)
            &&& m.processes.contains_key(x) && !linked.contains(x) ==> now == before
            &&& m.processes.contains_key(x) && linked.contains(x) ==> {
                &&& now.links == before.links.remove(pid)
                &&& now.monitors == before.monitors
                &&& now.monitored_by == before.monitored_by
                &&& now.trap_exit == before.trap_exit
                &&& now.open == before.open
                &&& now.terminated == (if ends {
                    Some(reason)
                } else {
                    before.terminated
                })
                &&& now.mailbox == (if hears && before.open {
                    before.mailbox.push(message)
                } else {
                    before.mailbox
                })
            }
        }),
    decreases linked.len(),
{
    if linked.len() > 0 {
        let less = linked.drop_last();
        let last = linked.last();
        assert forall|a: int, b: int|
            0 <= a < less.len() && 0 <= b < less.len() && a != b implies less[a] != less[b] by {
            assert(linked[a] != linked[b]);
        }
        linked_hear_of_end(m, less, node, pid, reason, x);
        assert(!less.contains(last)) by {
            if less.contains(last) {
                let j = choose|j: int| 0 <= j < less.len() && less[j] == last;
                assert(linked[j] == linked[linked.len() - 1]);
            }
        }
        if linked.contains(x) && x != last {
            let i = choose|i: int| 0 <= i < linked.len() && linked[i] == x;
            assert(less[i] == x);
        }
        if less.contains(x) {
            let i = choose|i: int| 0 <= i < less.len() && less[i] == x;
            assert(linked[i] == x);
        }
        assert(linked[linked.len() - 1] == last);
    }
}

} // verus!
