//! What holds of links, monitors and exit signals.
use crate::base::exit_reason::ExitModel;
use crate::base::message::SystemModel;
use crate::base::node::LocalNode;
use crate::base::pid::Pid;
use crate::base::reference::Ref;
use crate::runtime::context::{
    after_demonitor, after_exit_signal, after_link, after_monitor, after_unlink,
};
use crate::runtime::exit::{after_downs, after_lost_links};
use crate::runtime::process::{Processes, ProcessesModel};
use crate::wire::system::system_bytes;
use vstd::prelude::*;

verus! {

/// Whether two processes that are there are linked in both directions or in none.
pub open spec fn links_are_mutual(p: Processes) -> bool {
    forall|a: Pid, b: Pid|
        #![trigger p[a].links.contains(b)]
        p.contains_key(a) && p.contains_key(b) ==> p[a].links.contains(b) == p[b].links.contains(a)
}

/// To link and to unlink keep links mutual.
pub proof fn links_stay_mutual(p: Processes, me: Pid, other: Pid)
    requires
        links_are_mutual(p),
        p.contains_key(me),
    ensures
        links_are_mutual(after_link(p, me, other)),
        links_are_mutual(after_unlink(p, me, other)),
{
    let q = after_link(p, me, other);
    assert forall|a: Pid, b: Pid|
        #![trigger q[a].links.contains(b)]
        q.contains_key(a) && q.contains_key(b) implies q[a].links.contains(b) == q[b].links.contains(
        a,
    ) by {
        assert(p[a].links.contains(b) == p[b].links.contains(a));
    }
    let s = after_unlink(p, me, other);
    assert forall|a: Pid, b: Pid|
        #![trigger s[a].links.contains(b)]
        s.contains_key(a) && s.contains_key(b) implies s[a].links.contains(b) == s[b].links.contains(
        a,
    ) by {
        assert(p[a].links.contains(b) == p[b].links.contains(a));
    }
}

/// A link binds both processes, and to unlink frees both.
pub proof fn link_binds_both(p: Processes, me: Pid, other: Pid)
    requires
        p.contains_key(me),
        p.contains_key(other),
    ensures
        after_link(p, me, other)[me].links.contains(other),
        after_link(p, me, other)[other].links.contains(me),
        !after_unlink(p, me, other)[me].links.contains(other),
        !after_unlink(p, me, other)[other].links.contains(me),
{
}

/// To unlink undoes a link between two processes that were not linked.
pub proof fn unlink_undoes_link(p: Processes, me: Pid, other: Pid)
    requires
        p.contains_key(me),
        p.contains_key(other),
        !p[me].links.contains(other),
        !p[other].links.contains(me),
    ensures
        after_unlink(after_link(p, me, other), me, other) == p,
{
    let q = after_unlink(after_link(p, me, other), me, other);
    assert(q[me].links =~= p[me].links);
    assert(q[other].links =~= p[other].links);
    assert(q =~= p);
}

/// Whether each monitor is noted on both sides, where the monitored process is there.
pub open spec fn monitors_are_mutual(p: Processes) -> bool {
    &&& forall|a: Pid, r: Ref|
        #![trigger p[a].monitors.contains_key(r)]
        p.contains_key(a) && p[a].monitors.contains_key(r) && p.contains_key(p[a].monitors[r]) ==> {
            let b = p[a].monitors[r];
            p[b].monitored_by.contains_key(r) && p[b].monitored_by[r] == a
        }
    &&& forall|b: Pid, r: Ref|
        #![trigger p[b].monitored_by.contains_key(r)]
        p.contains_key(b) && p[b].monitored_by.contains_key(r) && p.contains_key(
            p[b].monitored_by[r],
        ) ==> {
            let a = p[b].monitored_by[r];
            p[a].monitors.contains_key(r) && p[a].monitors[r] == b
        }
}

/// Whether no process has the reference as a monitor.
pub open spec fn unused(p: Processes, r: Ref) -> bool {
    forall|a: Pid|
        p.contains_key(a) ==> !(#[trigger] p[a]).monitors.contains_key(r)
            && !p[a].monitored_by.contains_key(r)
}

/// To monitor with a new reference keeps monitors mutual.
pub proof fn monitor_stays_mutual(p: Processes, me: Pid, target: Pid, r: Ref)
    requires
        monitors_are_mutual(p),
        p.contains_key(me),
        p.contains_key(target),
        unused(p, r),
    ensures
        monitors_are_mutual(after_monitor(p, me, target, r)),
        after_monitor(p, me, target, r)[me].monitors[r] == target,
        after_monitor(p, me, target, r)[target].monitored_by[r] == me,
{
    let q = after_monitor(p, me, target, r);
    assert(!p[me].monitors.contains_key(r));
    assert(!p[target].monitored_by.contains_key(r));
    assert forall|a: Pid, s: Ref|
        #![trigger q[a].monitors.contains_key(s)]
        q.contains_key(a) && q[a].monitors.contains_key(s) && q.contains_key(
            q[a].monitors[s],
        ) implies {
        let b = q[a].monitors[s];
        q[b].monitored_by.contains_key(s) && q[b].monitored_by[s] == a
    } by {
        if s != r {
            assert(p[a].monitors.contains_key(s));
        } else {
            assert(p.contains_key(a));
            assert(!p[a].monitors.contains_key(r));
        }
    }
    assert forall|b: Pid, s: Ref|
        #![trigger q[b].monitored_by.contains_key(s)]
        q.contains_key(b) && q[b].monitored_by.contains_key(s) && q.contains_key(
            q[b].monitored_by[s],
        ) implies {
        let a = q[b].monitored_by[s];
        q[a].monitors.contains_key(s) && q[a].monitors[s] == b
    } by {
        if s != r {
            assert(p[b].monitored_by.contains_key(s));
        } else {
            assert(p.contains_key(b));
            assert(!p[b].monitored_by.contains_key(r));
        }
    }
}

/// To end a monitor undoes it.
pub proof fn demonitor_undoes_monitor(p: Processes, me: Pid, target: Pid, r: Ref)
    requires
        p.contains_key(me),
        p.contains_key(target),
        unused(p, r),
    ensures
        after_demonitor(after_monitor(p, me, target, r), me, r) == p,
{
    assert(!p[me].monitors.contains_key(r));
    assert(!p[target].monitored_by.contains_key(r));
    let q = after_demonitor(after_monitor(p, me, target, r), me, r);
    assert(q[me].monitors =~= p[me].monitors);
    assert(q[target].monitored_by =~= p[target].monitored_by);
    assert(q =~= p);
}

/// Nothing but the target is touched by an exit signal. `Killed` cannot be
/// trapped; a normal exit does nothing to a process that traps none.
pub proof fn exit_signal_hits_target_alone(
    m: ProcessesModel,
    target: Pid,
    reason: ExitModel,
    message: Seq<u8>,
    other: Pid,
)
    requires
        m.processes.contains_key(target),
        other != target,
    ensures
        ({
            let after = after_exit_signal(m, target, reason, message);
            let process = m.processes[target];
            &&& after.names == m.names
            &&& after.processes.contains_key(other) == m.processes.contains_key(other)
            &&& m.processes.contains_key(other) ==> after.processes[other] == m.processes[other]
            &&& reason is Killed ==> after.processes[target].terminated == Some(reason)
            &&& !process.trap_exit && reason.normal() ==> after == m
            &&& !process.trap_exit && !reason.normal() ==> after.processes[target].terminated
                == Some(reason)
            &&& process.trap_exit && process.open && !(reason is Killed) ==> {
                &&& after.processes[target].mailbox == process.mailbox.push(message)
                &&& after.processes[target].terminated == process.terminated
            }
        }),
{
}

proof fn lemma_lost_links_leave_others(
    m: ProcessesModel,
    linked: Seq<Pid>,
    node: &LocalNode,
    pid: Pid,
    reason: ExitModel,
    other: Pid,
)
    requires
        !linked.contains(other),
    ensures
        ({
            let after = after_lost_links(m, linked, node, pid, reason);
            &&& after.processes.contains_key(other) == m.processes.contains_key(other)
            &&& m.processes.contains_key(other) ==> after.processes[other] == m.processes[other]
        }),
    decreases linked.len(),
{
    if linked.len() > 0 {
        let less = linked.drop_last();
        assert(linked[linked.len() - 1] != other);
        if less.contains(other) {
            let i = choose|i: int| 0 <= i < less.len() && less[i] == other;
            assert(linked[i] == other);
        }
        lemma_lost_links_leave_others(m, less, node, pid, reason, other);
    }
}

/// When a process ends, each process that is linked with it loses the link and
/// gets an exit signal: one that traps none is terminated by an abnormal reason
/// and left alone by a normal one, and one that traps finds a message at the
/// end of its mailbox.
pub proof fn exit_reaches_linked(
    m: ProcessesModel,
    linked: Seq<Pid>,
    node: &LocalNode,
    pid: Pid,
    reason: ExitModel,
    other: Pid,
)
    requires
        linked.no_duplicates(),
        linked.contains(other),
        m.processes.contains_key(other),
    ensures
        ({
            let after = after_lost_links(m, linked, node, pid, reason);
            let process = m.processes[other];
            let message = system_bytes(&node.atoms, SystemModel::Exit { from: pid, reason });
            &&& after.processes.contains_key(other)
            &&& after.processes[other].links == process.links.remove(pid)
            &&& reason is Killed || (!process.trap_exit && !reason.normal())
                ==> after.processes[other].terminated == Some(reason)
            &&& !process.trap_exit && reason.normal() ==> {
                &&& after.processes[other].terminated == process.terminated
                &&& after.processes[other].mailbox == process.mailbox
            }
            &&& process.trap_exit && process.open && !(reason is Killed)
                ==> after.processes[other].mailbox == process.mailbox.push(message)
        }),
    decreases linked.len(),
{
    let less = linked.drop_last();
    let last = linked.last();
    let i = choose|i: int| 0 <= i < linked.len() && linked[i] == other;
    if other == last {
        assert(!less.contains(other)) by {
            if less.contains(other) {
                let j = choose|j: int| 0 <= j < less.len() && less[j] == other;
                assert(linked[j] == linked[linked.len() - 1]);
            }
        }
        lemma_lost_links_leave_others(m, less, node, pid, reason, other);
    } else {
        assert(less[i] == other);
        assert forall|a: int, b: int|
            0 <= a < less.len() && 0 <= b < less.len() && a != b implies less[a] != less[b] by {
            assert(linked[a] != linked[b]);
        }
        exit_reaches_linked(m, less, node, pid, reason, other);
    }
}

/// When a process ends, each process that monitors it finds a message that says
/// so in its mailbox.
pub proof fn exit_reaches_watchers(
    m: ProcessesModel,
    watchers: Seq<(Ref, Pid)>,
    node: &LocalNode,
    pid: Pid,
    reason: ExitModel,
    i: int,
)
    requires
        0 <= i < watchers.len(),
        m.processes.contains_key(watchers[i].1),
        m.processes[watchers[i].1].open,
    ensures
        ({
            let after = after_downs(m, watchers, node, pid, reason);
            let message = system_bytes(
                &node.atoms,
                SystemModel::Down { monitor_ref: watchers[i].0, pid, reason },
            );
            &&& after.processes.contains_key(watchers[i].1)
            &&& after.processes[watchers[i].1].mailbox.contains(message)
        }),
    decreases watchers.len(),
{
    let less = watchers.drop_last();
    let (reference, watcher) = watchers.last();
    let x = watchers[i].1;
    let message = system_bytes(
        &node.atoms,
        SystemModel::Down { monitor_ref: watchers[i].0, pid, reason },
    );
    lemma_downs_keep_open(m, less, node, pid, reason, x);
    let between = after_downs(m, less, node, pid, reason);
    let after = after_downs(m, watchers, node, pid, reason);
    if i < less.len() {
        assert(less[i] == watchers[i]);
        exit_reaches_watchers(m, less, node, pid, reason, i);
        let mailbox = between.processes[x].mailbox;
        let j = choose|j: int| 0 <= j < mailbox.len() && mailbox[j] == message;
        assert(after.processes[x].mailbox[j] == message);
    } else {
        let mailbox = between.processes[x].mailbox;
        assert(after.processes[x].mailbox[mailbox.len() as int] == message);
    }
}

proof fn lemma_downs_keep_open(
    m: ProcessesModel,
    watchers: Seq<(Ref, Pid)>,
    node: &LocalNode,
    pid: Pid,
    reason: ExitModel,
    x: Pid,
)
    requires
        m.processes.contains_key(x),
    ensures
        after_downs(m, watchers, node, pid, reason).processes.contains_key(x),
        after_downs(m, watchers, node, pid, reason).processes[x].open == m.processes[x].open,
    decreases watchers.len(),
{
    if watchers.len() > 0 {
        lemma_downs_keep_open(m, watchers.drop_last(), node, pid, reason, x);
    }
}

/// To lose links takes no message away.
pub proof fn lost_links_keep_messages(
    m: ProcessesModel,
    linked: Seq<Pid>,
    node: &LocalNode,
    pid: Pid,
    reason: ExitModel,
    x: Pid,
    message: Seq<u8>,
)
    requires
        m.processes.contains_key(x),
        m.processes[x].mailbox.contains(message),
    ensures
        ({
            let after = after_lost_links(m, linked, node, pid, reason);
            after.processes.contains_key(x) && after.processes[x].mailbox.contains(message)
        }),
    decreases linked.len(),
{
    if linked.len() > 0 {
        let less = linked.drop_last();
        lost_links_keep_messages(m, less, node, pid, reason, x, message);
        let mailbox = after_lost_links(m, less, node, pid, reason).processes[x].mailbox;
        let after = after_lost_links(m, linked, node, pid, reason).processes[x].mailbox;
        let j = choose|j: int| 0 <= j < mailbox.len() && mailbox[j] == message;
        assert(after[j] == message);
    }
}

} // verus!
