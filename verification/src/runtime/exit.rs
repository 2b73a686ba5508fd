//! What the end of a process does to the others.
use crate::base::exit_reason::{ExitModel, ExitReason};
use crate::base::message::{SystemMessage, SystemModel};
use crate::base::node::LocalNode;
use crate::base::pid::Pid;
use crate::base::reference::Ref;
use crate::runtime::context::{after_exit_signal, Context};
use crate::runtime::process::{ProcessModel, ProcessRegistry, ProcessesModel};
use crate::wire::system::system_bytes;
use vstd::prelude::*;

verus! {

/// The processes after one that monitors was told that the monitored one is
/// down. Its monitor ends.
pub open spec fn after_down(
    m: ProcessesModel,
    watcher: Pid,
    reference: Ref,
    message: Seq<u8>,
) -> ProcessesModel {
    if m.processes.contains_key(watcher) {
        let process = m.processes[watcher];
        m.changed(
            watcher,
            ProcessModel { monitors: process.monitors.remove(reference), ..process },
        ).delivered(watcher, message)
    } else {
        m
    }
}

/// The processes after all that monitor were told that a process is down.
pub open spec fn after_downs(
    m: ProcessesModel,
    watchers: Seq<(Ref, Pid)>,
    node: &LocalNode,
    pid: Pid,
    reason: ExitModel,
) -> ProcessesModel
    decreases watchers.len(),
{
    if watchers.len() == 0 {
        m
    } else {
        let (reference, watcher) = watchers.last();
        after_down(
            after_downs(m, watchers.drop_last(), node, pid, reason),
            watcher,
            reference,
            system_bytes(&node.atoms, SystemModel::Down { monitor_ref: reference, pid, reason }),
        )
    }
}

/// The processes after one that is linked lost its link and got an exit signal.
pub open spec fn after_lost_link(
    m: ProcessesModel,
    linked: Pid,
    pid: Pid,
    reason: ExitModel,
    message: Seq<u8>,
) -> ProcessesModel {
    if m.processes.contains_key(linked) {
        let process = m.processes[linked];
        after_exit_signal(
            m.changed(linked, ProcessModel { links: process.links.remove(pid), ..process }),
            linked,
            reason,
            message,
        )
    } else {
        m
    }
}

/// The processes after all that are linked lost their link and got an exit signal.
pub open spec fn after_lost_links(
    m: ProcessesModel,
    linked: Seq<Pid>,
    node: &LocalNode,
    pid: Pid,
    reason: ExitModel,
) -> ProcessesModel
    decreases linked.len(),
{
    if linked.len() == 0 {
        m
    } else {
        after_lost_link(
            after_lost_links(m, linked.drop_last(), node, pid, reason),
            linked.last(),
            pid,
            reason,
            system_bytes(&node.atoms, SystemModel::Exit { from: pid, reason }),
        )
    }
}

fn tell_down(registry: &mut ProcessRegistry, watcher: Pid, reference: Ref, message: Vec<u8>)
    requires
        old(registry).well_formed(),
    ensures
        final(registry).well_formed(),
        final(registry).deep_view() == after_down(
            old(registry).deep_view(),
            watcher,
            reference,
            message@,
        ),
{
    let ghost before = registry.deep_view();
    if let Some(process) = registry.remove(watcher) {
        let mut process = process;
        process.monitors.remove(&reference);
        registry.register(watcher, process);
        assert(registry.deep_view().processes =~= before.processes.insert(
            watcher,
            process.deep_view(),
        ));
        let _ = registry.send_raw(watcher, message);
    } else {
        assert(registry.deep_view().processes =~= before.processes);
    }
}

fn lose_link(
    registry: &mut ProcessRegistry,
    node: &LocalNode,
    linked: Pid,
    pid: Pid,
    reason: &ExitReason,
)
    requires
        old(registry).well_formed(),
        node.atoms.knows(pid.spec_node()),
    ensures
        final(registry).well_formed(),
        final(registry).deep_view() == after_lost_link(
            old(registry).deep_view(),
            linked,
            pid,
            reason.deep_view(),
            system_bytes(&node.atoms, SystemModel::Exit { from: pid, reason: reason.deep_view() }),
        ),
{
    let ghost before = registry.deep_view();
    if let Some(process) = registry.remove(linked) {
        let mut process = process;
        process.links.remove(&pid);
        registry.register(linked, process);
        assert(registry.deep_view().processes =~= before.processes.insert(
            linked,
            process.deep_view(),
        ));
        let _ = Context::new(pid).exit(registry, node, linked, reason.clone());
    } else {
        assert(registry.deep_view().processes =~= before.processes);
    }
}

/// Takes a process that ended out of the registry. Those that monitor it are
/// told, in the order in which they began to, and then those that are linked
/// with it get an exit signal, in the order in which they were linked.
pub fn process_exited(
    registry: &mut ProcessRegistry,
    node: &LocalNode,
    pid: Pid,
    reason: ExitReason,
)
    requires
        old(registry).well_formed(),
        node.atoms.knows(pid.spec_node()),
    ensures
        final(registry).well_formed(),
        final(registry).deep_view().names == old(registry).deep_view().names,
        ({
            let before = old(registry).deep_view();
            let without = before.with(before.processes.remove(pid));
            if before.processes.contains_key(pid) {
                let process = before.processes[pid];
                exists|watchers: Seq<(Ref, Pid)>, linked: Seq<Pid>|
                    {
                        &&& crate::table::distinct_keys(watchers)
                        &&& crate::table::rows_map(watchers) == process.monitored_by
                        &&& linked.no_duplicates()
                        &&& linked.to_set() == process.links
                        &&& final(registry).deep_view() == #[trigger] after_lost_links(
                            #[trigger] after_downs(
                                without,
                                watchers,
                                node,
                                pid,
                                reason.deep_view(),
                            ),
                            linked,
                            node,
                            pid,
                            reason.deep_view(),
                        )
                    }
            } else {
                final(registry).deep_view() == without
            }
        }),
{
    let ghost before = registry.deep_view();
    let ghost without = before.with(before.processes.remove(pid));
    let process = match registry.remove(pid) {
        Some(process) => process,
        None => {
            return;
        },
    };
    let ghost watchers = process.monitored_by.rows();
    let n: usize = process.monitored_by.len();
    let mut i: usize = 0;
    assert(watchers.take(0) =~= Seq::empty());
    while i < n
        invariant
            i <= n,
            n == watchers.len(),
            watchers == process.monitored_by.rows(),
            node.atoms.knows(pid.spec_node()),
            registry.well_formed(),
            registry.deep_view().names == without.names,
            registry.deep_view() == after_downs(
                without,
                watchers.take(i as int),
                node,
                pid,
                reason.deep_view(),
            ),
        decreases n - i,
    {
        let reference = *process.monitored_by.key_at(i);
        let watcher = *process.monitored_by.value_at(i);
        proof {
            assert(watchers.take(i + 1).drop_last() =~= watchers.take(i as int));
            assert(watchers.take(i + 1).last() == watchers[i as int]);
        }
        let down = SystemMessage::Down { monitor_ref: reference, pid, reason: reason.clone() };
        let message = down.encode(&node.atoms);
        tell_down(registry, watcher, reference, message);
        i += 1;
    }
    assert(watchers.take(n as int) =~= watchers);
    let ghost told = registry.deep_view();
    let ghost linked = process.links.order();
    let k: usize = process.links.len();
    let mut j: usize = 0;
    assert(linked.take(0) =~= Seq::empty());
    while j < k
        invariant
            j <= k,
            k == linked.len(),
            linked == process.links.order(),
            node.atoms.knows(pid.spec_node()),
            registry.well_formed(),
            registry.deep_view().names == without.names,
            registry.deep_view() == after_lost_links(
                told,
                linked.take(j as int),
                node,
                pid,
                reason.deep_view(),
            ),
        decreases k - j,
    {
        proof {
            assert(linked.take(j + 1).drop_last() =~= linked.take(j as int));
            assert(linked.take(j + 1).last() == linked[j as int]);
        }
        lose_link(registry, node, *process.links.at(j), pid, &reason);
        j += 1;
    }
    assert(linked.take(k as int) =~= linked);
}

} // verus!
