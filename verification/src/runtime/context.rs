//! What a process can do.
use crate::atom::AtomTable;
use crate::base::exit_reason::{ExitModel, ExitReason};
use crate::base::message::{SystemMessage, SystemModel};
use crate::base::node::LocalNode;
use crate::base::pid::Pid;
use crate::base::reference::Ref;
use crate::data::next_number;
use crate::runtime::error::SendError;
use crate::runtime::process::{ProcessModel, ProcessRegistry, Processes, ProcessesModel};
use crate::wire::primitive::{encode, Wire};
use crate::wire::system::system_bytes;
use vstd::prelude::*;

verus! {

/// A process, as it sees itself.
#[derive(Clone, Copy, Debug, PartialEq, Eq, Structural)]
pub struct Context {
    pid: Pid,
}

/// The processes after one linked itself with another.
pub open spec fn after_link(processes: Processes, me: Pid, other: Pid) -> Processes {
    let mine = processes[me];
    if processes.contains_key(other) {
        let first = processes.insert(me, ProcessModel { links: mine.links.insert(other), ..mine });
        let theirs = first[other];
        first.insert(other, ProcessModel { links: theirs.links.insert(me), ..theirs })
    } else {
        processes.insert(me, ProcessModel { links: mine.links.remove(other), ..mine })
    }
}

/// The processes after one unlinked itself from another.
pub open spec fn after_unlink(processes: Processes, me: Pid, other: Pid) -> Processes {
    let mine = processes[me];
    let first = processes.insert(me, ProcessModel { links: mine.links.remove(other), ..mine });
    if first.contains_key(other) {
        let theirs = first[other];
        first.insert(other, ProcessModel { links: theirs.links.remove(me), ..theirs })
    } else {
        first
    }
}

/// The processes after one began to monitor another that is there.
pub open spec fn after_monitor(processes: Processes, me: Pid, target: Pid, reference: Ref)
    -> Processes {
    let mine = processes[me];
    let first = processes.insert(
        me,
        ProcessModel { monitors: mine.monitors.insert(reference, target), ..mine },
    );
    let theirs = first[target];
    first.insert(
        target,
        ProcessModel { monitored_by: theirs.monitored_by.insert(reference, me), ..theirs },
    )
}

/// The processes after one ended a monitor.
pub open spec fn after_demonitor(processes: Processes, me: Pid, reference: Ref) -> Processes {
    let mine = processes[me];
    let first = processes.insert(
        me,
        ProcessModel { monitors: mine.monitors.remove(reference), ..mine },
    );
    if mine.monitors.contains_key(reference) && first.contains_key(mine.monitors[reference]) {
        let target = mine.monitors[reference];
        let theirs = first[target];
        first.insert(
            target,
            ProcessModel { monitored_by: theirs.monitored_by.remove(reference), ..theirs },
        )
    } else {
        first
    }
}

/// What an exit signal does to a process that is there.
pub enum ExitEffect {
    /// The process is terminated.
    Terminate,
    /// The signal comes to the process as a message.
    Message,
    /// Nothing.
    Nothing,
}

/// Whether a process is there and was not terminated.
pub open spec fn alive(m: ProcessesModel, pid: Pid) -> bool {
    m.processes.contains_key(pid) && m.processes[pid].terminated is None
}

/// What an exit signal does to a process that is there.
pub open spec fn exit_effect(target: ProcessModel, reason: ExitModel) -> ExitEffect {
    if reason is Killed {
        ExitEffect::Terminate
    } else if target.trap_exit {
        ExitEffect::Message
    } else if !reason.normal() {
        ExitEffect::Terminate
    } else {
        ExitEffect::Nothing
    }
}

/// The processes after an exit signal. `message` is what the signal is as a message.
pub open spec fn after_exit_signal(
    m: ProcessesModel,
    target: Pid,
    reason: ExitModel,
    message: Seq<u8>,
) -> ProcessesModel {
    if !m.processes.contains_key(target) {
        m
    } else {
        let process = m.processes[target];
        match exit_effect(process, reason) {
            ExitEffect::Terminate => m.changed(
                target,
                ProcessModel { terminated: Some(reason), ..process },
            ),
            ExitEffect::Message => m.delivered(target, message),
            ExitEffect::Nothing => m,
        }
    }
}

/// What an exit signal comes to.
pub open spec fn exit_result(m: ProcessesModel, target: Pid, reason: ExitModel) -> Result<
    (),
    SendError,
> {
    if m.processes.contains_key(target) && !(exit_effect(m.processes[target], reason) is Message) {
        Ok(())
    } else {
        m.send_result(target)
    }
}

/// The processes after one began to monitor another. If that one is not there,
/// the process is told at once that it is down.
pub open spec fn monitoring(
    m: ProcessesModel,
    me: Pid,
    target: Pid,
    reference: Ref,
    atoms: &AtomTable,
) -> ProcessesModel {
    let mine = m.processes[me];
    if m.processes.contains_key(target) {
        m.with(after_monitor(m.processes, me, target, reference))
    } else {
        m.changed(
            me,
            ProcessModel { monitors: mine.monitors.remove(reference), ..mine },
        ).delivered(me, system_bytes(atoms, noproc(reference, target)))
    }
}

/// What a process is told that monitors one that is not there.
pub open spec fn noproc(reference: Ref, target: Pid) -> SystemModel {
    SystemModel::Down { monitor_ref: reference, pid: target, reason: ExitModel::Error("noproc"@) }
}

impl Context {
    /// The process.
    pub closed spec fn me(self) -> Pid {
        self.pid
    }

    /// Whether the process is among those of the registry, which is in order.
    pub open spec fn in_registry(self, registry: &ProcessRegistry) -> bool {
        registry.well_formed() && registry.deep_view().processes.contains_key(self.me())
    }

    /// A process, as it sees itself.
    pub fn new(pid: Pid) -> (r: Self)
        ensures
            r.me() == pid,
    {
        Context { pid }
    }

    /// The process's identifier.
    pub fn pid(&self) -> (r: Pid)
        ensures
            r == self.me(),
    {
        self.pid
    }

    /// The oldest message that waits, if there is one.
    pub fn try_recv(&self, registry: &mut ProcessRegistry) -> (r: Option<Vec<u8>>)
        requires
            self.in_registry(old(registry)),
        ensures
            final(registry).well_formed(),
            ({
                let mine = old(registry).deep_view().processes[self.me()];
                match r {
                    Some(data) => {
                        &&& mine.mailbox.len() > 0
                        &&& data@ == mine.mailbox[0]
                        &&& final(registry).deep_view() == old(registry).deep_view().changed(
                            self.me(),
                            ProcessModel { mailbox: mine.mailbox.drop_first(), ..mine },
                        )
                    },
                    None => {
                        &&& mine.mailbox.len() == 0
                        &&& final(registry).deep_view() == old(registry).deep_view()
                    },
                }
            }),
    {
        let ghost before = registry.deep_view();
        match registry.remove(self.pid) {
            Some(process) => {
                let mut process = process;
                let ghost mailbox = process.mailbox.deep_view();
                if process.mailbox.len() > 0 {
                    assert(mailbox[0] == process.mailbox@[0].deep_view());
                    let data = process.mailbox.remove(0);
                    assert(data.deep_view() =~= data@);
                    assert(process.mailbox.deep_view() =~= mailbox.drop_first());
                    registry.register(self.pid, process);
                    assert(registry.deep_view().processes =~= before.changed(
                        self.me(),
                        ProcessModel {
                            mailbox: mailbox.drop_first(),
                            ..before.processes[self.me()]
                        },
                    ).processes);
                    Some(data)
                } else {
                    registry.register(self.pid, process);
                    assert(registry.deep_view().processes =~= before.processes);
                    None
                }
            },
            None => None,
        }
    }

    /// Sends a process a message.
    pub fn send_raw(&self, registry: &mut ProcessRegistry, pid: Pid, data: Vec<u8>) -> (r: Result<
        (),
        SendError,
    >)
        requires
            old(registry).well_formed(),
        ensures
            final(registry).well_formed(),
            final(registry).deep_view() == old(registry).deep_view().delivered(pid, data@),
            r == old(registry).deep_view().send_result(pid),
    {
        registry.send_raw(pid, data)
    }

    /// Sends a process a value.
    pub fn send<M: Wire>(&self, registry: &mut ProcessRegistry, pid: Pid, msg: &M) -> (r: Result<
        (),
        SendError,
    >)
        requires
            old(registry).well_formed(),
        ensures
            final(registry).well_formed(),
            final(registry).deep_view() == old(registry).deep_view().delivered(
                pid,
                M::bytes_of(msg.deep_view()),
            ),
            r == old(registry).deep_view().send_result(pid),
    {
        registry.send_raw(pid, encode(msg))
    }

    /// Sets whether exit signals come as messages, and returns what it was.
    pub fn set_trap_exit(&self, registry: &mut ProcessRegistry, trap: bool) -> (r: bool)
        requires
            self.in_registry(old(registry)),
        ensures
            final(registry).well_formed(),
            r == old(registry).deep_view().processes[self.me()].trap_exit,
            final(registry).deep_view() == old(registry).deep_view().changed(
                self.me(),
                ProcessModel {
                    trap_exit: trap,
                    ..old(registry).deep_view().processes[self.me()]
                },
            ),
    {
        let ghost before = registry.deep_view();
        match registry.remove(self.pid) {
            Some(process) => {
                let mut process = process;
                let prev = process.trap_exit;
                process.trap_exit = trap;
                registry.register(self.pid, process);
                assert(registry.deep_view().processes =~= before.processes.insert(
                    self.me(),
                    ProcessModel { trap_exit: trap, ..before.processes[self.me()] },
                ));
                prev
            },
            None => false,
        }
    }

    /// Whether exit signals come as messages.
    pub fn is_trapping_exits(&self, registry: &ProcessRegistry) -> (r: bool)
        requires
            self.in_registry(registry),
        ensures
            r == registry.deep_view().processes[self.me()].trap_exit,
    {
        match registry.get(self.pid) {
            Some(process) => process.trap_exit,
            None => false,
        }
    }

    /// Links the process with another. If that one is not there, this fails, and
    /// the process is not linked with it.
    pub fn link(&self, registry: &mut ProcessRegistry, other: Pid) -> (r: Result<(), SendError>)
        requires
            self.in_registry(old(registry)),
        ensures
            final(registry).well_formed(),
            final(registry).deep_view() == old(registry).deep_view().with(
                after_link(old(registry).deep_view().processes, self.me(), other),
            ),
            r == (if old(registry).deep_view().processes.contains_key(other) {
                Ok::<(), SendError>(())
            } else {
                Err::<(), SendError>(SendError::ProcessNotFound(other))
            }),
    {
        let ghost before = registry.deep_view();
        let ghost goal = after_link(before.processes, self.me(), other);
        if registry.get(other).is_none() {
            self.change_link(registry, self.pid, other, false);
            assert(registry.deep_view().processes =~= goal);
            return Err(SendError::ProcessNotFound(other));
        }
        self.change_link(registry, self.pid, other, true);
        self.change_link(registry, other, self.pid, true);
        assert(registry.deep_view().processes =~= goal);
        Ok(())
    }

    /// Notes at a process that it is, or is not, linked with another.
    fn change_link(&self, registry: &mut ProcessRegistry, at: Pid, other: Pid, linked: bool)
        requires
            old(registry).well_formed(),
            old(registry).deep_view().processes.contains_key(at),
        ensures
            final(registry).well_formed(),
            ({
                let process = old(registry).deep_view().processes[at];
                final(registry).deep_view() == old(registry).deep_view().changed(
                    at,
                    ProcessModel {
                        links: if linked {
                            process.links.insert(other)
                        } else {
                            process.links.remove(other)
                        },
                        ..process
                    },
                )
            }),
    {
        let ghost before = registry.deep_view();
        if let Some(process) = registry.remove(at) {
            let mut process = process;
            if linked {
                process.links.insert(other);
            } else {
                process.links.remove(&other);
            }
            registry.register(at, process);
            assert(registry.deep_view().processes =~= before.processes.insert(
                at,
                process.deep_view(),
            ));
        }
    }

    /// Ends the link with another process.
    pub fn unlink(&self, registry: &mut ProcessRegistry, other: Pid)
        requires
            self.in_registry(old(registry)),
        ensures
            final(registry).well_formed(),
            final(registry).deep_view() == old(registry).deep_view().with(
                after_unlink(old(registry).deep_view().processes, self.me(), other),
            ),
    {
        let ghost before = registry.deep_view();
        self.change_link(registry, self.pid, other, false);
        if registry.get(other).is_some() {
            self.change_link(registry, other, self.pid, false);
        }
        assert(registry.deep_view().processes =~= after_unlink(
            before.processes,
            self.me(),
            other,
        ));
    }

    /// Monitors another process, and returns the monitor. If that one is not
    /// there, the process is told at once that it is down.
    pub fn monitor(&self, registry: &mut ProcessRegistry, node: &mut LocalNode, target: Pid) -> (r:
        Result<Ref, SendError>)
        requires
            self.in_registry(old(registry)),
            old(node).atoms.knows(target.spec_node()),
        ensures
            final(registry).well_formed(),
            r == Ok::<Ref, SendError>(Ref(old(node).next_ref)),
            final(node).next_ref == next_number(old(node).next_ref),
            *final(node) == (LocalNode { next_ref: final(node).next_ref, ..*old(node) }),
            final(registry).deep_view() == monitoring(
                old(registry).deep_view(),
                self.me(),
                target,
                Ref(old(node).next_ref),
                &old(node).atoms,
            ),
    {
        let ghost before = registry.deep_view();
        let reference = Ref::new(node);
        if registry.get(target).is_some() {
            self.note_monitor(registry, reference, Some(target));
            if let Some(process) = registry.remove(target) {
                let mut process = process;
                process.monitored_by.insert(reference, self.pid);
                registry.register(target, process);
            }
            assert(registry.deep_view().processes =~= after_monitor(
                before.processes,
                self.me(),
                target,
                reference,
            ));
        } else {
            self.note_monitor(registry, reference, None);
            let down = SystemMessage::Down {
                monitor_ref: reference,
                pid: target,
                reason: ExitReason::error("noproc"),
            };
            let data = down.encode(&node.atoms);
            let _ = registry.send_raw(self.pid, data);
        }
        Ok(reference)
    }

    /// Notes whom the process monitors by a monitor, if anyone.
    fn note_monitor(&self, registry: &mut ProcessRegistry, reference: Ref, target: Option<Pid>)
        requires
            self.in_registry(old(registry)),
        ensures
            final(registry).well_formed(),
            ({
                let mine = old(registry).deep_view().processes[self.me()];
                final(registry).deep_view() == old(registry).deep_view().changed(
                    self.me(),
                    ProcessModel {
                        monitors: match target {
                            Some(pid) => mine.monitors.insert(reference, pid),
                            None => mine.monitors.remove(reference),
                        },
                        ..mine
                    },
                )
            }),
    {
        let ghost before = registry.deep_view();
        if let Some(process) = registry.remove(self.pid) {
            let mut process = process;
            match target {
                Some(pid) => {
                    process.monitors.insert(reference, pid);
                },
                None => {
                    process.monitors.remove(&reference);
                },
            }
            registry.register(self.pid, process);
            assert(registry.deep_view().processes =~= before.processes.insert(
                self.me(),
                process.deep_view(),
            ));
        }
    }

    /// Ends a monitor.
    pub fn demonitor(&self, registry: &mut ProcessRegistry, reference: Ref)
        requires
            self.in_registry(old(registry)),
        ensures
            final(registry).well_formed(),
            final(registry).deep_view() == old(registry).deep_view().with(
                after_demonitor(old(registry).deep_view().processes, self.me(), reference),
            ),
    {
        let ghost before = registry.deep_view();
        let target = match registry.get(self.pid) {
            Some(process) => match process.monitors.get(&reference) {
                Some(pid) => Some(*pid),
                None => None,
            },
            None => None,
        };
        self.note_monitor(registry, reference, None);
        if let Some(pid) = target {
            if let Some(process) = registry.remove(pid) {
                let mut process = process;
                process.monitored_by.remove(&reference);
                registry.register(pid, process);
            }
        }
        assert(registry.deep_view().processes =~= after_demonitor(
            before.processes,
            self.me(),
            reference,
        ));
    }

    /// Sends a process an exit signal. `Killed` terminates it whatever it does.
    /// Any other reason comes as a message to one that traps exits, terminates
    /// one that does not if it is abnormal, and is passed over if it is normal.
    pub fn exit(
        &self,
        registry: &mut ProcessRegistry,
        node: &LocalNode,
        target: Pid,
        reason: ExitReason,
    ) -> (r: Result<(), SendError>)
        requires
            old(registry).well_formed(),
            node.atoms.knows(self.me().spec_node()),
        ensures
            final(registry).well_formed(),
            final(registry).deep_view() == after_exit_signal(
                old(registry).deep_view(),
                target,
                reason.deep_view(),
                system_bytes(
                    &node.atoms,
                    SystemModel::Exit { from: self.me(), reason: reason.deep_view() },
                ),
            ),
            r == exit_result(old(registry).deep_view(), target, reason.deep_view()),
    {
        let ghost before = registry.deep_view();
        let trapping = match registry.get(target) {
            Some(process) => process.trap_exit,
            None => {
                return Err(SendError::ProcessNotFound(target));
            },
        };
        if reason.is_killed() {
            self.mark_terminated(registry, target, reason);
        } else if trapping {
            let message = SystemMessage::Exit { from: self.pid, reason };
            let data = message.encode(&node.atoms);
            return registry.send_raw(target, data);
        } else if reason.is_abnormal() {
            self.mark_terminated(registry, target, reason);
        }
        Ok(())
    }

    fn mark_terminated(&self, registry: &mut ProcessRegistry, target: Pid, reason: ExitReason)
        requires
            old(registry).well_formed(),
            old(registry).deep_view().processes.contains_key(target),
        ensures
            final(registry).well_formed(),
            final(registry).deep_view() == old(registry).deep_view().changed(
                target,
                ProcessModel {
                    terminated: Some(reason.deep_view()),
                    ..old(registry).deep_view().processes[target]
                },
            ),
    {
        let ghost before = registry.deep_view();
        if let Some(process) = registry.remove(target) {
            let mut process = process;
            process.terminated = Some(reason);
            registry.register(target, process);
            assert(registry.deep_view().processes =~= before.processes.insert(
                target,
                process.deep_view(),
            ));
        }
    }

    /// The process with the name, if there is one.
    pub fn whereis(&self, registry: &ProcessRegistry, name: &str) -> (r: Option<Pid>)
        requires
            registry.well_formed(),
        ensures
            r == (if registry.deep_view().names.contains_key(name@) {
                Some(registry.deep_view().names[name@])
            } else {
                None
            }),
    {
        registry.whereis(name)
    }

    /// Gives the process a name, unless the name is taken.
    pub fn register(&self, registry: &mut ProcessRegistry, name: String) -> (r: bool)
        requires
            old(registry).well_formed(),
        ensures
            final(registry).well_formed(),
            r == !old(registry).deep_view().names.contains_key(name@),
            final(registry).deep_view() == (if r {
                ProcessesModel {
                    names: old(registry).deep_view().names.insert(name@, self.me()),
                    ..old(registry).deep_view()
                }
            } else {
                old(registry).deep_view()
            }),
    {
        registry.register_name(name, self.pid)
    }

    /// Takes a name away, and returns who had it.
    pub fn unregister(&self, registry: &mut ProcessRegistry, name: &str) -> (r: Option<Pid>)
        requires
            old(registry).well_formed(),
        ensures
            final(registry).well_formed(),
            final(registry).deep_view() == (ProcessesModel {
                names: old(registry).deep_view().names.remove(name@),
                ..old(registry).deep_view()
            }),
            r == (if old(registry).deep_view().names.contains_key(name@) {
                Some(old(registry).deep_view().names[name@])
            } else {
                None
            }),
    {
        registry.unregister_name(name)
    }

    /// Whether a process is there and was not terminated.
    pub fn is_alive(&self, registry: &ProcessRegistry, pid: Pid) -> (r: bool)
        requires
            registry.well_formed(),
        ensures
            r == alive(registry.deep_view(), pid),
    {
        match registry.get(pid) {
            Some(process) => process.terminated.is_none(),
            None => false,
        }
    }
}

} // verus!
