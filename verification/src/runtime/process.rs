//! The processes of a node.
use crate::base::exit_reason::{ExitModel, ExitReason};
use crate::base::pid::Pid;
use crate::base::reference::Ref;
use crate::data::push_one;
use crate::directory::Directory;
use crate::runtime::error::SendError;
use crate::table::{ListSet, Table};
use vstd::prelude::*;

verus! {

/// What is kept of a process.
pub struct ProcessState {
    /// The processes that it is linked with.
    pub links: ListSet<Pid>,
    /// Whom it monitors, by the monitor.
    pub monitors: Table<Ref, Pid>,
    /// Who monitors it, by the monitor.
    pub monitored_by: Table<Ref, Pid>,
    /// Whether exit signals come to it as messages.
    pub trap_exit: bool,
    /// Why it was terminated, once it was.
    pub terminated: Option<ExitReason>,
    /// Whether its mailbox takes messages.
    pub open: bool,
    /// The messages that wait, oldest first.
    pub mailbox: Vec<Vec<u8>>,
}

/// What a process is.
pub struct ProcessModel {
    pub links: Set<Pid>,
    pub monitors: Map<Ref, Pid>,
    pub monitored_by: Map<Ref, Pid>,
    pub trap_exit: bool,
    pub terminated: Option<ExitModel>,
    pub open: bool,
    pub mailbox: Seq<Seq<u8>>,
}

impl DeepView for ProcessState {
    type V = ProcessModel;

    open spec fn deep_view(&self) -> ProcessModel {
        ProcessModel {
            links: self.links.deep_view(),
            monitors: self.monitors.deep_view(),
            monitored_by: self.monitored_by.deep_view(),
            trap_exit: self.trap_exit,
            terminated: self.terminated.deep_view(),
            open: self.open,
            mailbox: self.mailbox.deep_view(),
        }
    }
}

/// A process that has done nothing yet.
pub open spec fn fresh_process() -> ProcessModel {
    ProcessModel {
        links: Set::empty(),
        monitors: Map::empty(),
        monitored_by: Map::empty(),
        trap_exit: false,
        terminated: None,
        open: true,
        mailbox: Seq::empty(),
    }
}

impl ProcessState {
    /// A process that has done nothing yet.
    pub fn new() -> (r: Self)
        ensures
            r.deep_view() == fresh_process(),
    {
        let r = ProcessState {
            links: ListSet::new(),
            monitors: Table::new(),
            monitored_by: Table::new(),
            trap_exit: false,
            terminated: None,
            open: true,
            mailbox: Vec::new(),
        };
        assert(r.mailbox.deep_view() =~= Seq::empty());
        r
    }
}

/// The processes by identifier.
pub type Processes = Map<Pid, ProcessModel>;

/// What a registry holds: the processes, and who has which name.
pub struct ProcessesModel {
    pub processes: Processes,
    pub names: Map<Seq<char>, Pid>,
}

/// The processes of a node and their names.
pub struct ProcessRegistry {
    processes: Directory<Pid, ProcessState>,
    names: Directory<String, Pid>,
}

impl DeepView for ProcessRegistry {
    type V = ProcessesModel;

    closed spec fn deep_view(&self) -> ProcessesModel {
        ProcessesModel { processes: self.processes.deep_view(), names: self.names.deep_view() }
    }
}

impl ProcessesModel {
    /// With other processes.
    pub open spec fn with(self, processes: Processes) -> ProcessesModel {
        ProcessesModel { processes, ..self }
    }

    /// With one process changed.
    pub open spec fn changed(self, pid: Pid, process: ProcessModel) -> ProcessesModel {
        self.with(self.processes.insert(pid, process))
    }

    /// Whether a message to the process arrives.
    pub open spec fn reaches(self, pid: Pid) -> bool {
        self.processes.contains_key(pid) && self.processes[pid].open
    }

    /// With a message delivered to a process, if it arrives.
    pub open spec fn delivered(self, pid: Pid, data: Seq<u8>) -> ProcessesModel {
        if self.reaches(pid) {
            let process = self.processes[pid];
            self.changed(pid, ProcessModel { mailbox: process.mailbox.push(data), ..process })
        } else {
            self
        }
    }

    /// What a send comes to.
    pub open spec fn send_result(self, pid: Pid) -> Result<(), SendError> {
        if !self.processes.contains_key(pid) {
            Err(SendError::ProcessNotFound(pid))
        } else if !self.processes[pid].open {
            Err(SendError::ProcessTerminated)
        } else {
            Ok(())
        }
    }
}

impl ProcessRegistry {
    /// The directories are in order.
    pub closed spec fn well_formed(&self) -> bool {
        self.processes.well_formed() && self.names.well_formed()
    }

    /// No process.
    pub fn new() -> (r: Self)
        ensures
            r.well_formed(),
            r.deep_view() == (ProcessesModel { processes: Map::empty(), names: Map::empty() }),
    {
        ProcessRegistry { processes: Directory::new(), names: Directory::new() }
    }

    /// Adds a process.
    pub fn register(&mut self, pid: Pid, process: ProcessState)
        requires
            old(self).well_formed(),
        ensures
            final(self).well_formed(),
            final(self).deep_view() == old(self).deep_view().changed(pid, process.deep_view()),
    {
        self.processes.insert(pid, process);
    }

    /// Takes a process out.
    pub fn remove(&mut self, pid: Pid) -> (r: Option<ProcessState>)
        requires
            old(self).well_formed(),
        ensures
            final(self).well_formed(),
            final(self).deep_view() == old(self).deep_view().with(
                old(self).deep_view().processes.remove(pid),
            ),
            match r {
                Some(process) => {
                    &&& old(self).deep_view().processes.contains_key(pid)
                    &&& process.deep_view() == old(self).deep_view().processes[pid]
                },
                None => !old(self).deep_view().processes.contains_key(pid),
            },
    {
        self.processes.remove(&pid)
    }

    /// A process, if it is there.
    pub fn get(&self, pid: Pid) -> (r: Option<&ProcessState>)
        requires
            self.well_formed(),
        ensures
            match r {
                Some(process) => {
                    &&& self.deep_view().processes.contains_key(pid)
                    &&& process.deep_view() == self.deep_view().processes[pid]
                },
                None => !self.deep_view().processes.contains_key(pid),
            },
    {
        self.processes.get(&pid)
    }

    /// Sends a process a message.
    pub fn send_raw(&mut self, pid: Pid, data: Vec<u8>) -> (r: Result<(), SendError>)
        requires
            old(self).well_formed(),
        ensures
            final(self).well_formed(),
            final(self).deep_view() == old(self).deep_view().delivered(pid, data@),
            r == old(self).deep_view().send_result(pid),
    {
        let ghost before = self.deep_view();
        assert(data.deep_view() =~= data@);
        match self.processes.remove(&pid) {
            Some(process) => {
                let mut process = process;
                if process.open {
                    push_one(&mut process.mailbox, data);
                    self.processes.insert(pid, process);
                    assert(self.deep_view().processes =~= before.delivered(
                        pid,
                        data@,
                    ).processes);
                    Ok(())
                } else {
                    self.processes.insert(pid, process);
                    assert(self.deep_view().processes =~= before.processes);
                    Err(SendError::ProcessTerminated)
                }
            },
            None => Err(SendError::ProcessNotFound(pid)),
        }
    }

    /// The process with the name, if there is one.
    pub fn whereis(&self, name: &str) -> (r: Option<Pid>)
        requires
            self.well_formed(),
        ensures
            r == (if self.deep_view().names.contains_key(name@) {
                Some(self.deep_view().names[name@])
            } else {
                None
            }),
    {
        match self.names.get(&name.to_owned()) {
            Some(pid) => Some(*pid),
            None => None,
        }
    }

    /// Gives a process a name, unless the name is taken.
    pub fn register_name(&mut self, name: String, pid: Pid) -> (r: bool)
        requires
            old(self).well_formed(),
        ensures
            final(self).well_formed(),
            r == !old(self).deep_view().names.contains_key(name@),
            final(self).deep_view() == (if r {
                ProcessesModel {
                    names: old(self).deep_view().names.insert(name@, pid),
                    ..old(self).deep_view()
                }
            } else {
                old(self).deep_view()
            }),
    {
        if self.names.contains_key(&name) {
            return false;
        }
        self.names.insert(name, pid);
        true
    }

    /// Takes a name away, and returns who had it.
    pub fn unregister_name(&mut self, name: &str) -> (r: Option<Pid>)
        requires
            old(self).well_formed(),
        ensures
            final(self).well_formed(),
            final(self).deep_view() == (ProcessesModel {
                names: old(self).deep_view().names.remove(name@),
                ..old(self).deep_view()
            }),
            r == (if old(self).deep_view().names.contains_key(name@) {
                Some(old(self).deep_view().names[name@])
            } else {
                None
            }),
    {
        self.names.remove(&name.to_owned())
    }
}

} // verus!
