//! A supervisor with a fixed list of children.
use crate::atom::AtomTable;
use crate::base::exit_reason::{ExitModel, ExitReason};
use crate::base::message::SystemMessage;
use crate::base::pid::Pid;
use crate::base::reference::Ref;
use crate::data::{position, push_one, Data};
use crate::runtime::process::{ProcessRegistry, ProcessesModel};
use crate::supervisor::error::{DeleteError, StartError, TerminateError};
use crate::supervisor::intensity::{allow_restart, recent};
use crate::supervisor::types::{
    ChildCounts, ChildInfo, ChildSpec, ChildType, InfoModel, RestartType, ShutdownType, Strategy,
    SupervisorFlags,
};
use crate::table::{keys_where, lemma_rows_map, lemma_rows_where, place_of, rows_where, Table};
use crate::text::join3;
use crate::time::Duration;
use crate::wire::primitive::Wire;
use crate::wire::system::{after_reading_system, knows_system, portable_system, PortableSystem};
use vstd::prelude::*;
use vstd::string::*;

verus! {

/// What a supervisor is initialized with.
pub struct SupervisorInit<F> {
    /// The setup.
    pub flags: SupervisorFlags,
    /// The children, in the order in which they start.
    pub children: Vec<ChildSpec<F>>,
}

impl<F> SupervisorInit<F> {
    /// The initialization from its parts.
    pub fn new(flags: SupervisorFlags, children: Vec<ChildSpec<F>>) -> (r: Self)
        ensures
            r == (SupervisorInit { flags, children }),
    {
        SupervisorInit { flags, children }
    }
}

/// What users implement to have a supervisor: its setup.
pub trait Supervisor: Sized {
    /// What the setup depends on.
    type InitArg;

    /// What starts a child.
    type Start;

    /// The setup of the supervisor.
    fn init(arg: Self::InitArg) -> SupervisorInit<Self::Start>;
}

/// A child of a supervisor.
pub struct ChildState<F> {
    /// How the child is set up.
    pub spec: ChildSpec<F>,
    /// The child's process, if it runs.
    pub pid: Option<Pid>,
    /// The monitor of the child's process, if there is one.
    pub monitor_ref: Option<Ref>,
}

/// What a child is.
pub struct ChildModel<F> {
    pub id: Seq<char>,
    pub start: F,
    pub restart: RestartType,
    pub shutdown: ShutdownType,
    pub child_type: ChildType,
    pub pid: Option<Pid>,
    pub monitor_ref: Option<Ref>,
}

impl<F> DeepView for ChildState<F> {
    type V = ChildModel<F>;

    open spec fn deep_view(&self) -> ChildModel<F> {
        ChildModel {
            id: self.spec.id@,
            start: self.spec.start,
            restart: self.spec.restart,
            shutdown: self.spec.shutdown,
            child_type: self.spec.child_type,
            pid: self.pid,
            monitor_ref: self.monitor_ref,
        }
    }
}

/// A child that does not run.
pub open spec fn idle<F>(spec: ChildSpec<F>) -> ChildModel<F> {
    ChildModel {
        id: spec.id@,
        start: spec.start,
        restart: spec.restart,
        shutdown: spec.shutdown,
        child_type: spec.child_type,
        pid: None,
        monitor_ref: None,
    }
}

/// The children by name, where the last of several with one name counts.
pub open spec fn children_from<F>(specs: Seq<ChildSpec<F>>) -> Map<Seq<char>, ChildModel<F>>
    decreases specs.len(),
{
    if specs.len() == 0 {
        Map::empty()
    } else {
        children_from(specs.drop_last()).insert(specs.last().id@, idle(specs.last()))
    }
}

/// A child that is to be stopped: its monitor, if any, is taken down, and its
/// process is sent an exit signal.
#[derive(Clone, Copy, Debug, PartialEq, Eq, Structural)]
pub struct StopChild {
    /// The process.
    pub pid: Pid,
    /// The monitor.
    pub monitor_ref: Option<Ref>,
    /// How the child is terminated.
    pub shutdown: ShutdownType,
}

impl StopChild {
    /// The reason of the exit signal: one that is terminated at once is killed,
    /// and any other is asked to shut down.
    pub open spec fn signal(self) -> ExitModel {
        match self.shutdown {
            ShutdownType::BrutalKill => ExitModel::Killed,
            _ => ExitModel::Shutdown,
        }
    }

    /// The reason of the exit signal: one that is terminated at once is killed,
    /// and any other is asked to shut down.
    pub fn reason(&self) -> (r: ExitReason)
        ensures
            r.deep_view() == self.signal(),
    {
        match self.shutdown {
            ShutdownType::BrutalKill => ExitReason::Killed,
            _ => ExitReason::Shutdown,
        }
    }

    /// How long after the exit signal it is looked whether the child has ended.
    pub fn grace(&self) -> (r: Duration)
        ensures
            r == (match self.shutdown {
                ShutdownType::Timeout(time) => time,
                _ => Duration { nanos: 0 },
            }),
    {
        match self.shutdown {
            ShutdownType::Timeout(time) => time,
            _ => Duration { nanos: 0 },
        }
    }

    /// Whether a child is to be killed that was sent its exit signal and had its
    /// time: it lives, and does not have as long as it takes.
    pub open spec fn overdue(self, m: ProcessesModel) -> bool {
        &&& m.processes.contains_key(self.pid)
        &&& m.processes[self.pid].terminated is None
        &&& !(self.shutdown is Infinity)
    }

    /// The reason of a second exit signal, where the child is to be killed once
    /// it had its time.
    pub fn follow_up(&self, registry: &ProcessRegistry) -> (r: Option<ExitReason>)
        requires
            registry.well_formed(),
        ensures
            r == (if self.overdue(registry.deep_view()) {
                Some(ExitReason::Killed)
            } else {
                None
            }),
    {
        let process = match registry.get(self.pid) {
            Some(process) => process,
            None => {
                return None;
            },
        };
        if process.terminated.is_some() {
            return None;
        }
        match self.shutdown {
            ShutdownType::Infinity => None,
            _ => Some(ExitReason::Killed),
        }
    }
}

/// What a supervisor holds: its setup, its children by name and in order, the
/// names by process, the times of restarts, and the children that are to be
/// started next.
pub struct SupervisorModel<F> {
    pub flags: SupervisorFlags,
    pub children: Map<Seq<char>, ChildModel<F>>,
    pub order: Seq<Seq<char>>,
    pub pids: Map<Pid, Seq<char>>,
    pub restarts: Seq<Duration>,
    pub pending: Seq<Seq<char>>,
}

impl<F> SupervisorModel<F> {
    /// Whether the child runs.
    pub open spec fn runs(self, id: Seq<char>) -> bool {
        self.children.contains_key(id) && self.children[id].pid is Some
    }

    /// One child stopped.
    pub open spec fn without_child(self, id: Seq<char>) -> SupervisorModel<F> {
        if self.runs(id) {
            SupervisorModel {
                children: self.children.insert(
                    id,
                    ChildModel { pid: None, monitor_ref: None, ..self.children[id] },
                ),
                pids: self.pids.remove(self.children[id].pid->Some_0),
                ..self
            }
        } else {
            self
        }
    }

    /// What stops one child.
    pub open spec fn stop_of(self, id: Seq<char>) -> Seq<StopChild> {
        if self.runs(id) {
            seq![
                StopChild {
                    pid: self.children[id].pid->Some_0,
                    monitor_ref: self.children[id].monitor_ref,
                    shutdown: self.children[id].shutdown,
                },
            ]
        } else {
            Seq::empty()
        }
    }

    /// Children stopped, the last of `ids` first.
    pub open spec fn without_children(self, ids: Seq<Seq<char>>) -> SupervisorModel<F>
        decreases ids.len(),
    {
        if ids.len() == 0 {
            self
        } else {
            self.without_child(ids.last()).without_children(ids.drop_last())
        }
    }

    /// What stops children, the last of `ids` first.
    pub open spec fn stops_of(self, ids: Seq<Seq<char>>) -> Seq<StopChild>
        decreases ids.len(),
    {
        if ids.len() == 0 {
            Seq::empty()
        } else {
            self.stop_of(ids.last()) + self.without_child(ids.last()).stops_of(ids.drop_last())
        }
    }

    /// Whether the process is one of a child.
    pub open spec fn has_pid(self, pid: Pid) -> bool {
        self.pids.contains_key(pid) && self.children.contains_key(self.pids[pid])
    }

    /// A child's process noted as ended.
    pub open spec fn noted_exit(self, pid: Pid) -> SupervisorModel<F> {
        if self.has_pid(pid) {
            let id = self.pids[pid];
            SupervisorModel {
                children: self.children.insert(
                    id,
                    ChildModel { pid: None, monitor_ref: None, ..self.children[id] },
                ),
                pids: self.pids.remove(pid),
                ..self
            }
        } else {
            SupervisorModel { pids: self.pids.remove(pid), ..self }
        }
    }

    /// Whether the end of a process calls for a restart.
    pub open spec fn calls_for_restart(self, pid: Pid, reason: ExitModel) -> bool {
        self.has_pid(pid) && self.children[self.pids[pid]].restart.wants_restart(reason)
    }

    /// Whether a restart at `now` is within the limit.
    pub open spec fn may_restart(self, now: Duration) -> bool {
        recent(self.restarts, now, self.flags.max_seconds).len() < self.flags.max_restarts
    }

    /// The children that a restart of one concerns, in order.
    pub open spec fn concerned(self, id: Seq<char>) -> Seq<Seq<char>> {
        match self.flags.strategy {
            Strategy::OneForOne => seq![id],
            Strategy::OneForAll => self.order,
            Strategy::RestForOne => self.order.skip(
                if self.order.contains(id) {
                    self.order.index_of_first(id)->Some_0
                } else {
                    0
                },
            ),
        }
    }

    /// The children that are stopped before a restart of one.
    pub open spec fn to_stop(self, id: Seq<char>) -> Seq<Seq<char>> {
        match self.flags.strategy {
            Strategy::OneForOne => Seq::empty(),
            _ => self.concerned(id),
        }
    }

    /// The supervisor after a child's process ended at `now`.
    pub open spec fn after_exit(self, pid: Pid, reason: ExitModel, now: Duration) -> SupervisorModel<
        F,
    > {
        let noted = self.noted_exit(pid);
        let times = recent(self.restarts, now, self.flags.max_seconds);
        if !self.calls_for_restart(pid, reason) {
            noted
        } else if !self.may_restart(now) {
            SupervisorModel { restarts: times, ..noted }
        } else {
            let id = self.pids[pid];
            SupervisorModel {
                restarts: times.push(now),
                pending: self.concerned(id),
                ..noted
            }.without_children(self.to_stop(id))
        }
    }

    /// What is stopped after a child's process ended.
    pub open spec fn stops_after_exit(self, pid: Pid) -> Seq<StopChild> {
        self.noted_exit(pid).stops_of(self.to_stop(self.pids[pid]))
    }

    /// The supervisor after the next child was started.
    pub open spec fn started(self, pid: Pid, monitor_ref: Ref) -> SupervisorModel<F> {
        let id = self.pending[0];
        SupervisorModel {
            children: self.children.insert(
                id,
                ChildModel {
                    pid: Some(pid),
                    monitor_ref: Some(monitor_ref),
                    ..self.children[id]
                },
            ),
            pids: self.pids.insert(pid, id),
            pending: self.pending.drop_first(),
            ..self
        }
    }
}

/// What a supervisor does about the end of a process.
#[derive(Debug)]
pub enum ExitPlan {
    /// Nothing: the process was no child, or is not to be restarted.
    Carry,
    /// It gives up, for the reason.
    GiveUp(ExitReason),
    /// It stops the children, in order, and starts the pending ones.
    Restart(Vec<StopChild>),
}

/// A supervisor.
pub struct SupervisorState<F> {
    flags: SupervisorFlags,
    children: Table<String, ChildState<F>>,
    child_order: Vec<String>,
    pid_to_id: Table<Pid, String>,
    restart_times: Vec<Duration>,
    pending: Vec<String>,
    restarting: bool,
}

impl<F> SupervisorState<F> {
    /// What the supervisor is.
    pub closed spec fn model(&self) -> SupervisorModel<F> {
        SupervisorModel {
            flags: self.flags,
            children: self.children.deep_view(),
            order: self.child_order.deep_view(),
            pids: self.pid_to_id.deep_view(),
            restarts: self.restart_times@,
            pending: self.pending.deep_view(),
        }
    }

    /// Whether the pending children were restarted one by one. If not, they are
    /// all started.
    pub closed spec fn one_by_one(&self) -> bool {
        self.restarting
    }

    /// A supervisor that is about to start its children.
    pub fn new(init: SupervisorInit<F>) -> (r: Self)
        ensures
            r.model() == initial(init.flags, init.children@),
            !r.one_by_one(),
    {
        let ghost specs = init.children@;
        let ghost ids = specs.map_values(|spec: ChildSpec<F>| spec.id@);
        let mut rest = init.children;
        let mut children: Table<String, ChildState<F>> = Table::new();
        let mut child_order: Vec<String> = Vec::new();
        let mut pending: Vec<String> = Vec::new();
        assert(specs.take(0) =~= Seq::empty());
        while rest.len() > 0
            invariant
                rest.len() <= specs.len(),
                rest@ == specs.skip(specs.len() - rest.len()),
                ids == specs.map_values(|spec: ChildSpec<F>| spec.id@),
                children.deep_view() == children_from(specs.take(specs.len() - rest.len())),
                child_order.deep_view() == ids.take(specs.len() - rest.len()),
                pending.deep_view() == ids.take(specs.len() - rest.len()),
            decreases rest.len(),
        {
            let ghost i = specs.len() - rest.len();
            let spec = rest.remove(0);
            proof {
                assert(spec == specs[i]);
                assert(rest@ =~= specs.skip(i + 1));
                assert(specs.take(i + 1).drop_last() =~= specs.take(i));
                assert(specs.take(i + 1).last() == spec);
            }
            push_one(&mut child_order, spec.id.clone());
            push_one(&mut pending, spec.id.clone());
            children.insert(spec.id.clone(), ChildState { spec, pid: None, monitor_ref: None });
            proof {
                assert(child_order.deep_view() =~= ids.take(i + 1));
                assert(pending.deep_view() =~= ids.take(i + 1));
            }
        }
        proof {
            assert(specs.take(specs.len() as int) =~= specs);
            assert(ids.take(specs.len() as int) =~= ids);
        }
        SupervisorState {
            flags: init.flags,
            children,
            child_order,
            pid_to_id: Table::new(),
            restart_times: Vec::new(),
            pending,
            restarting: false,
        }
    }

    /// Handles the end of a process, at time `now`.
    pub fn handle_child_exit(&mut self, pid: Pid, reason: ExitReason, now: Duration) -> (r: ExitPlan)
        ensures
            final(self).model() == old(self).model().after_exit(pid, reason.deep_view(), now),
            ({
                let before = old(self).model();
                if !before.calls_for_restart(pid, reason.deep_view()) {
                    &&& r is Carry
                    &&& final(self).one_by_one() == old(self).one_by_one()
                } else if !before.may_restart(now) {
                    &&& r matches ExitPlan::GiveUp(why)
                    &&& why.deep_view() == ExitModel::Error("max restart intensity reached"@)
                    &&& final(self).one_by_one() == old(self).one_by_one()
                } else {
                    &&& r matches ExitPlan::Restart(stops)
                    &&& stops@ == before.stops_after_exit(pid)
                    &&& final(self).one_by_one() == !(before.flags.strategy is OneForAll)
                }
            }),
    {
        let ghost before = self.model();
        let id = match self.pid_to_id.remove(&pid) {
            Some(id) => id,
            None => {
                assert(before.pids.remove(pid) =~= before.pids);
                return ExitPlan::Carry;
            },
        };
        let should_restart = match self.children.remove(&id) {
            Some(child) => {
                let mut child = child;
                child.pid = None;
                child.monitor_ref = None;
                let should_restart = child.spec.restart.should_restart(&reason);
                self.children.insert(id.clone(), child);
                assert(self.model().children =~= before.noted_exit(pid).children);
                should_restart
            },
            None => {
                return ExitPlan::Carry;
            },
        };
        if !should_restart {
            return ExitPlan::Carry;
        }
        let max_restarts: u32 = self.flags.max_restarts;
        let max_seconds: u32 = self.flags.max_seconds;
        if !allow_restart(&mut self.restart_times, now, max_restarts, max_seconds) {
            return ExitPlan::GiveUp(ExitReason::error("max restart intensity reached"));
        }
        match self.flags.strategy {
            Strategy::OneForOne => {
                self.restarting = true;
                self.pending = vec![id];
                proof {
                    assert(self.pending.deep_view() =~= seq![id@]);
                    assert(before.to_stop(id@).len() == 0);
                }
                let stops: Vec<StopChild> = Vec::new();
                assert(stops@ =~= before.stops_after_exit(pid));
                ExitPlan::Restart(stops)
            },
            Strategy::OneForAll => {
                self.restarting = false;
                self.pending = self.child_order.duplicate();
                let ids = self.child_order.duplicate();
                let ghost m = self.model();
                let stops = self.terminate_children(ids);
                proof {
                    lemma_stops_agree(before.noted_exit(pid), m, before.order);
                }
                ExitPlan::Restart(stops)
            },
            Strategy::RestForOne => {
                self.restarting = true;
                let pos: usize = match position(&self.child_order, &id) {
                    Some(pos) => pos,
                    None => 0,
                };
                proof {
                    before.order.index_of_first_ensures(id@);
                }
                let ids = ids_from(&self.child_order, pos);
                self.pending = ids.duplicate();
                let ghost m = self.model();
                let stops = self.terminate_children(ids);
                proof {
                    lemma_stops_agree(before.noted_exit(pid), m, before.concerned(id@));
                }
                ExitPlan::Restart(stops)
            },
        }
    }

    /// Stops all children, the last one first.
    pub fn terminate_all_children(&mut self) -> (r: Vec<StopChild>)
        ensures
            final(self).model() == old(self).model().without_children(old(self).model().order),
            r@ == old(self).model().stops_of(old(self).model().order),
            final(self).one_by_one() == old(self).one_by_one(),
    {
        let ids = self.child_order.duplicate();
        self.terminate_children(ids)
    }

    fn terminate_children(&mut self, ids: Vec<String>) -> (r: Vec<StopChild>)
        ensures
            final(self).model() == old(self).model().without_children(ids.deep_view()),
            r@ == old(self).model().stops_of(ids.deep_view()),
            final(self).one_by_one() == old(self).one_by_one(),
    {
        let ghost before = self.model();
        let ghost all = ids.deep_view();
        let mut stops: Vec<StopChild> = Vec::new();
        let mut i: usize = ids.len();
        assert(all.take(i as int) =~= all);
        assert(stops@ + before.stops_of(all) =~= before.stops_of(all));
        while i > 0
            invariant
                i <= ids.len(),
                all == ids.deep_view(),
                self.model().without_children(all.take(i as int)) == before.without_children(all),
                stops@ + self.model().stops_of(all.take(i as int)) == before.stops_of(all),
                self.one_by_one() == old(self).one_by_one(),
            decreases i,
        {
            i -= 1;
            let ghost m = self.model();
            let ghost so_far = stops@;
            proof {
                assert(all.take(i + 1).drop_last() =~= all.take(i as int));
                assert(all.take(i + 1).last() == all[i as int]);
                assert(all[i as int] == ids@[i as int]@);
            }
            if let Some(stop) = self.terminate_child_by_id(&ids[i]) {
                stops.push(stop);
            }
            proof {
                assert(stops@ =~= so_far + m.stop_of(all[i as int]));
                assert(stops@ + self.model().stops_of(all.take(i as int)) =~= so_far + (m.stop_of(
                    all[i as int],
                ) + self.model().stops_of(all.take(i as int))));
            }
        }
        assert(self.model().stops_of(all.take(0)) =~= Seq::empty());
        assert(stops@ + Seq::<StopChild>::empty() =~= stops@);
        stops
    }

    /// Stops a child, if it runs.
    pub fn terminate_child_by_id(&mut self, id: &String) -> (r: Option<StopChild>)
        ensures
            final(self).model() == old(self).model().without_child(id@),
            match r {
                Some(stop) => old(self).model().stop_of(id@) == seq![stop],
                None => old(self).model().stop_of(id@) == Seq::<StopChild>::empty(),
            },
            match r {
                Some(stop) => {
                    let child = old(self).model().children[id@];
                    &&& old(self).model().children.contains_key(id@)
                    &&& child.pid == Some(stop.pid)
                    &&& child.monitor_ref == stop.monitor_ref
                    &&& child.shutdown == stop.shutdown
                },
                None => !(old(self).model().children.contains_key(id@) && old(
                    self,
                ).model().children[id@].pid is Some),
            },
            final(self).one_by_one() == old(self).one_by_one(),
    {
        let ghost before = self.model();
        match self.children.remove(id) {
            Some(child) => {
                let mut child = child;
                match child.pid {
                    Some(pid) => {
                        let stop = StopChild {
                            pid,
                            monitor_ref: child.monitor_ref,
                            shutdown: child.spec.shutdown,
                        };
                        child.pid = None;
                        child.monitor_ref = None;
                        self.children.insert(id.clone(), child);
                        self.pid_to_id.remove(&pid);
                        assert(self.model().children =~= before.without_child(id@).children);
                        Some(stop)
                    },
                    None => {
                        self.children.insert(id.clone(), child);
                        assert(self.model().children =~= before.children);
                        None
                    },
                }
            },
            None => None,
        }
    }

    /// The child that is to be started next, with what starts it.
    pub fn next_start(&self) -> (r: Option<(&String, &F)>)
        requires
            self.model().sound(),
        ensures
            match r {
                Some((id, start)) => {
                    &&& self.model().pending.len() > 0
                    &&& id@ == self.model().pending[0]
                    &&& *start == self.model().children[id@].start
                },
                None => self.model().pending.len() == 0,
            },
    {
        if self.pending.len() == 0 {
            return None;
        }
        let id = &self.pending[0];
        assert(self.model().pending[0] == id@);
        match self.children.get(id) {
            Some(child) => Some((id, &child.spec.start)),
            None => None,
        }
    }

    /// Takes in how the start of the next child went: its process and monitor,
    /// or why it failed. A failure ends the starting, and the supervisor with it.
    pub fn start_child(&mut self, outcome: Result<(Pid, Ref), String>) -> (r: Result<
        Pid,
        ExitReason,
    >)
        requires
            old(self).model().sound(),
            old(self).model().pending.len() > 0,
        ensures
            final(self).one_by_one() == old(self).one_by_one(),
            match outcome {
                Ok((pid, monitor_ref)) => {
                    &&& r == Ok::<Pid, ExitReason>(pid)
                    &&& final(self).model() == old(self).model().started(pid, monitor_ref)
                },
                Err(failure) => {
                    &&& r matches Err(why)
                    &&& why.deep_view() == ExitModel::Error(
                        start_failure(
                            old(self).model().pending[0],
                            old(self).one_by_one(),
                            failure@,
                        ),
                    )
                    &&& final(self).model() == (SupervisorModel {
                        pending: Seq::empty(),
                        ..old(self).model()
                    })
                },
            },
    {
        let ghost before = self.model();
        assert(before.pending[0] == self.pending@[0]@);
        let id = self.pending.remove(0);
        assert(self.pending.deep_view() =~= before.pending.drop_first());
        match outcome {
            Ok((pid, monitor_ref)) => {
                if let Some(child) = self.children.remove(&id) {
                    let mut child = child;
                    child.pid = Some(pid);
                    child.monitor_ref = Some(monitor_ref);
                    self.children.insert(id.clone(), child);
                }
                self.pid_to_id.insert(pid, id);
                assert(self.model().children =~= before.started(pid, monitor_ref).children);
                Ok(pid)
            },
            Err(failure) => {
                self.pending = Vec::new();
                assert(self.pending.deep_view() =~= Seq::empty());
                let verb = if self.restarting {
                    "' failed to restart: "
                } else {
                    "' failed to start: "
                };
                let why = join3("child '", id.as_str(), verb).concat(failure.as_str());
                Err(ExitReason::Error(why))
            },
        }
    }

    /// How many children there are, and how many of which kind run.
    pub fn count_children(&self) -> (r: ChildCounts)
        ensures
            self.model().children.dom().finite(),
            r.specs == self.model().children.dom().len(),
            r.active == keys_where(self.model().children, is_active()).len(),
            r.supervisors == keys_where(
                self.model().children,
                is_active_kind(ChildType::Supervisor),
            ).len(),
            r.workers == keys_where(
                self.model().children,
                is_active_kind(ChildType::Worker),
            ).len(),
    {
        let ghost rows = self.children.rows();
        let n: usize = self.children.len();
        let mut counts = ChildCounts { specs: n, active: 0, supervisors: 0, workers: 0 };
        let mut i: usize = 0;
        assert(rows.take(0) =~= Seq::empty());
        while i < n
            invariant
                i <= n,
                n == rows.len(),
                rows == self.children.rows(),
                counts.specs == n,
                counts.active <= i,
                counts.supervisors <= i,
                counts.workers <= i,
                counts.active == rows_where(rows.take(i as int), is_active()),
                counts.supervisors == rows_where(
                    rows.take(i as int),
                    is_active_kind(ChildType::Supervisor),
                ),
                counts.workers == rows_where(
                    rows.take(i as int),
                    is_active_kind(ChildType::Worker),
                ),
            decreases n - i,
        {
            let child = self.children.value_at(i);
            proof {
                assert(rows.take(i + 1).drop_last() =~= rows.take(i as int));
                assert(rows.take(i + 1).last() == rows[i as int]);
            }
            if child.pid.is_some() {
                counts.active = counts.active + 1;
                match child.spec.child_type {
                    ChildType::Supervisor => {
                        counts.supervisors = counts.supervisors + 1;
                    },
                    ChildType::Worker => {
                        counts.workers = counts.workers + 1;
                    },
                }
            }
            i += 1;
        }
        proof {
            assert(rows.take(n as int) =~= rows);
            lemma_rows_where(rows, is_active());
            lemma_rows_where(rows, is_active_kind(ChildType::Supervisor));
            lemma_rows_where(rows, is_active_kind(ChildType::Worker));
        }
        counts
    }

    /// What is known of the children, in no particular order.
    pub fn which_children(&self) -> (r: Vec<ChildInfo>)
        requires
            self.model().sound(),
        ensures
            r.deep_view().no_duplicates(),
            r.deep_view().to_set() == self.model().infos(),
    {
        let ghost rows = self.children.rows();
        let n: usize = self.children.len();
        let mut r: Vec<ChildInfo> = Vec::new();
        let mut i: usize = 0;
        while i < n
            invariant
                i <= n,
                n == rows.len(),
                rows == self.children.rows(),
                r.deep_view().len() == i,
                forall|j: int| 0 <= j < i ==> #[trigger] r.deep_view()[j] == info_of(rows[j].1),
            decreases n - i,
        {
            let child = self.children.value_at(i);
            push_one(
                &mut r,
                ChildInfo {
                    id: child.spec.id.clone(),
                    pid: child.pid,
                    child_type: child.spec.child_type,
                },
            );
            i += 1;
        }
        proof {
            lemma_rows_map(rows);
            let all = r.deep_view();
            let m = self.model();
            assert forall|a: int, b: int|
                0 <= a < all.len() && 0 <= b < all.len() && a != b implies all[a] != all[b] by {
                assert(m.children.contains_key(rows[a].0) && m.children.contains_key(rows[b].0));
                assert(all[a].id == rows[a].0 && all[b].id == rows[b].0);
            }
            assert forall|x: InfoModel| all.to_set().contains(x) <==> #[trigger] m.infos().contains(
                x,
            ) by {
                if all.to_set().contains(x) {
                    let j = choose|j: int| 0 <= j < all.len() && all[j] == x;
                    assert(m.children.contains_key(rows[j].0));
                }
                if m.infos().contains(x) {
                    let id = choose|id: Seq<char>| #[trigger]
                        m.children.contains_key(id) && x == info_of(m.children[id]);
                    assert(all[place_of(rows, id)] == x);
                }
            }
            assert(all.to_set() =~= m.infos());
        }
        r
    }

    /// Handles what came to the supervisor's mailbox, at time `now`: a message
    /// of the runtime, something else, or nothing more at all.
    pub fn handle_event(&mut self, event: SupervisorEvent, now: Duration) -> (r: SupervisorStep)
        ensures
            final(self).one_by_one() == (match event {
                SupervisorEvent::Message(SystemMessage::Down { monitor_ref, pid, reason }) => {
                    let before = old(self).model();
                    if before.calls_for_restart(pid, reason.deep_view()) && before.may_restart(
                        now,
                    ) {
                        !(before.flags.strategy is OneForAll)
                    } else {
                        old(self).one_by_one()
                    }
                },
                _ => old(self).one_by_one(),
            }),
            match event {
                SupervisorEvent::Message(SystemMessage::Down { monitor_ref, pid, reason }) => {
                    let before = old(self).model();
                    let after = before.after_exit(pid, reason.deep_view(), now);
                    if !before.calls_for_restart(pid, reason.deep_view()) {
                        &&& r matches SupervisorStep::Continue(stops)
                        &&& stops@ == Seq::<StopChild>::empty()
                        &&& final(self).model() == after
                    } else if before.may_restart(now) {
                        &&& r matches SupervisorStep::Continue(stops)
                        &&& stops@ == before.stops_after_exit(pid)
                        &&& final(self).model() == after
                    } else {
                        &&& r matches SupervisorStep::Terminate(stops)
                        &&& stops@ == after.stops_of(after.order)
                        &&& final(self).model() == after.without_children(after.order)
                    }
                },
                SupervisorEvent::Other => {
                    &&& r matches SupervisorStep::Continue(stops)
                    &&& stops@ == Seq::<StopChild>::empty()
                    &&& final(self).model() == old(self).model()
                },
                _ => {
                    &&& r matches SupervisorStep::Terminate(stops)
                    &&& stops@ == old(self).model().stops_of(old(self).model().order)
                    &&& final(self).model() == old(self).model().without_children(
                        old(self).model().order,
                    )
                },
            },
    {
        match event {
            SupervisorEvent::Message(SystemMessage::Down { monitor_ref, pid, reason }) => {
                match self.handle_child_exit(pid, reason, now) {
                    ExitPlan::Carry => SupervisorStep::Continue(Vec::new()),
                    ExitPlan::GiveUp(_) => SupervisorStep::Terminate(self.terminate_all_children()),
                    ExitPlan::Restart(stops) => SupervisorStep::Continue(stops),
                }
            },
            SupervisorEvent::Other => SupervisorStep::Continue(Vec::new()),
            _ => SupervisorStep::Terminate(self.terminate_all_children()),
        }
    }
}

/// What comes to a supervisor's mailbox.
#[derive(Debug)]
pub enum SupervisorEvent {
    /// A message of the runtime.
    Message(SystemMessage),
    /// Something else.
    Other,
    /// Nothing more: the mailbox was closed.
    Closed,
}

impl SupervisorEvent {
    /// What bytes in a supervisor's mailbox are.
    pub fn read(atoms: &mut AtomTable, data: &[u8]) -> (r: SupervisorEvent)
        requires
            old(atoms).well_formed(),
            old(atoms).room_for(1),
        ensures
            final(atoms).well_formed(),
            match PortableSystem::read(data@) {
                Some((model, rest)) => {
                    &&& r matches SupervisorEvent::Message(m)
                    &&& final(atoms)@ == after_reading_system(old(atoms)@, model)
                    &&& knows_system(final(atoms), m.deep_view())
                    &&& portable_system(final(atoms), m.deep_view()) == model
                },
                None => r is Other && final(atoms)@ == old(atoms)@,
            },
    {
        match SystemMessage::decode(atoms, data) {
            Some(message) => SupervisorEvent::Message(message),
            None => SupervisorEvent::Other,
        }
    }
}

/// How a supervisor goes on.
#[derive(Debug)]
pub enum SupervisorStep {
    /// It stops the children, starts the pending ones, and waits for what comes next.
    Continue(Vec<StopChild>),
    /// It stops the children, and ends.
    Terminate(Vec<StopChild>),
}

/// Why a child could not be started.
pub open spec fn start_failure(id: Seq<char>, restart: bool, failure: Seq<char>) -> Seq<char> {
    "child '"@ + id + (if restart {
        "' failed to restart: "@
    } else {
        "' failed to start: "@
    }) + failure
}

/// Selects the children that run.
pub open spec fn is_active<F>() -> spec_fn(ChildModel<F>) -> bool {
    |child: ChildModel<F>| child.pid is Some
}

/// Selects the children of a kind that run.
pub open spec fn is_active_kind<F>(kind: ChildType) -> spec_fn(ChildModel<F>) -> bool {
    |child: ChildModel<F>| child.pid is Some && child.child_type == kind
}

/// What is known of a child.
pub open spec fn info_of<F>(child: ChildModel<F>) -> InfoModel {
    InfoModel { id: child.id, pid: child.pid, child_type: child.child_type }
}

impl<F> SupervisorModel<F> {
    /// What is known of the children.
    pub open spec fn infos(self) -> Set<InfoModel> {
        Set::new(
            |x: InfoModel|
                exists|id: Seq<char>| #[trigger]
                    self.children.contains_key(id) && x == info_of(self.children[id]),
        )
    }

    /// Every name in the order, among the pending ones and behind a process is
    /// that of a child, and every child has its name and its place in the order.
    pub open spec fn sound(self) -> bool {
        &&& forall|i: int|
            0 <= i < self.order.len() ==> self.children.contains_key(#[trigger] self.order[i])
        &&& forall|i: int|
            0 <= i < self.pending.len() ==> self.children.contains_key(#[trigger] self.pending[i])
        &&& forall|pid: Pid| #[trigger]
            self.pids.contains_key(pid) ==> self.children.contains_key(self.pids[pid])
        &&& forall|id: Seq<char>| #[trigger]
            self.children.contains_key(id) ==> self.children[id].id == id && self.order.contains(
                id,
            )
    }
}

proof fn lemma_stops_agree<F>(
    a: SupervisorModel<F>,
    b: SupervisorModel<F>,
    ids: Seq<Seq<char>>,
)
    requires
        a.children == b.children,
        a.pids == b.pids,
    ensures
        a.stops_of(ids) == b.stops_of(ids),
    decreases ids.len(),
{
    if ids.len() > 0 {
        lemma_stops_agree(a.without_child(ids.last()), b.without_child(ids.last()), ids.drop_last());
    }
}

fn ids_from(ids: &Vec<String>, pos: usize) -> (r: Vec<String>)
    requires
        pos <= ids.len(),
    ensures
        r.deep_view() == ids.deep_view().skip(pos as int),
{
    let ghost all = ids.deep_view();
    let mut r: Vec<String> = Vec::new();
    let mut i: usize = pos;
    assert(r.deep_view() =~= all.subrange(pos as int, pos as int));
    while i < ids.len()
        invariant
            pos <= i <= ids.len(),
            all == ids.deep_view(),
            r.deep_view() == all.subrange(pos as int, i as int),
        decreases ids.len() - i,
    {
        push_one(&mut r, ids[i].clone());
        assert(r.deep_view() =~= all.subrange(pos as int, i + 1));
        i += 1;
    }
    assert(all.subrange(pos as int, all.len() as int) =~= all.skip(pos as int));
    r
}

/// Sets up a supervisor, which is about to start its children.
pub fn start<S: Supervisor>(arg: S::InitArg) -> (r: SupervisorState<S::Start>)
    requires
        call_requires(S::init, (arg,)),
    ensures
        exists|init: SupervisorInit<S::Start>|
            call_ensures(S::init, (arg,), init) && r.model() == #[trigger] initial(
                init.flags,
                init.children@,
            ),
        !r.one_by_one(),
{
    let init = S::init(arg);
    SupervisorState::new(init)
}

/// What a supervisor is when it has just been set up.
pub open spec fn initial<F>(flags: SupervisorFlags, specs: Seq<ChildSpec<F>>) -> SupervisorModel<
    F,
> {
    SupervisorModel {
        flags,
        children: children_from(specs),
        order: specs.map_values(|spec: ChildSpec<F>| spec.id@),
        pids: Map::empty(),
        restarts: Seq::empty(),
        pending: specs.map_values(|spec: ChildSpec<F>| spec.id@),
    }
}

/// What starting a supervisor came to, from whether it lives a moment later.
pub fn start_outcome(pid: Pid, alive: bool) -> (r: Result<Pid, StartError>)
    ensures
        alive ==> r == Ok::<Pid, StartError>(pid),
        !alive ==> (r matches Err(StartError::InitFailed(e)) && e@
            == "supervisor died during init"@),
{
    if alive {
        Ok(pid)
    } else {
        Err(StartError::InitFailed("supervisor died during init".to_owned()))
    }
}

/// What is known of the children of a supervisor elsewhere, which is not offered.
pub fn which_children(sup: Pid) -> (r: Result<Vec<ChildInfo>, String>)
    ensures
        r matches Err(e) && e@ == "which_children not yet implemented"@,
{
    Err("which_children not yet implemented".to_owned())
}

/// How many children a supervisor elsewhere has, which is not offered.
pub fn count_children(sup: Pid) -> (r: Result<ChildCounts, String>)
    ensures
        r matches Err(e) && e@ == "count_children not yet implemented"@,
{
    Err("count_children not yet implemented".to_owned())
}

/// Terminates a child of a supervisor elsewhere, which is not offered.
pub fn terminate_child(sup: Pid, id: &str) -> (r: Result<(), TerminateError>)
    ensures
        r matches Err(TerminateError::NotFound(e)) && e@ == "not implemented"@,
{
    Err(TerminateError::NotFound("not implemented".to_owned()))
}

/// Deletes a child of a supervisor elsewhere, which is not offered.
pub fn delete_child(sup: Pid, id: &str) -> (r: Result<(), DeleteError>)
    ensures
        r matches Err(DeleteError::NotFound(e)) && e@ == "not implemented"@,
{
    Err(DeleteError::NotFound("not implemented".to_owned()))
}

} // verus!
