//! A supervisor whose children come and go, known by their processes.
use crate::base::exit_reason::{ExitModel, ExitReason};
use crate::base::message::SystemMessage;
use crate::base::pid::Pid;
use crate::base::reference::Ref;
use crate::data::push_one;
use crate::directory::Directory;
use crate::runtime::context::alive;
use crate::runtime::process::ProcessesModel;
use crate::supervisor::intensity::{allow_restart, recent, within};
use crate::supervisor::laws::{followed_up, stopped_child_ends};
use crate::supervisor::supervisor::{StopChild, SupervisorEvent};
use crate::supervisor::types::{
    ChildCounts, ChildInfo, ChildSpec, ChildType, InfoModel, StartChildError,
};
use crate::table::{
    distinct_keys, keys_where, lemma_rows_map, lemma_rows_where, row_keys, rows_map, rows_where,
};
use crate::text::{decimal, join2, numeral};
use crate::time::Duration;
use vstd::prelude::*;

verus! {

/// How a dynamic supervisor is set up.
#[derive(Clone, Copy, Debug, PartialEq, Eq, Structural)]
pub struct DynamicSupervisorOpts {
    /// How many restarts are allowed in the time period.
    pub max_restarts: u32,
    /// The time period, in seconds.
    pub max_seconds: u32,
}

impl Default for DynamicSupervisorOpts {
    fn default() -> (r: Self)
        ensures
            r == (DynamicSupervisorOpts { max_restarts: 3, max_seconds: 5 }),
    {
        DynamicSupervisorOpts { max_restarts: 3, max_seconds: 5 }
    }
}

impl DynamicSupervisorOpts {
    /// Three restarts in five seconds.
    pub fn new() -> (r: Self)
        ensures
            r == (DynamicSupervisorOpts { max_restarts: 3, max_seconds: 5 }),
    {
        DynamicSupervisorOpts::default()
    }

    /// Sets how many restarts are allowed.
    pub fn max_restarts(self, max: u32) -> (r: Self)
        ensures
            r == (DynamicSupervisorOpts { max_restarts: max, ..self }),
    {
        DynamicSupervisorOpts { max_restarts: max, ..self }
    }

    /// Sets the time period in which restarts are counted.
    pub fn max_seconds(self, secs: u32) -> (r: Self)
        ensures
            r == (DynamicSupervisorOpts { max_seconds: secs, ..self }),
    {
        DynamicSupervisorOpts { max_seconds: secs, ..self }
    }
}

/// A child that runs.
pub struct DynamicChild<F> {
    /// How the child is set up.
    pub spec: ChildSpec<F>,
    /// The monitor of the child's process.
    pub monitor_ref: Ref,
}

/// What a child that runs is.
pub struct DynamicChildModel<F> {
    pub spec: ChildSpec<F>,
    pub monitor_ref: Ref,
}

impl<F> DeepView for DynamicChild<F> {
    type V = DynamicChildModel<F>;

    open spec fn deep_view(&self) -> DynamicChildModel<F> {
        DynamicChildModel { spec: self.spec, monitor_ref: self.monitor_ref }
    }
}

/// What a dynamic supervisor holds: its setup, its children by process, the
/// processes by monitor, the times of restarts, and whether it is shutting down.
pub struct DynamicModel<F> {
    pub opts: DynamicSupervisorOpts,
    pub children: Map<Pid, DynamicChildModel<F>>,
    pub monitors: Map<Ref, Pid>,
    pub restarts: Seq<Duration>,
    pub shutdown: bool,
}

/// The monitors of children.
pub open spec fn monitors_of<F>(children: Map<Pid, DynamicChildModel<F>>) -> Set<Ref> {
    Set::new(
        |r: Ref|
            exists|pid: Pid| #[trigger]
                children.contains_key(pid) && children[pid].monitor_ref == r,
    )
}

/// What stops a child.
pub open spec fn stop_of<F>(pid: Pid, child: DynamicChildModel<F>) -> StopChild {
    StopChild {
        pid,
        monitor_ref: Some(child.monitor_ref),
        shutdown: child.spec.shutdown,
    }
}

/// What stops all children.
pub open spec fn stops_of<F>(children: Map<Pid, DynamicChildModel<F>>) -> Set<StopChild> {
    Set::new(
        |s: StopChild|
            exists|pid: Pid| #[trigger]
                children.contains_key(pid) && s == stop_of(pid, children[pid]),
    )
}

impl<F> DynamicModel<F> {
    /// Without a child.
    pub open spec fn without_child(self, pid: Pid) -> DynamicModel<F> {
        if self.children.contains_key(pid) {
            DynamicModel {
                children: self.children.remove(pid),
                monitors: self.monitors.remove(self.children[pid].monitor_ref),
                ..self
            }
        } else {
            self
        }
    }

    /// With one child more.
    pub open spec fn with_child(self, spec: ChildSpec<F>, pid: Pid, monitor_ref: Ref)
        -> DynamicModel<F> {
        DynamicModel {
            children: self.children.insert(pid, DynamicChildModel { spec, monitor_ref }),
            monitors: self.monitors.insert(monitor_ref, pid),
            ..self
        }
    }

    /// Shutting down, with no child left.
    pub open spec fn shut_down(self) -> DynamicModel<F> {
        DynamicModel {
            children: Map::empty(),
            monitors: self.monitors.remove_keys(monitors_of(self.children)),
            shutdown: true,
            ..self
        }
    }

    /// Whether the end of a process calls for a restart.
    pub open spec fn calls_for_restart(self, pid: Pid, reason: ExitModel) -> bool {
        self.children.contains_key(pid) && self.children[pid].spec.restart.wants_restart(reason)
    }

    /// Whether a restart at `now` is within the limit.
    pub open spec fn may_restart(self, now: Duration) -> bool {
        recent(self.restarts, now, self.opts.max_seconds).len() < self.opts.max_restarts
    }

    /// The supervisor after a process ended at `now`.
    pub open spec fn after_exit(self, pid: Pid, reason: ExitModel, now: Duration) -> DynamicModel<
        F,
    > {
        let times = recent(self.restarts, now, self.opts.max_seconds);
        if !self.calls_for_restart(pid, reason) {
            self.without_child(pid)
        } else {
            DynamicModel {
                restarts: if self.may_restart(now) {
                    times.push(now)
                } else {
                    times
                },
                ..self.without_child(pid)
            }
        }
    }
}

/// What a dynamic supervisor does about the end of a process.
pub enum DynamicPlan<F> {
    /// Nothing: the process was no child, or is not to be restarted.
    Carry,
    /// It gives up, for the reason.
    GiveUp(ExitReason),
    /// It starts the child again.
    Restart(ChildSpec<F>),
}

/// How a dynamic supervisor goes on.
pub enum DynamicStep<F> {
    /// It waits for what comes next.
    Continue,
    /// It starts the child again, and waits for what comes next.
    Restart(ChildSpec<F>),
    /// It stops the children, and ends.
    Terminate(Vec<StopChild>),
}

/// A dynamic supervisor.
pub struct DynamicSupervisor<F> {
    opts: DynamicSupervisorOpts,
    children: Directory<Pid, DynamicChild<F>>,
    monitor_to_pid: Directory<Ref, Pid>,
    restart_times: Vec<Duration>,
    shutdown: bool,
}

impl<F> DynamicSupervisor<F> {
    /// What the supervisor is.
    pub closed spec fn model(&self) -> DynamicModel<F> {
        DynamicModel {
            opts: self.opts,
            children: self.children.deep_view(),
            monitors: self.monitor_to_pid.deep_view(),
            restarts: self.restart_times@,
            shutdown: self.shutdown,
        }
    }

    /// The directories are in order.
    pub closed spec fn well_formed(&self) -> bool {
        self.children.well_formed() && self.monitor_to_pid.well_formed()
    }

    /// A supervisor without children.
    pub fn new(opts: DynamicSupervisorOpts) -> (r: Self)
        ensures
            r.well_formed(),
            r.model() == (DynamicModel::<F> {
                opts,
                children: Map::empty(),
                monitors: Map::empty(),
                restarts: Seq::empty(),
                shutdown: false,
            }),
    {
        DynamicSupervisor {
            opts,
            children: Directory::new(),
            monitor_to_pid: Directory::new(),
            restart_times: Vec::new(),
            shutdown: false,
        }
    }

    /// Whether a child may be started: not while the supervisor is shutting down.
    pub fn may_start_child(&self) -> (r: Result<(), StartChildError>)
        ensures
            match r {
                Ok(_) => !self.model().shutdown,
                Err(e) => self.model().shutdown && (e matches StartChildError::Failed(msg) && msg@
                    == "supervisor is shutting down"@),
            },
    {
        if self.shutdown {
            return Err(StartChildError::Failed("supervisor is shutting down".to_owned()));
        }
        Ok(())
    }

    /// Takes in a child that was started, with its monitor.
    pub fn child_started(&mut self, spec: ChildSpec<F>, pid: Pid, monitor_ref: Ref)
        requires
            old(self).well_formed(),
        ensures
            final(self).well_formed(),
            final(self).model() == old(self).model().with_child(spec, pid, monitor_ref),
    {
        self.children.insert(pid, DynamicChild { spec, monitor_ref });
        self.monitor_to_pid.insert(monitor_ref, pid);
    }

    /// Handles the end of a process, at time `now`.
    pub fn handle_child_exit(&mut self, pid: Pid, reason: ExitReason, now: Duration) -> (r:
        DynamicPlan<F>)
        requires
            old(self).well_formed(),
        ensures
            final(self).well_formed(),
            final(self).model() == old(self).model().after_exit(pid, reason.deep_view(), now),
            ({
                let before = old(self).model();
                if !before.calls_for_restart(pid, reason.deep_view()) {
                    r is Carry
                } else if before.may_restart(now) {
                    r matches DynamicPlan::Restart(spec) && spec == before.children[pid].spec
                } else {
                    r matches DynamicPlan::GiveUp(why) && why.deep_view() == ExitModel::Error(
                        "max restart intensity reached"@,
                    )
                }
            }),
    {
        let child = match self.children.remove(&pid) {
            Some(child) => child,
            None => {
                return DynamicPlan::Carry;
            },
        };
        self.monitor_to_pid.remove(&child.monitor_ref);
        if !child.spec.restart.should_restart(&reason) {
            return DynamicPlan::Carry;
        }
        let max_restarts: u32 = self.opts.max_restarts;
        let max_seconds: u32 = self.opts.max_seconds;
        if !allow_restart(&mut self.restart_times, now, max_restarts, max_seconds) {
            return DynamicPlan::GiveUp(ExitReason::error("max restart intensity reached"));
        }
        DynamicPlan::Restart(child.spec)
    }

    /// Stops a child.
    pub fn do_terminate_child(&mut self, pid: Pid) -> (r: Result<StopChild, String>)
        requires
            old(self).well_formed(),
        ensures
            final(self).well_formed(),
            final(self).model() == old(self).model().without_child(pid),
            match r {
                Ok(stop) => {
                    &&& old(self).model().children.contains_key(pid)
                    &&& stop == stop_of(pid, old(self).model().children[pid])
                    &&& stop.pid == pid
                    &&& stop.monitor_ref == Some(old(self).model().children[pid].monitor_ref)
                    &&& stop.shutdown == old(self).model().children[pid].spec.shutdown
                },
                Err(e) => {
                    &&& !old(self).model().children.contains_key(pid)
                    &&& e@ == "child not found"@
                },
            },
    {
        match self.children.remove(&pid) {
            Some(child) => {
                self.monitor_to_pid.remove(&child.monitor_ref);
                Ok(
                    StopChild {
                        pid,
                        monitor_ref: Some(child.monitor_ref),
                        shutdown: child.spec.shutdown,
                    },
                )
            },
            None => Err("child not found".to_owned()),
        }
    }

    /// Stops all children, in no particular order, and allows no new ones.
    pub fn terminate_all_children(&mut self) -> (r: Vec<StopChild>)
        requires
            old(self).well_formed(),
        ensures
            final(self).well_formed(),
            final(self).model() == old(self).model().shut_down(),
            r@.no_duplicates(),
            r@.to_set() == stops_of(old(self).model().children),
    {
        let ghost before = self.model();
        self.shutdown = true;
        let pids = self.children.keys();
        let ghost order = pids.deep_view();
        let mut stops: Vec<StopChild> = Vec::new();
        let mut i: usize = 0;
        proof {
            assert(before.monitors.remove_keys(
                monitors_of(before.children.restrict(order.take(0).to_set())),
            ) =~= before.monitors);
            assert(before.children.remove_keys(order.take(0).to_set()) =~= before.children);
        }
        while i < pids.len()
            invariant
                i <= pids.len(),
                order == pids.deep_view(),
                order.no_duplicates(),
                order.to_set() == before.children.dom(),
                self.well_formed(),
                self.opts == before.opts,
                self.restart_times@ == before.restarts,
                self.shutdown,
                self.children.deep_view() == before.children.remove_keys(
                    order.take(i as int).to_set(),
                ),
                self.monitor_to_pid.deep_view() == before.monitors.remove_keys(
                    monitors_of(before.children.restrict(order.take(i as int).to_set())),
                ),
                stops.len() == i,
                forall|j: int|
                    0 <= j < i ==> #[trigger] stops@[j] == stop_of(
                        order[j],
                        before.children[order[j]],
                    ),
            decreases pids.len() - i,
        {
            let pid = pids[i];
            let ghost done = order.take(i as int).to_set();
            proof {
                assert(order[i as int] == pid);
                assert(order.to_set().contains(pid));
                assert(!done.contains(pid)) by {
                    if done.contains(pid) {
                        let j = choose|j: int| 0 <= j < i && order.take(i as int)[j] == pid;
                        assert(order[j] == order[i as int]);
                    }
                }
                assert(order.take(i + 1) =~= order.take(i as int).push(pid));
                order.take(i as int).lemma_push_to_set_commute(pid);
                assert(order.take(i + 1).to_set() =~= done.insert(pid));
            }
            if let Some(child) = self.children.remove(&pid) {
                self.monitor_to_pid.remove(&child.monitor_ref);
                stops.push(
                    StopChild {
                        pid,
                        monitor_ref: Some(child.monitor_ref),
                        shutdown: child.spec.shutdown,
                    },
                );
                proof {
                    lemma_monitors_one_more(before.children, done, pid);
                    assert(self.children.deep_view() =~= before.children.remove_keys(
                        done.insert(pid),
                    ));
                    assert(self.monitor_to_pid.deep_view() =~= before.monitors.remove_keys(
                        monitors_of(before.children.restrict(done.insert(pid))),
                    ));
                }
            }
            i += 1;
        }
        proof {
            assert(order.take(order.len() as int) =~= order);
            assert(before.children.restrict(before.children.dom()) =~= before.children);
            assert(self.children.deep_view() =~= Map::empty());
            assert(stops@.no_duplicates());
            assert forall|s: StopChild| stops@.to_set().contains(s) <==> #[trigger] stops_of(
                before.children,
            ).contains(s) by {
                if stops@.to_set().contains(s) {
                    let j = choose|j: int| 0 <= j < stops.len() && stops@[j] == s;
                    assert(order.to_set().contains(order[j]));
                }
                if stops_of(before.children).contains(s) {
                    let pid = choose|pid: Pid| #[trigger]
                        before.children.contains_key(pid) && s == stop_of(
                            pid,
                            before.children[pid],
                        );
                    assert(order.to_set().contains(pid));
                    let j = choose|j: int| 0 <= j < order.len() && order[j] == pid;
                    assert(stops@[j] == s);
                }
            }
            assert(stops@.to_set() =~= stops_of(before.children));
        }
        stops
    }

    /// How many children run, and how many of which kind.
    pub fn get_child_counts(&self) -> (r: ChildCounts)
        requires
            self.well_formed(),
        ensures
            self.model().children.dom().finite(),
            r.specs == self.model().children.dom().len(),
            r.active == r.specs,
            r.supervisors == keys_where(
                self.model().children,
                is_kind(ChildType::Supervisor),
            ).len(),
            r.workers == keys_where(self.model().children, is_kind(ChildType::Worker)).len(),
    {
        let ghost rows = self.children.rows();
        let n: usize = self.children.len();
        let mut supervisors: usize = 0;
        let mut workers: usize = 0;
        let mut i: usize = 0;
        assert(rows.take(0) =~= Seq::empty());
        while i < n
            invariant
                i <= n,
                n == rows.len(),
                rows == self.children.rows(),
                supervisors <= i,
                workers <= i,
                supervisors == rows_where(rows.take(i as int), is_kind(ChildType::Supervisor)),
                workers == rows_where(rows.take(i as int), is_kind(ChildType::Worker)),
            decreases n - i,
        {
            proof {
                assert(rows.take(i + 1).drop_last() =~= rows.take(i as int));
                assert(rows.take(i + 1).last() == rows[i as int]);
            }
            match self.children.value_at(i).spec.child_type {
                ChildType::Supervisor => {
                    supervisors = supervisors + 1;
                },
                ChildType::Worker => {
                    workers = workers + 1;
                },
            }
            i += 1;
        }
        proof {
            assert(rows.take(n as int) =~= rows);
            lemma_rows_where(rows, is_kind(ChildType::Supervisor));
            lemma_rows_where(rows, is_kind(ChildType::Worker));
        }
        ChildCounts { specs: n, active: n, supervisors, workers }
    }

    /// What is known of the children. They come in no particular order, and are
    /// named by their places.
    pub fn get_which_children(&self) -> (r: Vec<ChildInfo>)
        requires
            self.well_formed(),
        ensures
            exists|order: Seq<Pid>|
                {
                    &&& order.no_duplicates()
                    &&& order.to_set() == self.model().children.dom()
                    &&& r.deep_view() == #[trigger] infos_in(self.model().children, order)
                },
    {
        let ghost rows = self.children.rows();
        let ghost order = row_keys(rows);
        let n: usize = self.children.len();
        let mut r: Vec<ChildInfo> = Vec::new();
        let mut i: usize = 0;
        proof {
            lemma_rows_map(rows);
        }
        while i < n
            invariant
                i <= n,
                n == rows.len(),
                rows == self.children.rows(),
                distinct_keys(rows),
                order == row_keys(rows),
                self.model().children == rows_map(rows),
                r.deep_view().len() == i,
                forall|j: int|
                    0 <= j < i ==> #[trigger] r.deep_view()[j] == infos_in(
                        self.model().children,
                        order,
                    )[j],
            decreases n - i,
        {
            let child = self.children.value_at(i);
            let id = join2("child_", decimal(i as u64).as_str());
            proof {
                lemma_rows_map(rows);
                assert(order[i as int] == rows[i as int].0);
            }
            push_one(
                &mut r,
                ChildInfo {
                    id,
                    pid: Some(*self.children.key_at(i)),
                    child_type: child.spec.child_type,
                },
            );
            i += 1;
        }
        assert(r.deep_view() =~= infos_in(self.model().children, order));
        r
    }

    /// Handles what came to the supervisor's mailbox, at time `now`. The end of
    /// a process counts only where its monitor is one of the supervisor's.
    pub fn handle_event(&mut self, event: SupervisorEvent, now: Duration) -> (r: DynamicStep<F>)
        requires
            old(self).well_formed(),
        ensures
            final(self).well_formed(),
            match event {
                SupervisorEvent::Message(SystemMessage::Down { monitor_ref, pid, reason }) => {
                    let before = old(self).model();
                    let after = before.after_exit(pid, reason.deep_view(), now);
                    if !before.monitors.contains_key(monitor_ref) {
                        r is Continue && final(self).model() == before
                    } else if !before.calls_for_restart(pid, reason.deep_view()) {
                        r is Continue && final(self).model() == after
                    } else if before.may_restart(now) {
                        &&& r matches DynamicStep::Restart(spec)
                        &&& spec == before.children[pid].spec
                        &&& final(self).model() == after
                    } else {
                        &&& r matches DynamicStep::Terminate(stops)
                        &&& stops@.no_duplicates()
                        &&& stops@.to_set() == stops_of(after.children)
                        &&& final(self).model() == after.shut_down()
                    }
                },
                SupervisorEvent::Other => r is Continue && final(self).model() == old(
                    self,
                ).model(),
                _ => {
                    &&& r matches DynamicStep::Terminate(stops)
                    &&& stops@.no_duplicates()
                    &&& stops@.to_set() == stops_of(old(self).model().children)
                    &&& final(self).model() == old(self).model().shut_down()
                },
            },
    {
        match event {
            SupervisorEvent::Message(SystemMessage::Down { monitor_ref, pid, reason }) => {
                if !self.monitor_to_pid.contains_key(&monitor_ref) {
                    return DynamicStep::Continue;
                }
                match self.handle_child_exit(pid, reason, now) {
                    DynamicPlan::Carry => DynamicStep::Continue,
                    DynamicPlan::GiveUp(_) => DynamicStep::Terminate(self.terminate_all_children()),
                    DynamicPlan::Restart(spec) => DynamicStep::Restart(spec),
                }
            },
            SupervisorEvent::Other => DynamicStep::Continue,
            _ => DynamicStep::Terminate(self.terminate_all_children()),
        }
    }
}

/// Selects the children of a kind.
pub open spec fn is_kind<F>(kind: ChildType) -> spec_fn(DynamicChildModel<F>) -> bool {
    |child: DynamicChildModel<F>| child.spec.child_type == kind
}

/// What is known of children in the given order.
pub open spec fn infos_in<F>(children: Map<Pid, DynamicChildModel<F>>, order: Seq<Pid>) -> Seq<
    InfoModel,
> {
    Seq::new(
        order.len(),
        |i: int|
            InfoModel {
                id: "child_"@ + numeral(i as nat, 10),
                pid: Some(order[i]),
                child_type: children[order[i]].spec.child_type,
            },
    )
}

/// What a supervisor makes of how a restart went: one that chose not to start is
/// no failure.
pub fn restart_outcome(outcome: Result<Pid, StartChildError>) -> (r: Result<(), ExitReason>)
    ensures
        match outcome {
            Ok(_) => r is Ok,
            Err(StartChildError::Ignore) => r is Ok,
            Err(e) => r matches Err(why) && why.deep_view() == ExitModel::Error(
                "child failed to restart: "@ + e.text(),
            ),
        },
{
    match outcome {
        Ok(_) => Ok(()),
        Err(StartChildError::Ignore) => Ok(()),
        Err(e) => Err(ExitReason::Error(join2("child failed to restart: ", e.display().as_str()))),
    }
}

/// What a caller gets that asks a supervisor for its counts, if it is there.
pub fn count_children<F>(supervisor: Option<&DynamicSupervisor<F>>) -> (r: Result<
    ChildCounts,
    String,
>)
    requires
        supervisor matches Some(s) ==> s.well_formed(),
    ensures
        match supervisor {
            Some(s) => {
                &&& r matches Ok(counts)
                &&& counts.specs == s.model().children.dom().len()
                &&& counts.active == counts.specs
                &&& counts.supervisors == keys_where(
                    s.model().children,
                    is_kind(ChildType::Supervisor),
                ).len()
                &&& counts.workers == keys_where(
                    s.model().children,
                    is_kind(ChildType::Worker),
                ).len()
            },
            None => r matches Err(e) && e@ == "supervisor not found"@,
        },
{
    match supervisor {
        Some(s) => Ok(s.get_child_counts()),
        None => Err("supervisor not found".to_owned()),
    }
}

/// What a caller gets that asks a supervisor for its children, if it is there.
pub fn which_children<F>(supervisor: Option<&DynamicSupervisor<F>>) -> (r: Result<
    Vec<ChildInfo>,
    String,
>)
    requires
        supervisor matches Some(s) ==> s.well_formed(),
    ensures
        match supervisor {
            Some(s) => {
                &&& r matches Ok(infos)
                &&& exists|order: Seq<Pid>|
                    {
                        &&& order.no_duplicates()
                        &&& order.to_set() == s.model().children.dom()
                        &&& infos.deep_view() == #[trigger] infos_in(s.model().children, order)
                    }
            },
            None => r matches Err(e) && e@ == "supervisor not found"@,
        },
{
    match supervisor {
        Some(s) => Ok(s.get_which_children()),
        None => Err("supervisor not found".to_owned()),
    }
}

/// Stops a child of a supervisor, if both are there.
pub fn terminate_child<F>(supervisor: Option<&mut DynamicSupervisor<F>>, child: Pid) -> (r: Result<
    StopChild,
    String,
>)
    requires
        supervisor matches Some(s) ==> s.well_formed(),
    ensures
        match supervisor {
            Some(s) => {
                &&& final(s).well_formed()
                &&& final(s).model() == s.model().without_child(child)
                &&& match r {
                    Ok(stop) => s.model().children.contains_key(child) && stop == stop_of(
                        child,
                        s.model().children[child],
                    ),
                    Err(e) => !s.model().children.contains_key(child) && e@ == "child not found"@,
                }
            },
            None => r matches Err(e) && e@ == "supervisor not found"@,
        },
{
    match supervisor {
        Some(s) => s.do_terminate_child(child),
        None => Err("supervisor not found".to_owned()),
    }
}

/// Stops a supervisor that is there: all its children are stopped, and it starts
/// none anymore.
pub fn stop<F>(supervisor: Option<&mut DynamicSupervisor<F>>) -> (r: Vec<StopChild>)
    requires
        supervisor matches Some(s) ==> s.well_formed(),
    ensures
        match supervisor {
            Some(s) => {
                &&& final(s).well_formed()
                &&& final(s).model() == s.model().shut_down()
                &&& r@.no_duplicates()
                &&& r@.to_set() == stops_of(s.model().children)
            },
            None => r@ == Seq::<StopChild>::empty(),
        },
{
    match supervisor {
        Some(s) => s.terminate_all_children(),
        None => Vec::new(),
    }
}

/// A child that is terminated is no child anymore, so that it is not found a
/// second time and not restarted, and its process ends: at the latest when it is
/// followed up, unless it may take as long as it needs.
pub proof fn terminated_child_ends<F>(
    m: DynamicModel<F>,
    child: Pid,
    later: ProcessesModel,
    message: Seq<u8>,
)
    requires
        m.children.contains_key(child),
    ensures
        !m.without_child(child).children.contains_key(child),
        ({
            let stop = stop_of(child, m.children[child]);
            &&& stop.pid == child
            &&& !(stop.shutdown is Infinity) ==> !alive(followed_up(stop, later, message), child)
        }),
{
    stopped_child_ends(stop_of(child, m.children[child]), later, message, child);
}

/// Whether the monitors are exactly those of the children, each for its process.
pub open spec fn monitors_match<F>(m: DynamicModel<F>) -> bool {
    &&& forall|pid: Pid| #[trigger]
        m.children.contains_key(pid) ==> m.monitors.contains_key(m.children[pid].monitor_ref)
            && m.monitors[m.children[pid].monitor_ref] == pid
    &&& forall|r: Ref| #[trigger]
        m.monitors.contains_key(r) ==> m.children.contains_key(m.monitors[r])
            && m.children[m.monitors[r]].monitor_ref == r
}

/// A new child with a new monitor, the end of a process and the stop of a child
/// keep the monitors those of exactly the children.
pub proof fn monitors_stay_matched<F>(
    m: DynamicModel<F>,
    spec: ChildSpec<F>,
    pid: Pid,
    monitor_ref: Ref,
    reason: ExitModel,
    now: Duration,
)
    requires
        monitors_match(m),
    ensures
        !m.children.contains_key(pid) && !m.monitors.contains_key(monitor_ref) ==> monitors_match(
            m.with_child(spec, pid, monitor_ref),
        ),
        monitors_match(m.without_child(pid)),
        monitors_match(m.after_exit(pid, reason, now)),
{
}

/// Never are more restarts noted than the setup allows.
pub proof fn restarts_are_limited<F>(
    m: DynamicModel<F>,
    pid: Pid,
    reason: ExitModel,
    now: Duration,
)
    requires
        m.restarts.len() <= m.opts.max_restarts,
    ensures
        m.after_exit(pid, reason, now).restarts.len() <= m.opts.max_restarts,
{
    m.restarts.lemma_filter_len(within(now, m.opts.max_seconds));
}

/// A supervisor that shuts down has no child and no monitor left, and starts none.
pub proof fn shut_down_is_final<F>(m: DynamicModel<F>)
    requires
        monitors_match(m),
    ensures
        m.shut_down().children == Map::<Pid, DynamicChildModel<F>>::empty(),
        m.shut_down().monitors == Map::<Ref, Pid>::empty(),
        m.shut_down().shutdown,
{
    assert forall|r: Ref| #[trigger] m.monitors.contains_key(r) implies monitors_of(
        m.children,
    ).contains(r) by {
        assert(m.children.contains_key(m.monitors[r]));
    }
    assert(m.shut_down().monitors =~= Map::<Ref, Pid>::empty());
}

/// A child that was started is counted, until it is stopped.
pub proof fn started_child_is_counted<F>(
    m: DynamicModel<F>,
    spec: ChildSpec<F>,
    pid: Pid,
    monitor_ref: Ref,
)
    requires
        !m.children.contains_key(pid),
        m.children.dom().finite(),
    ensures
        m.with_child(spec, pid, monitor_ref).children.dom().len() == m.children.dom().len() + 1,
        m.with_child(spec, pid, monitor_ref).without_child(pid).children == m.children,
{
    let more = m.with_child(spec, pid, monitor_ref);
    assert(more.children.dom() =~= m.children.dom().insert(pid));
    assert(more.without_child(pid).children =~= m.children);
}

proof fn lemma_monitors_one_more<F>(
    children: Map<Pid, DynamicChildModel<F>>,
    done: Set<Pid>,
    pid: Pid,
)
    requires
        children.contains_key(pid),
    ensures
        monitors_of(children.restrict(done.insert(pid))) == monitors_of(
            children.restrict(done),
        ).insert(children[pid].monitor_ref),
{
    let some = children.restrict(done);
    let more = children.restrict(done.insert(pid));
    assert forall|r: Ref| monitors_of(more).contains(r) <==> #[trigger] monitors_of(some).insert(
        children[pid].monitor_ref,
    ).contains(r) by {
        if monitors_of(more).contains(r) {
            let p = choose|p: Pid| #[trigger] more.contains_key(p) && more[p].monitor_ref == r;
            if p != pid {
                assert(some.contains_key(p));
            }
        }
        if monitors_of(some).contains(r) {
            let p = choose|p: Pid| #[trigger] some.contains_key(p) && some[p].monitor_ref == r;
            assert(more.contains_key(p));
        }
        assert(more.contains_key(pid));
    }
    assert(monitors_of(more) =~= monitors_of(some).insert(children[pid].monitor_ref));
}

} // verus!
