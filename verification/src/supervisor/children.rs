//! What becomes of each child of a supervisor.
use crate::base::exit_reason::ExitModel;
use crate::base::pid::Pid;
use crate::base::reference::Ref;
use crate::runtime::process::ProcessesModel;
use crate::supervisor::dynamic_supervisor::{
    infos_in, is_kind, stop_of, stops_of, DynamicChildModel, DynamicModel,
};
use crate::supervisor::intensity::{allowed, noted, recent, restart_counts_for_its_span};
use crate::supervisor::supervisor::{
    children_from, initial, is_active, is_active_kind, start_failure, ChildModel, StopChild,
    SupervisorModel,
};
use crate::supervisor::types::{
    ChildSpec, ChildType, InfoModel, RestartType, ShutdownType, StartChildError, Strategy,
    SupervisorFlags,
};
use crate::table::keys_where;
use crate::text::numeral;
use crate::time::Duration;
use vstd::prelude::*;

verus! {

/// Whether the child is set up as it was.
pub open spec fn same_setup<F>(a: ChildModel<F>, b: ChildModel<F>) -> bool {
    &&& a.id == b.id
    &&& a.start == b.start
    &&& a.restart == b.restart
    &&& a.shutdown == b.shutdown
    &&& a.child_type == b.child_type
}

/// Whether this is the last child with the name.
pub open spec fn last_named<F>(specs: Seq<ChildSpec<F>>, id: Seq<char>, i: int) -> bool {
    &&& 0 <= i < specs.len()
    &&& specs[i].id@ == id
    &&& forall|j: int| i < j < specs.len() ==> (#[trigger] specs[j]).id@ != id
}

proof fn lemma_children_from<F>(specs: Seq<ChildSpec<F>>, id: Seq<char>)
    ensures
        children_from(specs).contains_key(id) <==> exists|i: int| last_named(specs, id, i),
        forall|i: int| #[trigger]
            last_named(specs, id, i) ==> {
                let child = children_from(specs)[id];
                &&& child.id == id
                &&& child.start == specs[i].start
                &&& child.restart == specs[i].restart
                &&& child.shutdown == specs[i].shutdown
                &&& child.child_type == specs[i].child_type
                &&& child.pid is None
                &&& child.monitor_ref is None
            },
    decreases specs.len(),
{
    if specs.len() > 0 {
        let less = specs.drop_last();
        let last = specs.len() - 1;
        lemma_children_from(less, id);
        if specs[last].id@ == id {
            assert(last_named(specs, id, last));
        } else {
            assert forall|i: int| last_named(less, id, i) implies #[trigger] last_named(
                specs,
                id,
                i,
            ) by {
                assert forall|j: int| i < j < specs.len() implies (#[trigger] specs[j]).id@
                    != id by {
                    if j < last {
                        assert(less[j] == specs[j]);
                    }
                }
            }
            assert forall|i: int| #[trigger] last_named(specs, id, i) implies last_named(
                less,
                id,
                i,
            ) && less[i] == specs[i] by {
                assert forall|j: int| i < j < less.len() implies (#[trigger] less[j]).id@ != id by {
                    assert(less[j] == specs[j]);
                }
            }
            if exists|i: int| last_named(less, id, i) {
                let i = choose|i: int| last_named(less, id, i);
                assert(last_named(specs, id, i));
            }
        }
        assert forall|i: int| #[trigger] last_named(specs, id, i) && specs[last].id@ == id implies i
            == last by {
            if i < last {
                assert(specs[last].id@ != id);
            }
        }
    }
}

/// A supervisor takes over how it and its children are set up, whole: no child runs
/// yet, and all are to be started in order. Of several children with one name
/// the last counts.
pub proof fn setup_is_taken_over<F>(flags: SupervisorFlags, specs: Seq<ChildSpec<F>>, id: Seq<char>)
    ensures
        ({
            let m = initial(flags, specs);
            &&& m.flags == flags
            &&& m.restarts.len() == 0
            &&& forall|pid: Pid| !m.pids.contains_key(pid)
            &&& m.order.len() == specs.len()
            &&& m.pending.len() == specs.len()
            &&& forall|i: int|
                0 <= i < specs.len() ==> m.order[i] == (#[trigger] specs[i]).id@ && m.pending[i]
                    == specs[i].id@
            &&& m.children.contains_key(id) <==> exists|i: int| last_named(specs, id, i)
            &&& forall|i: int| #[trigger]
                last_named(specs, id, i) ==> {
                    let child = m.children[id];
                    &&& child.id == id
                    &&& child.start == specs[i].start
                    &&& child.restart == specs[i].restart
                    &&& child.shutdown == specs[i].shutdown
                    &&& child.child_type == specs[i].child_type
                    &&& child.pid is None
                    &&& child.monitor_ref is None
                }
        }),
{
    lemma_children_from(specs, id);
}

/// Whether the stops are those of the children at these places, the last place
/// first: each is the stop of a running child, with the process, the monitor and
/// the shutdown type of that child, and each running child is stopped, at its
/// last place.
pub open spec fn stops_at<F>(
    children: Map<Seq<char>, ChildModel<F>>,
    ids: Seq<Seq<char>>,
    stops: Seq<StopChild>,
    places: Seq<int>,
) -> bool {
    &&& places.len() == stops.len()
    &&& forall|a: int, b: int| 0 <= a < b < places.len() ==> places[a] > places[b]
    &&& forall|k: int|
        0 <= k < stops.len() ==> {
            let child = children[ids[#[trigger] places[k]]];
            &&& 0 <= places[k] < ids.len()
            &&& children.contains_key(ids[places[k]])
            &&& child.pid == Some(stops[k].pid)
            &&& child.monitor_ref == stops[k].monitor_ref
            &&& child.shutdown == stops[k].shutdown
            &&& forall|j: int| places[k] < j < ids.len() ==> #[trigger] ids[j] != ids[places[k]]
        }
    &&& forall|i: int|
        0 <= i < ids.len() && children.contains_key(ids[i]) && children[ids[i]].pid is Some && (
        forall|j: int| i < j < ids.len() ==> #[trigger] ids[j] != ids[i]) ==> #[trigger] places.contains(i)
}

/// What stops children stops each as it is set up: the stops are those of the
/// running ones among them, the last first, each with the process, the monitor
/// and the shutdown type that the child had.
pub proof fn stops_carry_shutdown_types<F>(m: SupervisorModel<F>, ids: Seq<Seq<char>>) -> (places:
    Seq<int>)
    ensures
        stops_at(m.children, ids, m.stops_of(ids), places),
    decreases ids.len(),
{
    if ids.len() == 0 {
        Seq::empty()
    } else {
        let last = ids.len() - 1;
        let id = ids.last();
        let less = ids.drop_last();
        let next = m.without_child(id);
        let stops = m.stops_of(ids);
        let rest = next.stops_of(less);
        let sub = stops_carry_shutdown_types(next, less);
        let runs = m.children.contains_key(id) && m.children[id].pid is Some;
        let places = if runs {
            seq![last] + sub
        } else {
            sub
        };
        let shift: int = if runs {
            1
        } else {
            0
        };
        assert(!(next.children.contains_key(id) && next.children[id].pid is Some));
        assert forall|x: Seq<char>| x != id implies next.children.contains_key(x)
            == m.children.contains_key(x) && #[trigger] next.children[x] == m.children[x] by {}
        assert forall|a: int, b: int| 0 <= a < b < places.len() implies places[a] > places[b] by {
            assert(places[b] == sub[b - shift]);
            assert(0 <= sub[b - shift] < less.len());
            if a >= shift {
                assert(places[a] == sub[a - shift]);
            }
        }
        assert forall|k: int| 0 <= k < stops.len() implies {
            let child = m.children[ids[#[trigger] places[k]]];
            &&& 0 <= places[k] < ids.len()
            &&& m.children.contains_key(ids[places[k]])
            &&& child.pid == Some(stops[k].pid)
            &&& child.monitor_ref == stops[k].monitor_ref
            &&& child.shutdown == stops[k].shutdown
            &&& forall|j: int| places[k] < j < ids.len() ==> #[trigger] ids[j] != ids[places[k]]
        } by {
            if k >= shift {
                let p = sub[k - shift];
                assert(places[k] == p);
                assert(stops[k] == rest[k - shift]);
                assert(less[p] == ids[p]);
                assert(next.children[less[p]].pid is Some);
                assert(ids[p] != id);
                assert forall|j: int| p < j < ids.len() implies #[trigger] ids[j] != ids[p] by {
                    if j < last {
                        assert(less[j] == ids[j]);
                    }
                }
            }
        }
        assert forall|i: int|
            0 <= i < ids.len() && m.children.contains_key(ids[i]) && m.children[ids[i]].pid is Some
                && (forall|j: int|
                i < j < ids.len() ==> #[trigger] ids[j] != ids[i]) implies #[trigger] places.contains(i) by {
            if i == last {
                assert(places[0] == last);
            } else {
                assert(ids[last] != ids[i]);
                assert(less[i] == ids[i]);
                assert forall|j: int| i < j < less.len() implies #[trigger] less[j] != less[i] by {
                    assert(less[j] == ids[j]);
                }
                assert(sub.contains(i));
                let k = choose|k: int| 0 <= k < sub.len() && sub[k] == i;
                assert(places[k + shift] == i);
            }
        }
        places
    }
}

/// One child that is stopped: what stops it has its process, its monitor and
/// its shutdown type.
pub proof fn stop_carries_shutdown_type<F>(m: SupervisorModel<F>, id: Seq<char>)
    ensures
        m.children.contains_key(id) && m.children[id].pid is Some ==> {
            &&& m.stop_of(id).len() == 1
            &&& m.children[id].pid == Some(m.stop_of(id)[0].pid)
            &&& m.children[id].monitor_ref == m.stop_of(id)[0].monitor_ref
            &&& m.children[id].shutdown == m.stop_of(id)[0].shutdown
        },
        !(m.children.contains_key(id) && m.children[id].pid is Some) ==> m.stop_of(id).len() == 0,
{
}

/// A child is sent that it is killed where it is set up so, and is asked to shut
/// down otherwise. It is killed later where it still lives once it had its time,
/// unless it may take as long as it needs.
pub proof fn shutdown_type_decides_signal(stop: StopChild, m: ProcessesModel)
    ensures
        stop.signal() == (if stop.shutdown == ShutdownType::BrutalKill {
            ExitModel::Killed
        } else {
            ExitModel::Shutdown
        }),
        stop.overdue(m) <==> m.processes.contains_key(stop.pid)
            && m.processes[stop.pid].terminated is None && stop.shutdown != ShutdownType::Infinity,
{
}

/// To stop children leaves how they are set up, and everything else. The stopped
/// ones have no process and no monitor, and the others keep theirs.
pub proof fn stops_keep_setup<F>(m: SupervisorModel<F>, ids: Seq<Seq<char>>, id: Seq<char>)
    ensures
        ({
            let after = m.without_children(ids);
            &&& after.flags == m.flags
            &&& after.order == m.order
            &&& after.restarts == m.restarts
            &&& after.pending == m.pending
            &&& after.children.contains_key(id) == m.children.contains_key(id)
            &&& m.children.contains_key(id) ==> same_setup(after.children[id], m.children[id])
            &&& m.children.contains_key(id) && ids.contains(id) ==> after.children[id].pid is None
            &&& m.children.contains_key(id) && ids.contains(id) && m.children[id].pid is Some
                ==> after.children[id].monitor_ref is None
            &&& !ids.contains(id) || m.children[id].pid is None ==> after.children[id]
                == m.children[id]
        }),
    decreases ids.len(),
{
    if ids.len() > 0 {
        let less = ids.drop_last();
        let next = m.without_child(ids.last());
        stops_keep_setup(next, less, id);
        assert(ids =~= less.push(ids.last()));
        if ids.contains(id) && id != ids.last() {
            let i = choose|i: int| 0 <= i < ids.len() && ids[i] == id;
            assert(less[i] == id);
        }
        if less.contains(id) {
            let i = choose|i: int| 0 <= i < less.len() && less[i] == id;
            assert(ids[i] == id);
        }
        assert(ids[ids.len() - 1] == ids.last());
    }
}

/// To stop children takes the names of their processes, and of no others.
pub proof fn stops_take_names<F>(m: SupervisorModel<F>, ids: Seq<Seq<char>>, pid: Pid)
    ensures
        ({
            let after = m.without_children(ids);
            &&& after.pids.contains_key(pid) ==> m.pids.contains_key(pid) && after.pids[pid]
                == m.pids[pid]
            &&& m.pids.contains_key(pid) && !(exists|i: int|
                0 <= i < ids.len() && m.children.contains_key(#[trigger] ids[i])
                    && m.children[ids[i]].pid == Some(pid)) ==> after.pids.contains_key(pid)
            &&& forall|i: int|
                0 <= i < ids.len() && m.children.contains_key(#[trigger] ids[i])
                    && m.children[ids[i]].pid == Some(pid) ==> !after.pids.contains_key(pid)
        }),
    decreases ids.len(),
{
    if ids.len() > 0 {
        let less = ids.drop_last();
        let id = ids.last();
        let next = m.without_child(id);
        stops_take_names(next, less, pid);
        let after = m.without_children(ids);
        assert(ids[ids.len() - 1] == id);
        if exists|i: int|
            0 <= i < less.len() && next.children.contains_key(#[trigger] less[i])
                && next.children[less[i]].pid == Some(pid) {
            let i = choose|i: int|
                0 <= i < less.len() && next.children.contains_key(#[trigger] less[i])
                    && next.children[less[i]].pid == Some(pid);
            assert(ids[i] == less[i]);
            assert(m.children[ids[i]].pid == Some(pid));
        }
        assert forall|i: int|
            0 <= i < ids.len() && m.children.contains_key(#[trigger] ids[i])
                && m.children[ids[i]].pid == Some(pid) implies !after.pids.contains_key(pid) by {
            if ids[i] == id {
                assert(!next.pids.contains_key(pid));
            } else {
                assert(less[i] == ids[i]);
                assert(next.children[less[i]].pid == Some(pid));
            }
        }
    }
}

/// The children with that of the name noted as ended.
pub open spec fn ended<F>(
    children: Map<Seq<char>, ChildModel<F>>,
    id: Seq<char>,
) -> Map<Seq<char>, ChildModel<F>> {
    children.insert(
        id,
        ChildModel {
            id: children[id].id,
            start: children[id].start,
            restart: children[id].restart,
            shutdown: children[id].shutdown,
            child_type: children[id].child_type,
            pid: None,
            monitor_ref: None,
        },
    )
}

/// When a child ends and is to be restarted, what stops the other children stops
/// each as it is set up: none under one-for-one, all that run under one-for-all,
/// and those behind it that run under rest-for-one, the last first.
pub proof fn restart_stops_carry_shutdown_types<F>(m: SupervisorModel<F>, pid: Pid, pos: int) -> (
places: Seq<int>)
    requires
        m.pids.contains_key(pid),
        m.children.contains_key(m.pids[pid]),
        0 <= pos < m.order.len(),
        m.order[pos] == m.pids[pid],
        forall|j: int| 0 <= j < pos ==> m.order[j] != m.pids[pid],
    ensures
        match m.flags.strategy {
            Strategy::OneForOne => m.stops_after_exit(pid).len() == 0,
            Strategy::OneForAll => stops_at(
                ended(m.children, m.pids[pid]),
                m.order,
                m.stops_after_exit(pid),
                places,
            ),
            Strategy::RestForOne => stops_at(
                ended(m.children, m.pids[pid]),
                m.order.skip(pos),
                m.stops_after_exit(pid),
                places,
            ),
        },
{
    let id = m.pids[pid];
    let noted = m.noted_exit(pid);
    assert(noted.children == ended(m.children, id));
    m.order.index_of_first_ensures(id);
    assert(m.order.contains(id));
    let places = stops_carry_shutdown_types(noted, m.to_stop(id));
    places
}

/// When a supervisor ends, or gives up, all children that run are stopped, the
/// last first, each as it is set up.
pub proof fn ending_stops_carry_shutdown_types<F>(m: SupervisorModel<F>) -> (places: Seq<int>)
    ensures
        stops_at(m.children, m.order, m.stops_of(m.order), places),
{
    stops_carry_shutdown_types(m, m.order)
}

/// Whether the end of a child calls for a restart.
pub open spec fn wanted(restart: RestartType, reason: ExitModel) -> bool {
    match restart {
        RestartType::Permanent => true,
        RestartType::Transient => reason is Killed || reason is Error,
        RestartType::Temporary => false,
    }
}

/// What the end of a child comes to. Its type of restart decides whether it calls
/// for one, and the restarts that were allowed in the last `max_seconds` seconds
/// whether there may be one. A restart is noted with its time. All children stay set
/// up as they are; the one that ended, and those that are stopped with it, have no
/// process and no monitor, and the others keep theirs.
pub proof fn end_of_child<F>(
    m: SupervisorModel<F>,
    pid: Pid,
    reason: ExitModel,
    now: Duration,
    pos: int,
    other: Seq<char>,
)
    requires
        m.pids.contains_key(pid),
        m.children.contains_key(m.pids[pid]),
        0 <= pos < m.order.len(),
        m.order[pos] == m.pids[pid],
        forall|j: int| 0 <= j < pos ==> m.order[j] != m.pids[pid],
    ensures
        ({
            let id = m.pids[pid];
            let after = m.after_exit(pid, reason, now);
            let times = m.restarts.filter(
                |t: Duration| now.nanos - t.nanos < m.flags.max_seconds * 1_000_000_000,
            );
            let restarts = wanted(m.children[id].restart, reason) && times.len()
                < m.flags.max_restarts;
            let stopped = restarts && match m.flags.strategy {
                Strategy::OneForOne => false,
                Strategy::OneForAll => m.order.contains(other),
                Strategy::RestForOne => m.order.skip(pos).contains(other),
            };
            &&& m.calls_for_restart(pid, reason) == wanted(m.children[id].restart, reason)
            &&& m.may_restart(now) == (times.len() < m.flags.max_restarts)
            &&& after.flags == m.flags
            &&& after.order == m.order
            &&& after.restarts == (if restarts {
                times.push(now)
            } else if wanted(m.children[id].restart, reason) {
                times
            } else {
                m.restarts
            })
            &&& after.pending == (if restarts {
                match m.flags.strategy {
                    Strategy::OneForOne => seq![id],
                    Strategy::OneForAll => m.order,
                    Strategy::RestForOne => m.order.skip(pos),
                }
            } else {
                m.pending
            })
            &&& !after.pids.contains_key(pid)
            &&& after.children.contains_key(other) == m.children.contains_key(other)
            &&& m.children.contains_key(other) ==> {
                &&& same_setup(after.children[other], m.children[other])
                &&& other == id || stopped ==> after.children[other].pid is None
                &&& other == id || (stopped && m.children[other].pid is Some)
                    ==> after.children[other].monitor_ref is None
                &&& other != id && !stopped ==> after.children[other] == m.children[other]
            }
        }),
{
    let id = m.pids[pid];
    let times = recent(m.restarts, now, m.flags.max_seconds);
    restart_counts_for_its_span(m.restarts, now, m.flags.max_seconds, now);
    let noted = m.noted_exit(pid);
    let next = SupervisorModel {
        restarts: times.push(now),
        pending: m.concerned(id),
        ..noted
    };
    m.order.index_of_first_ensures(id);
    assert(m.order.contains(id));
    stops_keep_setup(next, m.to_stop(id), other);
    stops_take_names(next, m.to_stop(id), pid);
}

/// The end of a process that is no child's changes nothing but that its name goes.
pub proof fn end_of_other<F>(
    m: SupervisorModel<F>,
    pid: Pid,
    reason: ExitModel,
    now: Duration,
    other: Pid,
)
    requires
        !(m.pids.contains_key(pid) && m.children.contains_key(m.pids[pid])),
    ensures
        ({
            let after = m.after_exit(pid, reason, now);
            &&& !m.calls_for_restart(pid, reason)
            &&& after.flags == m.flags
            &&& after.children == m.children
            &&& after.order == m.order
            &&& after.restarts == m.restarts
            &&& after.pending == m.pending
            &&& after.pids.contains_key(other) <==> m.pids.contains_key(other) && other != pid
            &&& after.pids.contains_key(other) ==> after.pids[other] == m.pids[other]
        }),
{
}

/// A start gives the next child its process and its monitor, and changes nothing
/// else.
pub proof fn start_of_child<F>(
    m: SupervisorModel<F>,
    pid: Pid,
    monitor_ref: Ref,
    id: Seq<char>,
    p: Pid,
)
    requires
        m.pending.len() > 0,
        m.children.contains_key(m.pending[0]),
    ensures
        ({
            let after = m.started(pid, monitor_ref);
            let child = after.children[m.pending[0]];
            &&& after.flags == m.flags
            &&& after.order == m.order
            &&& after.restarts == m.restarts
            &&& after.pending == m.pending.skip(1)
            &&& child.pid == Some(pid)
            &&& child.monitor_ref == Some(monitor_ref)
            &&& same_setup(child, m.children[m.pending[0]])
            &&& after.children.contains_key(id) == m.children.contains_key(id)
            &&& id != m.pending[0] ==> after.children[id] == m.children[id]
            &&& after.pids.contains_key(pid) && after.pids[pid] == m.pending[0]
            &&& p != pid ==> after.pids.contains_key(p) == m.pids.contains_key(p)
            &&& p != pid && m.pids.contains_key(p) ==> after.pids[p] == m.pids[p]
        }),
{
    assert(m.pending.drop_first() =~= m.pending.skip(1));
}

/// Why a start failed names the child and what it said.
pub proof fn start_failure_names_child(id: Seq<char>, failure: Seq<char>)
    ensures
        start_failure(id, false, failure) == "child '"@ + id + "' failed to start: "@ + failure,
        start_failure(id, true, failure) == "child '"@ + id + "' failed to restart: "@ + failure,
{
}

/// The texts of the errors of a start.
pub proof fn start_errors_as_text(e: StartChildError)
    ensures
        e.text() == (match e {
            StartChildError::Failed(why) => "child failed to start: "@ + why@,
            StartChildError::Ignore => "child init returned ignore"@,
            StartChildError::AlreadyPresent => "child already present"@,
        }),
{
}

/// What is counted are the children that run, by their kind, and what is told is
/// the name, the process and the kind of each.
pub proof fn children_are_told<F>(m: SupervisorModel<F>, kind: ChildType, x: InfoModel)
    ensures
        keys_where(m.children, is_active()) == Set::new(
            |id: Seq<char>| m.children.contains_key(id) && m.children[id].pid is Some,
        ),
        keys_where(m.children, is_active_kind(kind)) == Set::new(
            |id: Seq<char>|
                m.children.contains_key(id) && m.children[id].pid is Some
                    && m.children[id].child_type == kind,
        ),
        m.infos().contains(x) <==> exists|id: Seq<char>|
            {
                &&& #[trigger] m.children.contains_key(id)
                &&& x.id == m.children[id].id
                &&& x.pid == m.children[id].pid
                &&& x.child_type == m.children[id].child_type
            },
{
    assert(keys_where(m.children, is_active()) =~= Set::new(
        |id: Seq<char>| m.children.contains_key(id) && m.children[id].pid is Some,
    ));
    assert(keys_where(m.children, is_active_kind(kind)) =~= Set::new(
        |id: Seq<char>|
            m.children.contains_key(id) && m.children[id].pid is Some && m.children[id].child_type
                == kind,
    ));
}

/// What stops the children of a dynamic supervisor stops each as it is set up,
/// with its own process, monitor and shutdown type.
pub proof fn dynamic_stops_carry_shutdown_types<F>(
    children: Map<Pid, DynamicChildModel<F>>,
    pid: Pid,
    stop: StopChild,
)
    ensures
        children.contains_key(pid) ==> {
            let own = stop_of(pid, children[pid]);
            &&& own.pid == pid
            &&& own.monitor_ref == Some(children[pid].monitor_ref)
            &&& own.shutdown == children[pid].spec.shutdown
        },
        stops_of(children).contains(stop) <==> {
            &&& children.contains_key(stop.pid)
            &&& stop.monitor_ref == Some(children[stop.pid].monitor_ref)
            &&& stop.shutdown == children[stop.pid].spec.shutdown
        },
{
    if children.contains_key(stop.pid) {
        let own = stop_of(stop.pid, children[stop.pid]);
        if stop.monitor_ref == own.monitor_ref && stop.shutdown == own.shutdown {
            assert(stop == own);
        }
    }
}

/// What the start, the stop and the end of a child of a dynamic supervisor, and its
/// shutting down, come to: the other children stay as they are, and a child is noted
/// with the very spec and monitor that it was started with.
pub proof fn dynamic_children_come_and_go<F>(
    m: DynamicModel<F>,
    spec: ChildSpec<F>,
    pid: Pid,
    monitor_ref: Ref,
    p: Pid,
    r: Ref,
)
    ensures
        ({
            let after = m.with_child(spec, pid, monitor_ref);
            &&& after.opts == m.opts
            &&& after.restarts == m.restarts
            &&& after.shutdown == m.shutdown
            &&& after.children.contains_key(pid)
            &&& after.children[pid].spec == spec
            &&& after.children[pid].monitor_ref == monitor_ref
            &&& p != pid ==> after.children.contains_key(p) == m.children.contains_key(p)
            &&& p != pid ==> after.children[p] == m.children[p]
            &&& after.monitors.contains_key(monitor_ref) && after.monitors[monitor_ref] == pid
            &&& r != monitor_ref ==> after.monitors.contains_key(r) == m.monitors.contains_key(r)
            &&& r != monitor_ref ==> after.monitors[r] == m.monitors[r]
        }),
        ({
            let after = m.without_child(pid);
            &&& after.opts == m.opts
            &&& after.restarts == m.restarts
            &&& after.shutdown == m.shutdown
            &&& !after.children.contains_key(pid)
            &&& p != pid ==> after.children.contains_key(p) == m.children.contains_key(p)
            &&& p != pid ==> after.children[p] == m.children[p]
            &&& after.monitors.contains_key(r) <==> m.monitors.contains_key(r) && !(
            m.children.contains_key(pid) && m.children[pid].monitor_ref == r)
            &&& after.monitors.contains_key(r) ==> after.monitors[r] == m.monitors[r]
        }),
        ({
            let after = m.shut_down();
            &&& after.opts == m.opts
            &&& after.restarts == m.restarts
            &&& after.shutdown
            &&& !after.children.contains_key(p)
            &&& after.monitors.contains_key(r) <==> m.monitors.contains_key(r) && !(exists|q: Pid|
                #[trigger] m.children.contains_key(q) && m.children[q].monitor_ref == r)
            &&& after.monitors.contains_key(r) ==> after.monitors[r] == m.monitors[r]
        }),
{
}

/// What the end of a process comes to in a dynamic supervisor. The child's type of
/// restart decides whether it calls for one, and the restarts that were allowed in the
/// last `max_seconds` seconds whether there may be one. A restart is noted with its
/// time.
pub proof fn end_of_dynamic_child<F>(
    m: DynamicModel<F>,
    pid: Pid,
    reason: ExitModel,
    now: Duration,
    p: Pid,
)
    ensures
        ({
            let after = m.after_exit(pid, reason, now);
            let times = m.restarts.filter(
                |t: Duration| now.nanos - t.nanos < m.opts.max_seconds * 1_000_000_000,
            );
            let calls = m.children.contains_key(pid) && wanted(
                m.children[pid].spec.restart,
                reason,
            );
            &&& m.calls_for_restart(pid, reason) == calls
            &&& m.may_restart(now) == (times.len() < m.opts.max_restarts)
            &&& after.opts == m.opts
            &&& after.shutdown == m.shutdown
            &&& after.monitors == m.without_child(pid).monitors
            &&& !after.children.contains_key(pid)
            &&& p != pid ==> after.children.contains_key(p) == m.children.contains_key(p)
            &&& p != pid ==> after.children[p] == m.children[p]
            &&& after.restarts == (if !calls {
                m.restarts
            } else if times.len() < m.opts.max_restarts {
                times.push(now)
            } else {
                times
            })
        }),
{
    restart_counts_for_its_span(m.restarts, now, m.opts.max_seconds, now);
}

/// What is counted are the children of a dynamic supervisor by their kind, and
/// what is told is the process and the kind of each, under the number of its
/// place.
pub proof fn dynamic_children_are_told<F>(
    children: Map<Pid, DynamicChildModel<F>>,
    kind: ChildType,
    order: Seq<Pid>,
    i: int,
)
    requires
        0 <= i < order.len(),
    ensures
        keys_where(children, is_kind(kind)) == Set::new(
            |pid: Pid| children.contains_key(pid) && children[pid].spec.child_type == kind,
        ),
        infos_in(children, order).len() == order.len(),
        infos_in(children, order)[i].id == "child_"@ + numeral(i as nat, 10),
        infos_in(children, order)[i].pid == Some(order[i]),
        infos_in(children, order)[i].child_type == children[order[i]].spec.child_type,
{
    assert(keys_where(children, is_kind(kind)) =~= Set::new(
        |pid: Pid| children.contains_key(pid) && children[pid].spec.child_type == kind,
    ));
}

/// A supervisor, from its start on, notes just what follows from the times at which its
/// children called for a restart, and restarts just when one more is allowed. So it
/// restarts at most `max_restarts` times in any span of `max_seconds` seconds. The same
/// holds of a dynamic one.
pub proof fn supervisors_keep_to_limit<F>(
    m: SupervisorModel<F>,
    d: DynamicModel<F>,
    pid: Pid,
    reason: ExitModel,
    now: Duration,
    asks: Seq<Duration>,
)
    ensures
        ({
            let (most, span) = (m.flags.max_restarts, m.flags.max_seconds);
            let more = asks.push(now);
            m.pids.contains_key(pid) && m.children.contains_key(m.pids[pid]) && wanted(
                m.children[m.pids[pid]].restart,
                reason,
            ) && m.restarts == noted(asks, most, span) ==> {
                &&& m.after_exit(pid, reason, now).restarts == noted(more, most, span)
                &&& m.may_restart(now) ==> allowed(more, most, span) == allowed(
                    asks,
                    most,
                    span,
                ).push(now)
                &&& !m.may_restart(now) ==> allowed(more, most, span) == allowed(asks, most, span)
            }
        }),
        ({
            let (most, span) = (d.opts.max_restarts, d.opts.max_seconds);
            let more = asks.push(now);
            d.children.contains_key(pid) && wanted(d.children[pid].spec.restart, reason)
                && d.restarts == noted(asks, most, span) ==> {
                &&& d.after_exit(pid, reason, now).restarts == noted(more, most, span)
                &&& d.may_restart(now) ==> allowed(more, most, span) == allowed(
                    asks,
                    most,
                    span,
                ).push(now)
                &&& !d.may_restart(now) ==> allowed(more, most, span) == allowed(asks, most, span)
            }
        }),
        noted(Seq::empty(), m.flags.max_restarts, m.flags.max_seconds).len() == 0,
{
    let more = asks.push(now);
    assert(more.drop_last() =~= asks);
    assert(more.last() == now);
    let id = m.pids[pid];
    let times = recent(m.restarts, now, m.flags.max_seconds);
    let next = SupervisorModel {
        restarts: times.push(now),
        pending: m.concerned(id),
        ..m.noted_exit(pid)
    };
    stops_keep_setup(next, m.to_stop(id), id);
}

} // verus!
