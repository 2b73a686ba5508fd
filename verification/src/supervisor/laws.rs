//! What holds of a supervisor across exits and restarts.
use crate::base::exit_reason::ExitModel;
use crate::base::pid::Pid;
use crate::base::reference::Ref;
use crate::runtime::context::{after_exit_signal, alive, exit_effect};
use crate::runtime::process::{ProcessModel, ProcessesModel};
use crate::supervisor::intensity::{recent, within};
use crate::supervisor::supervisor::{children_from, initial, StopChild, SupervisorModel};
use crate::supervisor::types::{ChildSpec, RestartType, Strategy, SupervisorFlags};
use crate::time::Duration;
use vstd::prelude::*;

verus! {

proof fn lemma_children_from<F>(specs: Seq<ChildSpec<F>>)
    ensures
        forall|i: int|
            0 <= i < specs.len() ==> children_from(specs).contains_key((#[trigger] specs[i]).id@),
        forall|id: Seq<char>| #[trigger]
            children_from(specs).contains_key(id) ==> {
                &&& children_from(specs)[id].id == id
                &&& children_from(specs)[id].pid is None
                &&& exists|i: int| 0 <= i < specs.len() && (#[trigger] specs[i]).id@ == id
            },
    decreases specs.len(),
{
    if specs.len() > 0 {
        let less = specs.drop_last();
        lemma_children_from(less);
        assert forall|i: int| 0 <= i < specs.len() implies children_from(specs).contains_key(
            (#[trigger] specs[i]).id@,
        ) by {
            if i < less.len() {
                assert(less[i] == specs[i]);
            }
        }
        assert forall|id: Seq<char>| #[trigger] children_from(specs).contains_key(id) implies exists|
            i: int,
        | 0 <= i < specs.len() && (#[trigger] specs[i]).id@ == id by {
            if id == specs.last().id@ {
                assert(specs[specs.len() - 1].id@ == id);
            } else {
                let i = choose|i: int| 0 <= i < less.len() && (#[trigger] less[i]).id@ == id;
                assert(specs[i].id@ == id);
            }
        }
    }
}

/// A supervisor starts sound.
pub proof fn starts_sound<F>(flags: SupervisorFlags, specs: Seq<ChildSpec<F>>)
    ensures
        initial(flags, specs).sound(),
        initial(flags, specs).restarts.len() <= flags.max_restarts,
{
    lemma_children_from(specs);
    let m = initial(flags, specs);
    assert forall|i: int| 0 <= i < m.order.len() implies m.children.contains_key(
        #[trigger] m.order[i],
    ) by {
        assert(m.order[i] == specs[i].id@);
    }
    assert forall|id: Seq<char>| #[trigger] m.children.contains_key(id) implies m.order.contains(
        id,
    ) by {
        let i = choose|i: int| 0 <= i < specs.len() && (#[trigger] specs[i]).id@ == id;
        assert(m.order[i] == id);
    }
}

/// To stop children keeps a supervisor sound, and changes nothing but the children and
/// the names by process.
pub proof fn stops_keep_sound<F>(m: SupervisorModel<F>, ids: Seq<Seq<char>>)
    requires
        m.sound(),
    ensures
        m.without_children(ids).sound(),
        m.without_children(ids).children.dom() == m.children.dom(),
        m.without_children(ids).flags == m.flags,
        m.without_children(ids).order == m.order,
        m.without_children(ids).restarts == m.restarts,
        m.without_children(ids).pending == m.pending,
    decreases ids.len(),
{
    if ids.len() > 0 {
        let next = m.without_child(ids.last());
        assert(next.children.dom() =~= m.children.dom());
        stops_keep_sound(next, ids.drop_last());
    }
}

/// The end of a process keeps a supervisor sound.
pub proof fn exit_keeps_sound<F>(
    m: SupervisorModel<F>,
    pid: Pid,
    reason: ExitModel,
    now: Duration,
)
    requires
        m.sound(),
    ensures
        m.after_exit(pid, reason, now).sound(),
        m.after_exit(pid, reason, now).order == m.order,
        m.after_exit(pid, reason, now).flags == m.flags,
{
    let noted = m.noted_exit(pid);
    assert(noted.sound());
    if m.calls_for_restart(pid, reason) && m.may_restart(now) {
        let id = m.pids[pid];
        let times = recent(m.restarts, now, m.flags.max_seconds);
        let next = SupervisorModel {
            restarts: times.push(now),
            pending: m.concerned(id),
            ..noted
        };
        m.order.index_of_first_ensures(id);
        assert forall|i: int| 0 <= i < next.pending.len() implies next.children.contains_key(
            #[trigger] next.pending[i],
        ) by {
            match m.flags.strategy {
                Strategy::OneForOne => {},
                Strategy::OneForAll => {},
                Strategy::RestForOne => {
                    let pos = if m.order.contains(id) {
                        m.order.index_of_first(id)->Some_0
                    } else {
                        0
                    };
                    assert(next.pending[i] == m.order[pos + i]);
                },
            }
        }
        assert(next.sound());
        stops_keep_sound(next, m.to_stop(id));
    }
}

/// A start keeps a supervisor sound.
pub proof fn start_keeps_sound<F>(m: SupervisorModel<F>, pid: Pid, monitor_ref: Ref)
    requires
        m.sound(),
        m.pending.len() > 0,
    ensures
        m.started(pid, monitor_ref).sound(),
{
    let next = m.started(pid, monitor_ref);
    assert(m.children.contains_key(m.pending[0]));
    assert forall|i: int| 0 <= i < next.pending.len() implies next.children.contains_key(
        #[trigger] next.pending[i],
    ) by {
        assert(next.pending[i] == m.pending[i + 1]);
    }
}

/// Never are more restarts noted than the setup allows.
pub proof fn restarts_are_limited<F>(
    m: SupervisorModel<F>,
    pid: Pid,
    reason: ExitModel,
    now: Duration,
)
    requires
        m.sound(),
        m.restarts.len() <= m.flags.max_restarts,
    ensures
        m.after_exit(pid, reason, now).restarts.len() <= m.flags.max_restarts,
{
    let times = recent(m.restarts, now, m.flags.max_seconds);
    m.restarts.lemma_filter_len(within(now, m.flags.max_seconds));
    exit_keeps_sound(m, pid, reason, now);
    if m.calls_for_restart(pid, reason) && m.may_restart(now) {
        let id = m.pids[pid];
        let noted = m.noted_exit(pid);
        let next = SupervisorModel {
            restarts: times.push(now),
            pending: m.concerned(id),
            ..noted
        };
        lemma_stops_keep_rest(next, m.to_stop(id));
    }
}

proof fn lemma_stops_keep_rest<F>(m: SupervisorModel<F>, ids: Seq<Seq<char>>)
    ensures
        m.without_children(ids).flags == m.flags,
        m.without_children(ids).order == m.order,
        m.without_children(ids).restarts == m.restarts,
        m.without_children(ids).pending == m.pending,
    decreases ids.len(),
{
    if ids.len() > 0 {
        lemma_stops_keep_rest(m.without_child(ids.last()), ids.drop_last());
    }
}

/// Of the children that are stopped none runs afterwards, and the others are
/// as they were.
pub proof fn stops_stop_these_alone<F>(m: SupervisorModel<F>, ids: Seq<Seq<char>>, id: Seq<char>)
    ensures
        ids.contains(id) ==> !m.without_children(ids).runs(id),
        !m.runs(id) ==> !m.without_children(ids).runs(id),
        !ids.contains(id) ==> m.without_children(ids).children.contains_key(id)
            == m.children.contains_key(id) && m.without_children(ids).children[id]
            == m.children[id],
    decreases ids.len(),
{
    if ids.len() > 0 {
        let less = ids.drop_last();
        let next = m.without_child(ids.last());
        stops_stop_these_alone(next, less, id);
        if ids.contains(id) {
            let i = choose|i: int| 0 <= i < ids.len() && ids[i] == id;
            if i < less.len() {
                assert(less[i] == id);
            }
        } else {
            assert(ids.last() != id) by {
                assert(ids[ids.len() - 1] == ids.last());
            }
            if less.contains(id) {
                let i = choose|i: int| 0 <= i < less.len() && less[i] == id;
                assert(ids[i] == id);
            }
        }
    }
}

/// The processes after a child that had its time was followed up. `message` is
/// what the second exit signal is as a message.
pub open spec fn followed_up(stop: StopChild, m: ProcessesModel, message: Seq<u8>) -> ProcessesModel {
    if stop.overdue(m) {
        after_exit_signal(m, stop.pid, ExitModel::Killed, message)
    } else {
        m
    }
}

/// A child that is stopped ends, whatever it and others did in the time that it
/// had. The one exception is a child that may take as long as it needs: it ends
/// when it does. No other process is touched.
pub proof fn stopped_child_ends(
    stop: StopChild,
    m: ProcessesModel,
    message: Seq<u8>,
    other: Pid,
)
    ensures
        ({
            let end = followed_up(stop, m, message);
            &&& !(stop.shutdown is Infinity) ==> !alive(end, stop.pid)
            &&& stop.shutdown is Infinity ==> end == m
            &&& other != stop.pid ==> {
                &&& end.processes.contains_key(other) == m.processes.contains_key(other)
                &&& m.processes.contains_key(other) ==> end.processes[other] == m.processes[other]
            }
        }),
{
}

/// A child that traps exits finds the message that it is to shut down, unless it
/// is terminated at once.
pub proof fn child_hears_of_shutdown(stop: StopChild, m: ProcessesModel, message: Seq<u8>)
    requires
        m.processes.contains_key(stop.pid),
        m.processes[stop.pid].trap_exit,
        m.processes[stop.pid].open,
        !(stop.shutdown is BrutalKill),
    ensures
        after_exit_signal(m, stop.pid, stop.signal(), message).processes[stop.pid].mailbox
            == m.processes[stop.pid].mailbox.push(message),
{
}

/// A child that is terminated at once ends with its exit signal, whatever it
/// does about exits. Any other ends by itself, or not at all before it is killed.
pub proof fn brutal_kill_ends_child(stop: StopChild, process: ProcessModel)
    ensures
        stop.shutdown is BrutalKill ==> exit_effect(process, stop.signal()) is Terminate,
        !(stop.shutdown is BrutalKill) ==> !(exit_effect(process, stop.signal()) is Terminate),
{
}

/// A temporary child is never restarted, a permanent one always calls for it,
/// and a transient one after an abnormal exit.
pub proof fn restart_follows_type<F>(m: SupervisorModel<F>, pid: Pid, reason: ExitModel)
    requires
        m.has_pid(pid),
    ensures
        m.calls_for_restart(pid, reason) == match m.children[m.pids[pid]].restart {
            RestartType::Permanent => true,
            RestartType::Transient => reason is Killed || reason is Error,
            RestartType::Temporary => false,
        },
{
}

/// A child whose process ended is among those that are started again, under any
/// strategy, where its end calls for a restart and there may be one.
pub proof fn ended_child_is_restarted<F>(
    m: SupervisorModel<F>,
    pid: Pid,
    reason: ExitModel,
    now: Duration,
)
    requires
        m.sound(),
        m.calls_for_restart(pid, reason),
        m.may_restart(now),
    ensures
        m.after_exit(pid, reason, now).pending.contains(m.pids[pid]),
{
    let id = m.pids[pid];
    let next = SupervisorModel {
        restarts: recent(m.restarts, now, m.flags.max_seconds).push(now),
        pending: m.concerned(id),
        ..m.noted_exit(pid)
    };
    lemma_stops_keep_rest(next, m.to_stop(id));
    assert(m.order.contains(id));
    m.order.index_of_first_ensures(id);
    match m.flags.strategy {
        Strategy::OneForOne => {
            assert(m.concerned(id)[0] == id);
        },
        Strategy::OneForAll => {},
        Strategy::RestForOne => {
            assert(m.concerned(id)[0] == id);
        },
    }
}

/// Under one-for-one, the end of one child leaves all others as they are.
pub proof fn one_for_one_leaves_others<F>(
    m: SupervisorModel<F>,
    pid: Pid,
    reason: ExitModel,
    now: Duration,
    other: Seq<char>,
)
    requires
        m.flags.strategy is OneForOne,
        m.calls_for_restart(pid, reason),
        m.may_restart(now),
        other != m.pids[pid],
    ensures
        m.after_exit(pid, reason, now).pending == seq![m.pids[pid]],
        m.stops_after_exit(pid) == Seq::<StopChild>::empty(),
        m.after_exit(pid, reason, now).children[other] == m.children[other],
        m.after_exit(pid, reason, now).runs(other) == m.runs(other),
{
    assert(m.to_stop(m.pids[pid]).len() == 0);
}

/// Under one-for-all, all children are stopped, and all are started again in order.
pub proof fn one_for_all_restarts_all<F>(
    m: SupervisorModel<F>,
    pid: Pid,
    reason: ExitModel,
    now: Duration,
    i: int,
)
    requires
        m.flags.strategy is OneForAll,
        m.calls_for_restart(pid, reason),
        m.may_restart(now),
        0 <= i < m.order.len(),
    ensures
        m.after_exit(pid, reason, now).pending == m.order,
        !m.after_exit(pid, reason, now).runs(m.order[i]),
{
    let id = m.pids[pid];
    let next = SupervisorModel {
        restarts: recent(m.restarts, now, m.flags.max_seconds).push(now),
        pending: m.concerned(id),
        ..m.noted_exit(pid)
    };
    lemma_stops_keep_rest(next, m.to_stop(id));
    assert(m.to_stop(id).contains(m.order[i]));
    stops_stop_these_alone(next, m.to_stop(id), m.order[i]);
}

/// Under rest-for-one, the child that ended and those after it are stopped and
/// started again in order. Those before it are left as they are.
pub proof fn rest_for_one_restarts_rest<F>(
    m: SupervisorModel<F>,
    pid: Pid,
    reason: ExitModel,
    now: Duration,
    pos: int,
    i: int,
)
    requires
        m.flags.strategy is RestForOne,
        m.calls_for_restart(pid, reason),
        m.may_restart(now),
        m.order.no_duplicates(),
        0 <= pos < m.order.len(),
        m.order[pos] == m.pids[pid],
        0 <= i < m.order.len(),
    ensures
        m.after_exit(pid, reason, now).pending == m.order.skip(pos),
        i >= pos ==> !m.after_exit(pid, reason, now).runs(m.order[i]),
        i < pos ==> m.after_exit(pid, reason, now).children[m.order[i]]
            == m.children[m.order[i]],
{
    let id = m.pids[pid];
    m.order.index_of_first_ensures(id);
    let next = SupervisorModel {
        restarts: recent(m.restarts, now, m.flags.max_seconds).push(now),
        pending: m.concerned(id),
        ..m.noted_exit(pid)
    };
    let ids = m.to_stop(id);
    assert(m.order.contains(id));
    assert(ids == m.order.skip(pos));
    lemma_stops_keep_rest(next, ids);
    stops_stop_these_alone(next, ids, m.order[i]);
    if i >= pos {
        assert(ids[i - pos] == m.order[i]);
    } else {
        if ids.contains(m.order[i]) {
            let j = choose|j: int| 0 <= j < ids.len() && ids[j] == m.order[i];
            assert(m.order[pos + j] == m.order[i]);
        }
    }
}

/// Whether the names by process are those of exactly the children that run.
pub open spec fn linked<F>(m: SupervisorModel<F>) -> bool {
    &&& forall|pid: Pid| #[trigger]
        m.pids.contains_key(pid) ==> m.children.contains_key(m.pids[pid])
            && m.children[m.pids[pid]].pid == Some(pid)
    &&& forall|id: Seq<char>| #[trigger]
        m.runs(id) ==> m.pids.contains_key(m.children[id].pid->Some_0)
            && m.pids[m.children[id].pid->Some_0] == id
}

proof fn lemma_stop_keeps_linked<F>(m: SupervisorModel<F>, id: Seq<char>)
    requires
        linked(m),
    ensures
        linked(m.without_child(id)),
{
    let next = m.without_child(id);
    if m.runs(id) {
        assert forall|pid: Pid| #[trigger] next.pids.contains_key(pid) implies {
            &&& next.children.contains_key(next.pids[pid])
            &&& next.children[next.pids[pid]].pid == Some(pid)
        } by {
            assert(m.pids.contains_key(pid));
        }
        assert forall|other: Seq<char>| #[trigger] next.runs(other) implies {
            &&& next.pids.contains_key(next.children[other].pid->Some_0)
            &&& next.pids[next.children[other].pid->Some_0] == other
        } by {
            assert(m.runs(other));
        }
    }
}

proof fn lemma_stops_keep_linked<F>(m: SupervisorModel<F>, ids: Seq<Seq<char>>)
    requires
        linked(m),
    ensures
        linked(m.without_children(ids)),
    decreases ids.len(),
{
    if ids.len() > 0 {
        lemma_stop_keeps_linked(m, ids.last());
        lemma_stops_keep_linked(m.without_child(ids.last()), ids.drop_last());
    }
}

/// The end of a process leaves the names by process those of exactly the
/// children that run.
pub proof fn exit_keeps_linked<F>(
    m: SupervisorModel<F>,
    pid: Pid,
    reason: ExitModel,
    now: Duration,
)
    requires
        linked(m),
    ensures
        linked(m.after_exit(pid, reason, now)),
{
    let noted = m.noted_exit(pid);
    assert forall|p: Pid| #[trigger] noted.pids.contains_key(p) implies {
        &&& noted.children.contains_key(noted.pids[p])
        &&& noted.children[noted.pids[p]].pid == Some(p)
    } by {
        assert(m.pids.contains_key(p));
    }
    assert forall|other: Seq<char>| #[trigger] noted.runs(other) implies {
        &&& noted.pids.contains_key(noted.children[other].pid->Some_0)
        &&& noted.pids[noted.children[other].pid->Some_0] == other
    } by {
        assert(m.runs(other));
    }
    if m.calls_for_restart(pid, reason) {
        let times = recent(m.restarts, now, m.flags.max_seconds);
        assert(linked(SupervisorModel { restarts: times, ..noted })) by {
            let x = SupervisorModel { restarts: times, ..noted };
            assert forall|other: Seq<char>| #[trigger] x.runs(other) implies noted.runs(other) by {}
        }
        if m.may_restart(now) {
            let id = m.pids[pid];
            let next = SupervisorModel {
                restarts: times.push(now),
                pending: m.concerned(id),
                ..noted
            };
            assert forall|other: Seq<char>| #[trigger] next.runs(other) implies noted.runs(
                other,
            ) by {}
            lemma_stops_keep_linked(next, m.to_stop(id));
        }
    }
}

/// So does a start, where the process is a new one and the child did not run.
pub proof fn start_keeps_linked<F>(m: SupervisorModel<F>, pid: Pid, monitor_ref: Ref)
    requires
        linked(m),
        m.pending.len() > 0,
        m.children.contains_key(m.pending[0]),
        !m.runs(m.pending[0]),
        !m.pids.contains_key(pid),
    ensures
        linked(m.started(pid, monitor_ref)),
{
    let next = m.started(pid, monitor_ref);
    let id = m.pending[0];
    assert forall|p: Pid| #[trigger] next.pids.contains_key(p) implies {
        &&& next.children.contains_key(next.pids[p])
        &&& next.children[next.pids[p]].pid == Some(p)
    } by {
        if p != pid {
            assert(m.pids.contains_key(p));
            assert(m.runs(m.pids[p]));
        }
    }
    assert forall|other: Seq<char>| #[trigger] next.runs(other) implies {
        &&& next.pids.contains_key(next.children[other].pid->Some_0)
        &&& next.pids[next.children[other].pid->Some_0] == other
    } by {
        if other != id {
            assert(m.runs(other));
        }
    }
}

} // verus!
