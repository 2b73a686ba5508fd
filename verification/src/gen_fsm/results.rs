//! What comes of what the callbacks of a state machine return.
use crate::atom::AtomTable;
use crate::base::exit_reason::ExitModel;
use crate::base::reference::Ref;
use crate::gen_fsm::protocol::{FsmMessage, FsmMessageModel};
use crate::gen_fsm::server::{
    acted, acted_all, asks, effect_models, fresh, timeout_bytes, Acting, EffectModel, FsmEffect,
    FsmTask, MachineModel, TimeoutEvent, TimeoutModel, TimersModel,
};
use crate::gen_fsm::types;
use crate::gen_fsm::types::{CallResult, EventResult, StateAction};
use crate::table::{has_key, place_of};
use crate::time::Duration;
use crate::wire::fsm::{PortableFsm, PortableFsmModel};
use crate::wire::identity::PidModel;
use crate::wire::primitive::Wire;
use vstd::prelude::*;
use vstd::string::*;
use vstd::utf8::encode_utf8;

verus! {

/// What a machine does that others notice: replies, hooks, and timers that start.
#[verifier::reject_recursive_types(S)]
#[verifier::reject_recursive_types(R)]
pub enum Deed<S, R> {
    Reply(types::From, R),
    Exit(S),
    Enter,
    Timer(TimeoutModel, Duration),
    Terminate(ExitModel),
}

/// The deeds among effects, in order.
pub open spec fn deeds<S, R>(effects: Seq<EffectModel<S, R>>) -> Seq<Deed<S, R>>
    decreases effects.len(),
{
    if effects.len() == 0 {
        Seq::empty()
    } else {
        let before = deeds(effects.drop_last());
        match effects.last() {
            EffectModel::Reply(from, reply) => before.push(Deed::Reply(from, reply)),
            EffectModel::Exit(state) => before.push(Deed::Exit(state)),
            EffectModel::Enter => before.push(Deed::Enter),
            EffectModel::StartTimer { id, event, duration } => before.push(
                Deed::Timer(event, duration),
            ),
            EffectModel::CancelTimer(id) => before,
            EffectModel::Terminate(reason) => before.push(Deed::Terminate(reason)),
        }
    }
}

/// The deeds that actions ask for, in order.
pub open spec fn deeds_asked<S, R>(actions: Seq<StateAction<R>>) -> Seq<Deed<S, R>>
    decreases actions.len(),
{
    if actions.len() == 0 {
        Seq::empty()
    } else {
        let before = deeds_asked(actions.drop_last());
        match actions.last() {
            StateAction::Reply(from, reply) => before.push(Deed::Reply(from, reply)),
            StateAction::StateTimeout(duration) => before.push(
                Deed::Timer(TimeoutModel::State, duration),
            ),
            StateAction::GenericTimeout(name, duration) => before.push(
                Deed::Timer(TimeoutModel::Generic(name@), duration),
            ),
            _ => before,
        }
    }
}

proof fn lemma_deeds_add<S, R>(a: Seq<EffectModel<S, R>>, b: Seq<EffectModel<S, R>>)
    ensures
        deeds(a + b) == deeds(a) + deeds(b),
    decreases b.len(),
{
    if b.len() == 0 {
        assert(a + b =~= a);
    } else {
        lemma_deeds_add(a, b.drop_last());
        assert((a + b).drop_last() =~= a + b.drop_last());
        assert(deeds(a + b) =~= deeds(a) + deeds(b));
    }
}

proof fn lemma_deeds_push<S, R>(a: Seq<EffectModel<S, R>>, e: EffectModel<S, R>)
    ensures
        deeds(a.push(e)) == (match e {
            EffectModel::Reply(from, reply) => deeds(a).push(Deed::Reply(from, reply)),
            EffectModel::Exit(state) => deeds(a).push(Deed::Exit(state)),
            EffectModel::Enter => deeds(a).push(Deed::Enter),
            EffectModel::StartTimer { id, event, duration } => deeds(a).push(
                Deed::Timer(event, duration),
            ),
            EffectModel::CancelTimer(id) => deeds(a),
            EffectModel::Terminate(reason) => deeds(a).push(Deed::Terminate(reason)),
        }),
{
    assert(a.push(e).drop_last() =~= a);
}

proof fn lemma_no_deeds<S, R>(a: Seq<EffectModel<S, R>>)
    requires
        forall|i: int| 0 <= i < a.len() ==> #[trigger] a[i] is CancelTimer,
    ensures
        deeds(a) == Seq::<Deed<S, R>>::empty(),
    decreases a.len(),
{
    if a.len() > 0 {
        assert(a[a.len() - 1] is CancelTimer);
        lemma_no_deeds(a.drop_last());
    }
}

proof fn lemma_sets_state<S, R>(timers: TimersModel, duration: Duration)
    ensures
        deeds(timers.sets_state::<S, R>(duration)) == seq![
            Deed::<S, R>::Timer(TimeoutModel::State, duration),
        ],
{
    let cancels = timers.cancels_state::<S, R>();
    lemma_no_deeds(cancels);
    lemma_deeds_push(
        cancels,
        EffectModel::StartTimer { id: timers.next, event: TimeoutModel::State, duration },
    );
}

proof fn lemma_sets_named<S, R>(timers: TimersModel, name: Seq<char>, duration: Duration)
    ensures
        deeds(timers.sets_named::<S, R>(name, duration)) == seq![
            Deed::<S, R>::Timer(TimeoutModel::Generic(name), duration),
        ],
{
    let cancels = timers.cancels_named::<S, R>(name);
    lemma_no_deeds(cancels);
    lemma_deeds_push(
        cancels,
        EffectModel::StartTimer { id: timers.next, event: TimeoutModel::Generic(name), duration },
    );
}

proof fn lemma_acted_deeds<S, R>(now: Acting<S, R>, action: StateAction<R>)
    ensures
        deeds(acted(now, action).effects) == deeds(now.effects) + deeds_asked::<S, R>(
            seq![action],
        ),
{
    let one = seq![action];
    assert(one.drop_last() =~= Seq::<StateAction<R>>::empty());
    assert(deeds_asked::<S, R>(one.drop_last()) =~= Seq::<Deed<S, R>>::empty());
    match action {
        StateAction::Reply(from, reply) => {
            lemma_deeds_push(now.effects, EffectModel::Reply(from, reply));
        },
        StateAction::StateTimeout(duration) => {
            lemma_sets_state::<S, R>(now.timers, duration);
            lemma_deeds_add(now.effects, now.timers.sets_state::<S, R>(duration));
        },
        StateAction::GenericTimeout(name, duration) => {
            lemma_sets_named::<S, R>(now.timers, name@, duration);
            lemma_deeds_add(now.effects, now.timers.sets_named::<S, R>(name@, duration));
        },
        StateAction::CancelTimeout(name) => {
            lemma_no_deeds(now.timers.cancels_named::<S, R>(name@));
            lemma_deeds_add(now.effects, now.timers.cancels_named::<S, R>(name@));
        },
        _ => {},
    }
    assert(deeds(acted(now, action).effects) =~= deeds(now.effects) + deeds_asked::<S, R>(one));
}

proof fn lemma_asked_add<S, R>(a: Seq<StateAction<R>>, b: Seq<StateAction<R>>)
    ensures
        deeds_asked::<S, R>(a + b) == deeds_asked::<S, R>(a) + deeds_asked::<S, R>(b),
    decreases b.len(),
{
    if b.len() == 0 {
        assert(a + b =~= a);
        assert(deeds_asked::<S, R>(a) + deeds_asked::<S, R>(b) =~= deeds_asked::<S, R>(a));
    } else {
        lemma_asked_add::<S, R>(a, b.drop_last());
        assert((a + b).drop_last() =~= a + b.drop_last());
        assert(deeds_asked::<S, R>(a + b) =~= deeds_asked::<S, R>(a) + deeds_asked::<S, R>(b));
    }
}

proof fn lemma_acted_all_deeds<S, R>(now: Acting<S, R>, actions: Seq<StateAction<R>>)
    ensures
        deeds(acted_all(now, actions).effects) == deeds(now.effects) + deeds_asked::<S, R>(actions),
    decreases actions.len(),
{
    if actions.len() == 0 {
        assert(deeds(now.effects) + deeds_asked::<S, R>(actions) =~= deeds(now.effects));
    } else {
        let first = seq![actions[0]];
        let rest = actions.drop_first();
        lemma_acted_deeds(now, actions[0]);
        lemma_acted_all_deeds(acted(now, actions[0]), rest);
        assert(actions =~= first + rest);
        lemma_asked_add::<S, R>(first, rest);
        assert(deeds(now.effects) + deeds_asked::<S, R>(first) + deeds_asked::<S, R>(rest)
            =~= deeds(now.effects) + (deeds_asked::<S, R>(first) + deeds_asked::<S, R>(rest)));
    }
}

proof fn lemma_leaves_deeds<S, R>(machine: MachineModel<S>)
    ensures
        deeds(machine.leaves::<R>()) == seq![Deed::<S, R>::Exit(machine.state), Deed::Enter],
{
    let cancels = machine.timers.cancels_all::<S, R>();
    lemma_no_deeds(cancels);
    let exit = cancels.push(EffectModel::Exit(machine.state));
    lemma_deeds_push(cancels, EffectModel::Exit(machine.state));
    lemma_deeds_push(exit, EffectModel::Enter);
    assert(machine.leaves::<R>() =~= exit.push(EffectModel::Enter));
    assert(deeds(machine.leaves::<R>()) =~= seq![
        Deed::<S, R>::Exit(machine.state),
        Deed::Enter,
    ]);
}

/// A machine does what an event handler's result asks for, and nothing else. It
/// leaves its state and enters the next one where the result names one; it starts
/// a timer for each timeout that is set, of the very duration that was given; it
/// sends the very replies that were given; and it stops for the reason given.
pub proof fn event_results_are_followed<S, R>(
    machine: MachineModel<S>,
    result: EventResult<S, R>,
    event: Seq<u8>,
)
    ensures
        ({
            let after = machine.after_event(result, event);
            let done = deeds(after.effects);
            let moves = seq![Deed::<S, R>::Exit(machine.state), Deed::Enter];
            match result {
                EventResult::NextState(state) => done == moves && after.machine.state == state,
                EventResult::NextStateTimeout(state, timeout) => {
                    &&& done == moves.push(Deed::Timer(TimeoutModel::State, timeout))
                    &&& after.machine.state == state
                },
                EventResult::KeepState => done.len() == 0 && after.machine.state == machine.state,
                EventResult::KeepStateTimeout(timeout) => {
                    &&& done == seq![Deed::<S, R>::Timer(TimeoutModel::State, timeout)]
                    &&& after.machine.state == machine.state
                },
                EventResult::NextStateActions(state, actions) => {
                    &&& done == moves + deeds_asked::<S, R>(actions@)
                    &&& after.machine.state == state
                },
                EventResult::KeepStateActions(actions) => {
                    &&& done == deeds_asked::<S, R>(actions@)
                    &&& after.machine.state == machine.state
                },
                EventResult::Stop(reason) => {
                    &&& done == seq![Deed::<S, R>::Terminate(reason.deep_view())]
                    &&& after.machine.state == machine.state
                },
                EventResult::StopReply(reason, from, reply) => {
                    &&& done == seq![
                        Deed::Reply(from, reply),
                        Deed::<S, R>::Terminate(reason.deep_view()),
                    ]
                    &&& after.machine.state == machine.state
                },
            }
        }),
        machine.after_event(result, event).machine.stopped == (machine.stopped || result is Stop
            || result is StopReply),
{
    let effects = machine.after_event(result, event).effects;
    lemma_leaves_deeds::<S, R>(machine);
    lemma_no_deeds(machine.timers.cancels_state::<S, R>());
    match result {
        EventResult::NextStateTimeout(state, timeout) => {
            let o = machine.goes::<R>(state);
            lemma_sets_state::<S, R>(o.machine.timers, timeout);
            lemma_deeds_add(o.effects, o.machine.timers.sets_state::<S, R>(timeout));
        },
        EventResult::KeepStateTimeout(timeout) => {
            lemma_sets_state::<S, R>(machine.timers, timeout);
            assert(effects =~= machine.timers.sets_state::<S, R>(timeout));
        },
        EventResult::NextStateActions(state, actions) => {
            let o = machine.goes::<R>(state);
            lemma_acted_all_deeds(
                Acting { timers: o.machine.timers, effects: o.effects, postpone: false },
                actions@,
            );
        },
        EventResult::KeepStateActions(actions) => {
            let o = machine.stays::<R>();
            lemma_acted_all_deeds(
                Acting { timers: o.machine.timers, effects: o.effects, postpone: false },
                actions@,
            );
            assert(deeds(effects) =~= deeds_asked::<S, R>(actions@));
        },
        EventResult::Stop(reason) => {
            let none = Seq::<EffectModel<S, R>>::empty();
            lemma_deeds_push(none, EffectModel::Terminate(reason.deep_view()));
            assert(effects =~= none.push(EffectModel::Terminate(reason.deep_view())));
        },
        EventResult::StopReply(reason, from, reply) => {
            lemma_two(
                EffectModel::<S, R>::Reply(from, reply),
                EffectModel::Terminate(reason.deep_view()),
            );
        },
        _ => {},
    }
}

proof fn lemma_two<S, R>(a: EffectModel<S, R>, b: EffectModel<S, R>)
    ensures
        deeds(seq![a, b]) == deeds(seq![a]) + deeds(seq![b]),
        a matches EffectModel::Reply(from, reply) ==> deeds(seq![a]) == seq![
            Deed::<S, R>::Reply(from, reply),
        ],
        b matches EffectModel::Terminate(reason) ==> deeds(seq![b]) == seq![
            Deed::<S, R>::Terminate(reason),
        ],
{
    let none = Seq::<EffectModel<S, R>>::empty();
    assert(seq![a, b] =~= seq![a] + seq![b]);
    lemma_deeds_add(seq![a], seq![b]);
    assert(seq![a] =~= none.push(a));
    assert(seq![b] =~= none.push(b));
    lemma_deeds_push(none, a);
    lemma_deeds_push(none, b);
}

/// A machine does what a call handler's result asks for, and nothing else. A
/// caller that gets a reply gets the very one that was given, and gets it first; a
/// timer is started for a timeout that is set, of the very duration that was given.
pub proof fn call_results_are_followed<S, R>(
    machine: MachineModel<S>,
    result: CallResult<S, R>,
    from: types::From,
)
    ensures
        ({
            let after = machine.after_call(result, from);
            let done = deeds(after.effects);
            let moves = seq![Deed::<S, R>::Exit(machine.state), Deed::Enter];
            match result {
                CallResult::Reply(reply, state) => {
                    &&& done == seq![Deed::Reply(from, reply)] + moves
                    &&& after.machine.state == state
                },
                CallResult::ReplyTimeout(reply, state, timeout) => {
                    &&& done == (seq![Deed::Reply(from, reply)] + moves).push(
                        Deed::Timer(TimeoutModel::State, timeout),
                    )
                    &&& after.machine.state == state
                },
                CallResult::NoReply(state) => done == moves && after.machine.state == state,
                CallResult::NoReplyTimeout(state, timeout) => {
                    &&& done == moves.push(Deed::Timer(TimeoutModel::State, timeout))
                    &&& after.machine.state == state
                },
                CallResult::KeepStateReply(reply) => {
                    &&& done == seq![Deed::<S, R>::Reply(from, reply)]
                    &&& after.machine == machine
                },
                CallResult::KeepState => done.len() == 0 && after.machine == machine,
                CallResult::Stop(reason, reply, state) => {
                    &&& done == seq![
                        Deed::<S, R>::Reply(from, reply),
                        Deed::Terminate(reason.deep_view()),
                    ]
                    &&& after.machine.state == state
                },
                CallResult::StopNoReply(reason, state) => {
                    &&& done == seq![Deed::<S, R>::Terminate(reason.deep_view())]
                    &&& after.machine.state == state
                },
            }
        }),
        machine.after_call(result, from).machine.stopped == (machine.stopped || result is Stop
            || result is StopNoReply),
{
    let effects = machine.after_call(result, from).effects;
    let none = Seq::<EffectModel<S, R>>::empty();
    lemma_leaves_deeds::<S, R>(machine);
    match result {
        CallResult::Reply(reply, state) => {
            lemma_two(EffectModel::<S, R>::Reply(from, reply), EffectModel::Enter);
            lemma_deeds_add(
                seq![EffectModel::<S, R>::Reply(from, reply)],
                machine.goes::<R>(state).effects,
            );
        },
        CallResult::ReplyTimeout(reply, state, timeout) => {
            let o = machine.goes::<R>(state);
            lemma_two(EffectModel::<S, R>::Reply(from, reply), EffectModel::Enter);
            lemma_sets_state::<S, R>(o.machine.timers, timeout);
            lemma_deeds_add(o.effects, o.machine.timers.sets_state::<S, R>(timeout));
            lemma_deeds_add(
                seq![EffectModel::<S, R>::Reply(from, reply)],
                o.sets_timeout(timeout).effects,
            );
        },
        CallResult::NoReplyTimeout(state, timeout) => {
            let o = machine.goes::<R>(state);
            lemma_sets_state::<S, R>(o.machine.timers, timeout);
            lemma_deeds_add(o.effects, o.machine.timers.sets_state::<S, R>(timeout));
        },
        CallResult::KeepStateReply(reply) => {
            lemma_two(EffectModel::<S, R>::Reply(from, reply), EffectModel::Enter);
        },
        CallResult::Stop(reason, reply, state) => {
            lemma_two(
                EffectModel::<S, R>::Reply(from, reply),
                EffectModel::Terminate(reason.deep_view()),
            );
        },
        CallResult::StopNoReply(reason, state) => {
            lemma_two(EffectModel::<S, R>::Enter, EffectModel::Terminate(reason.deep_view()));
        },
        _ => {},
    }
}

/// The duration of the state timeout that an event handler's result sets, if it
/// sets one.
pub open spec fn timeout_of_event<S, R>(result: EventResult<S, R>) -> Option<Duration> {
    match result {
        EventResult::NextStateTimeout(_, timeout) => Some(timeout),
        EventResult::KeepStateTimeout(timeout) => Some(timeout),
        _ => None,
    }
}

/// The duration of the state timeout that a call handler's result sets, if it
/// sets one.
pub open spec fn timeout_of_call<S, R>(result: CallResult<S, R>) -> Option<Duration> {
    match result {
        CallResult::ReplyTimeout(_, _, timeout) => Some(timeout),
        CallResult::NoReplyTimeout(_, timeout) => Some(timeout),
        _ => None,
    }
}

/// Whether the effects start exactly one timer: the state timer, known by the
/// number, of the duration.
pub open spec fn starts_one<S, R>(
    effects: Seq<EffectModel<S, R>>,
    id: u64,
    duration: Duration,
) -> bool {
    exists|i: int|
        {
            &&& 0 <= i < effects.len()
            &&& #[trigger] effects[i] == EffectModel::<S, R>::StartTimer {
                id,
                event: TimeoutModel::State,
                duration,
            }
            &&& forall|j: int|
                0 <= j < effects.len() && j != i ==> !(#[trigger] effects[j] is StartTimer)
        }
}

/// A result that sets a state timeout asks for exactly one timer to be started. It
/// is the state timer, its duration is the one that was given, and it is the one
/// that runs as the state timer then. The same holds of a start with a timeout, and
/// of an action.
pub proof fn state_timeout_starts_one_timer<S, R>(
    machine: MachineModel<S>,
    event_result: EventResult<S, R>,
    event: Seq<u8>,
    call_result: CallResult<S, R>,
    from: types::From,
    state: S,
    duration: Duration,
    timers: TimersModel,
)
    ensures
        timeout_of_event(event_result) matches Some(d) ==> {
            let after = machine.after_event(event_result, event);
            &&& after.machine.timers.state matches Some(id)
            &&& starts_one(after.effects, id, d)
        },
        timeout_of_call(call_result) matches Some(d) ==> {
            let after = machine.after_call(call_result, from);
            &&& after.machine.timers.state matches Some(id)
            &&& starts_one(after.effects, id, d)
        },
        ({
            let start = fresh(state).timers;
            &&& start.state_set().state matches Some(id)
            &&& starts_one(
                start.sets_state::<S, R>(duration).push(EffectModel::Enter),
                id,
                duration,
            )
        }),
        ({
            let now = Acting { timers, effects: Seq::<EffectModel<S, R>>::empty(), postpone: false };
            let after = acted(now, StateAction::StateTimeout(duration));
            &&& after.timers.state matches Some(id)
            &&& starts_one(after.effects, id, duration)
        }),
{
    if let Some(d) = timeout_of_event(event_result) {
        let after = machine.after_event(event_result, event);
        lemma_starts_one(after.effects, d);
    }
    if let Some(d) = timeout_of_call(call_result) {
        let after = machine.after_call(call_result, from);
        lemma_starts_one(after.effects, d);
    }
    let started = fresh(state).timers.sets_state::<S, R>(duration).push(EffectModel::Enter);
    assert(started[0] is StartTimer);
    let now = Acting { timers, effects: Seq::<EffectModel<S, R>>::empty(), postpone: false };
    let after = acted(now, StateAction::StateTimeout(duration));
    lemma_starts_one(after.effects, duration);
}

proof fn lemma_starts_one<S, R>(effects: Seq<EffectModel<S, R>>, duration: Duration)
    requires
        effects.len() > 0,
        effects.last() is StartTimer,
        effects.last()->event == TimeoutModel::State,
        effects.last()->duration == duration,
        forall|j: int| 0 <= j < effects.len() - 1 ==> !(#[trigger] effects[j] is StartTimer),
    ensures
        starts_one(effects, effects.last()->StartTimer_id, duration),
{
    assert(effects[effects.len() - 1] is StartTimer);
}

/// The timers that run, each with what runs out and its number.
pub open spec fn running(timers: TimersModel) -> Set<(TimeoutModel, u64)> {
    Set::new(
        |t: (TimeoutModel, u64)|
            match t.0 {
                TimeoutModel::State => timers.state == Some(t.1),
                TimeoutModel::Generic(name) => timers.named.contains((name, t.1)),
            },
    )
}

/// The timers that run after effects were carried out, where these ran before: a
/// timer that is started runs, and one that is cancelled does not.
pub open spec fn carried_out<S, R>(
    before: Set<(TimeoutModel, u64)>,
    effects: Seq<EffectModel<S, R>>,
) -> Set<(TimeoutModel, u64)>
    decreases effects.len(),
{
    if effects.len() == 0 {
        before
    } else {
        let then = carried_out(before, effects.drop_last());
        match effects.last() {
            EffectModel::StartTimer { id, event, duration } => then.insert((event, id)),
            EffectModel::CancelTimer(id) => then.filter(|t: (TimeoutModel, u64)| t.1 != id),
            _ => then,
        }
    }
}

/// Whether each timeout has at most one timer, each number belongs to one timer,
/// and the next `more` numbers are not in use.
pub open spec fn numbered(timers: TimersModel, more: int) -> bool {
    &&& timers.next + more <= u64::MAX
    &&& timers.state matches Some(id) ==> id < timers.next
    &&& forall|i: int|
        0 <= i < timers.named.len() ==> (#[trigger] timers.named[i]).1 < timers.next
            && timers.state != Some(timers.named[i].1)
    &&& forall|i: int, j: int|
        0 <= i < timers.named.len() && 0 <= j < timers.named.len() && i != j ==> timers.named[i].0
            != timers.named[j].0 && timers.named[i].1 != timers.named[j].1
}

proof fn lemma_carried_push<S, R>(
    before: Set<(TimeoutModel, u64)>,
    effects: Seq<EffectModel<S, R>>,
    e: EffectModel<S, R>,
)
    ensures
        carried_out(before, effects.push(e)) == (match e {
            EffectModel::StartTimer { id, event, duration } => carried_out(before, effects).insert(
                (event, id),
            ),
            EffectModel::CancelTimer(id) => carried_out(before, effects).filter(
                |t: (TimeoutModel, u64)| t.1 != id,
            ),
            _ => carried_out(before, effects),
        }),
{
    assert(effects.push(e).drop_last() =~= effects);
}

proof fn lemma_carried_add<S, R>(
    before: Set<(TimeoutModel, u64)>,
    a: Seq<EffectModel<S, R>>,
    b: Seq<EffectModel<S, R>>,
)
    ensures
        carried_out(before, a + b) == carried_out(carried_out(before, a), b),
    decreases b.len(),
{
    if b.len() == 0 {
        assert(a + b =~= a);
    } else {
        lemma_carried_add(before, a, b.drop_last());
        assert((a + b).drop_last() =~= a + b.drop_last());
    }
}

proof fn lemma_carried_cancels<S, R>(
    before: Set<(TimeoutModel, u64)>,
    effects: Seq<EffectModel<S, R>>,
    t: (TimeoutModel, u64),
)
    requires
        forall|i: int| 0 <= i < effects.len() ==> #[trigger] effects[i] is CancelTimer,
    ensures
        carried_out(before, effects).contains(t) <==> before.contains(t) && !effects.contains(
            EffectModel::CancelTimer(t.1),
        ),
    decreases effects.len(),
{
    if effects.len() > 0 {
        let less = effects.drop_last();
        let last = effects.last();
        assert(effects[effects.len() - 1] is CancelTimer);
        lemma_carried_cancels(before, less, t);
        let e = EffectModel::<S, R>::CancelTimer(t.1);
        if less.contains(e) {
            let i = choose|i: int| 0 <= i < less.len() && less[i] == e;
            assert(effects[i] == e);
        }
        if effects.contains(e) && last != e {
            let i = choose|i: int| 0 <= i < effects.len() && effects[i] == e;
            assert(less[i] == e);
        }
    }
}

proof fn lemma_state_set_runs<S, R>(timers: TimersModel, duration: Duration, more: int)
    requires
        numbered(timers, more),
        more > 0,
    ensures
        numbered(timers.state_set(), more - 1),
        running(timers.state_set()) == carried_out(
            running(timers),
            timers.sets_state::<S, R>(duration),
        ),
{
    let cancels = timers.cancels_state::<S, R>();
    let start = EffectModel::<S, R>::StartTimer {
        id: timers.next,
        event: TimeoutModel::State,
        duration,
    };
    lemma_carried_push(running(timers), cancels, start);
    assert forall|t: (TimeoutModel, u64)| #[trigger]
        running(timers.state_set()).contains(t) <==> carried_out(
            running(timers),
            cancels.push(start),
        ).contains(t) by {
        lemma_carried_cancels(running(timers), cancels, t);
        if let Some(id) = timers.state {
            assert(cancels[0] == EffectModel::<S, R>::CancelTimer(id));
        }
        if let TimeoutModel::Generic(name) = t.0 {
            if timers.named.contains((name, t.1)) {
                let i = choose|i: int| 0 <= i < timers.named.len() && timers.named[i] == (name, t.1);
                assert(timers.named[i].1 < timers.next);
            }
        }
    }
    assert(running(timers.state_set()) =~= carried_out(running(timers), cancels.push(start)));
}

proof fn lemma_named_cancelled_runs<S, R>(timers: TimersModel, name: Seq<char>, more: int)
    requires
        numbered(timers, more),
    ensures
        numbered(timers.named_cancelled(name), more),
        running(timers.named_cancelled(name)) == carried_out(
            running(timers),
            timers.cancels_named::<S, R>(name),
        ),
        forall|i: int|
            0 <= i < timers.named_cancelled(name).named.len()
                ==> (#[trigger] timers.named_cancelled(name).named[i]).0 != name,
{
    let cancels = timers.cancels_named::<S, R>(name);
    let after = timers.named_cancelled(name);
    if has_key(timers.named, name) {
        let p = place_of(timers.named, name);
        assert(timers.named[p].0 == name);
        assert forall|i: int| 0 <= i < after.named.len() implies #[trigger] after.named[i]
            == timers.named[if i < p {
            i
        } else {
            i + 1
        }] by {}
        assert forall|t: (TimeoutModel, u64)| #[trigger] running(after).contains(t)
            <==> carried_out(running(timers), cancels).contains(t) by {
            lemma_carried_cancels(running(timers), cancels, t);
            assert(cancels[0] == EffectModel::<S, R>::CancelTimer(timers.named[p].1));
            if let TimeoutModel::Generic(n) = t.0 {
                if after.named.contains((n, t.1)) {
                    let i = choose|i: int| 0 <= i < after.named.len() && after.named[i] == (n, t.1);
                    assert(timers.named[if i < p {
                        i
                    } else {
                        i + 1
                    }] == (n, t.1));
                }
                if timers.named.contains((n, t.1)) && t.1 != timers.named[p].1 {
                    let i = choose|i: int|
                        0 <= i < timers.named.len() && timers.named[i] == (n, t.1);
                    assert(after.named[if i < p {
                        i
                    } else {
                        i - 1
                    }] == (n, t.1));
                }
            }
        }
        assert(running(after) =~= carried_out(running(timers), cancels));
    } else {
        assert forall|i: int| 0 <= i < timers.named.len() implies (#[trigger] timers.named[i]).0
            != name by {
            assert(timers.named[i].0 == timers.named[i].0);
        }
    }
}

proof fn lemma_named_set_runs<S, R>(
    timers: TimersModel,
    name: Seq<char>,
    duration: Duration,
    more: int,
)
    requires
        numbered(timers, more),
        more > 0,
    ensures
        numbered(timers.named_set(name), more - 1),
        running(timers.named_set(name)) == carried_out(
            running(timers),
            timers.sets_named::<S, R>(name, duration),
        ),
{
    let start = EffectModel::<S, R>::StartTimer {
        id: timers.next,
        event: TimeoutModel::Generic(name),
        duration,
    };
    let cancels = timers.cancels_named::<S, R>(name);
    let less = timers.named_cancelled(name);
    let after = timers.named_set(name);
    lemma_named_cancelled_runs::<S, R>(timers, name, more);
    lemma_carried_push(running(timers), cancels, start);
    assert(after.named =~= less.named.push((name, timers.next)));
    assert forall|t: (TimeoutModel, u64)| #[trigger] running(after).contains(t) <==> running(
        less,
    ).insert((TimeoutModel::Generic(name), timers.next)).contains(t) by {
        if let TimeoutModel::Generic(n) = t.0 {
            if less.named.contains((n, t.1)) {
                let i = choose|i: int| 0 <= i < less.named.len() && less.named[i] == (n, t.1);
                assert(after.named[i] == (n, t.1));
            }
            assert(after.named[less.named.len() as int] == (name, timers.next));
            if after.named.contains((n, t.1)) {
                let i = choose|i: int| 0 <= i < after.named.len() && after.named[i] == (n, t.1);
                if i < less.named.len() {
                    assert(less.named[i] == (n, t.1));
                }
            }
        }
    }
    assert(running(after) =~= running(less).insert((TimeoutModel::Generic(name), timers.next)));
}

proof fn lemma_acted_runs<S, R>(
    before: Set<(TimeoutModel, u64)>,
    now: Acting<S, R>,
    action: StateAction<R>,
    more: int,
)
    requires
        numbered(now.timers, more),
        more > 0,
        running(now.timers) == carried_out(before, now.effects),
    ensures
        numbered(acted(now, action).timers, more - 1),
        running(acted(now, action).timers) == carried_out(before, acted(now, action).effects),
{
    match action {
        StateAction::Reply(from, reply) => {
            lemma_carried_push(before, now.effects, EffectModel::Reply(from, reply));
        },
        StateAction::StateTimeout(duration) => {
            lemma_state_set_runs::<S, R>(now.timers, duration, more);
            lemma_carried_add(before, now.effects, now.timers.sets_state::<S, R>(duration));
        },
        StateAction::GenericTimeout(name, duration) => {
            lemma_named_set_runs::<S, R>(now.timers, name@, duration, more);
            lemma_carried_add(before, now.effects, now.timers.sets_named::<S, R>(name@, duration));
        },
        StateAction::CancelTimeout(name) => {
            lemma_named_cancelled_runs::<S, R>(now.timers, name@, more);
            lemma_carried_add(before, now.effects, now.timers.cancels_named::<S, R>(name@));
        },
        _ => {},
    }
}

proof fn lemma_acted_all_runs<S, R>(
    before: Set<(TimeoutModel, u64)>,
    now: Acting<S, R>,
    actions: Seq<StateAction<R>>,
    more: int,
)
    requires
        numbered(now.timers, more),
        more >= actions.len(),
        running(now.timers) == carried_out(before, now.effects),
    ensures
        numbered(acted_all(now, actions).timers, more - actions.len()),
        running(acted_all(now, actions).timers) == carried_out(
            before,
            acted_all(now, actions).effects,
        ),
    decreases actions.len(),
{
    if actions.len() > 0 {
        lemma_acted_runs(before, now, actions[0], more);
        lemma_acted_all_runs(
            before,
            acted(now, actions[0]),
            actions.drop_first(),
            more - 1,
        );
    }
}

proof fn lemma_leaves_runs<S, R>(machine: MachineModel<S>, state: S, more: int)
    requires
        numbered(machine.timers, more),
    ensures
        numbered(machine.goes::<R>(state).machine.timers, more),
        running(machine.goes::<R>(state).machine.timers) == carried_out(
            running(machine.timers),
            machine.goes::<R>(state).effects,
        ),
{
    let timers = machine.timers;
    let before = running(timers);
    let cancels = timers.cancels_all::<S, R>();
    let first = timers.cancels_state::<S, R>();
    assert forall|t: (TimeoutModel, u64)| !#[trigger] carried_out(before, cancels).contains(t) by {
        lemma_carried_cancels(before, cancels, t);
        if before.contains(t) {
            match t.0 {
                TimeoutModel::State => {
                    assert(cancels[0] == EffectModel::<S, R>::CancelTimer(t.1));
                },
                TimeoutModel::Generic(name) => {
                    let i = choose|i: int|
                        0 <= i < timers.named.len() && timers.named[i] == (name, t.1);
                    assert(cancels[first.len() + i] == EffectModel::<S, R>::CancelTimer(t.1));
                },
            }
        }
    }
    let exit = cancels.push(EffectModel::Exit(machine.state));
    lemma_carried_push(before, cancels, EffectModel::Exit(machine.state));
    lemma_carried_push(before, exit, EffectModel::Enter);
    assert(machine.leaves::<R>() =~= exit.push(EffectModel::Enter));
    assert(running(machine.goes::<R>(state).machine.timers) =~= carried_out(
        before,
        machine.goes::<R>(state).effects,
    ));
}

/// How many timers an event handler's result may set.
pub open spec fn most_timers<S, R>(result: EventResult<S, R>) -> int {
    match result {
        EventResult::NextStateTimeout(_, _) => 1,
        EventResult::KeepStateTimeout(_) => 1,
        EventResult::NextStateActions(_, actions) => actions@.len() as int,
        EventResult::KeepStateActions(actions) => actions@.len() as int,
        _ => 0,
    }
}

/// The timers of a machine are those that run once what an event handler's result
/// asks for has been carried out: none that was started and not cancelled is
/// forgotten, none that was cancelled is kept, and each timeout has at most one.
pub proof fn timers_follow_event_results<S, R>(
    machine: MachineModel<S>,
    result: EventResult<S, R>,
    event: Seq<u8>,
    more: int,
)
    requires
        more >= most_timers(result),
        numbered(machine.timers, more),
    ensures
        ({
            let after = machine.after_event(result, event);
            &&& numbered(after.machine.timers, more - most_timers(result))
            &&& running(after.machine.timers) == carried_out(
                running(machine.timers),
                after.effects,
            )
        }),
{
    let before = running(machine.timers);
    let none = Seq::<EffectModel<S, R>>::empty();
    match result {
        EventResult::NextState(state) => {
            lemma_leaves_runs::<S, R>(machine, state, more);
        },
        EventResult::NextStateTimeout(state, timeout) => {
            let o = machine.goes::<R>(state);
            lemma_leaves_runs::<S, R>(machine, state, more);
            lemma_state_set_runs::<S, R>(o.machine.timers, timeout, more);
            lemma_carried_add(before, o.effects, o.machine.timers.sets_state::<S, R>(timeout));
        },
        EventResult::KeepState => {
            lemma_stays_runs::<S, R>(machine, more);
        },
        EventResult::KeepStateTimeout(timeout) => {
            lemma_state_set_runs::<S, R>(machine.timers, timeout, more);
            assert(none + machine.timers.sets_state::<S, R>(timeout)
                =~= machine.timers.sets_state::<S, R>(timeout));
        },
        EventResult::NextStateActions(state, actions) => {
            let o = machine.goes::<R>(state);
            lemma_leaves_runs::<S, R>(machine, state, more);
            lemma_acted_all_runs(
                before,
                Acting { timers: o.machine.timers, effects: o.effects, postpone: false },
                actions@,
                more,
            );
        },
        EventResult::KeepStateActions(actions) => {
            let o = machine.stays::<R>();
            lemma_stays_runs::<S, R>(machine, more);
            lemma_acted_all_runs(
                before,
                Acting { timers: o.machine.timers, effects: o.effects, postpone: false },
                actions@,
                more,
            );
        },
        EventResult::Stop(reason) => {
            let e = EffectModel::<S, R>::Terminate(reason.deep_view());
            lemma_carried_push(before, none, e);
            assert(seq![e] =~= none.push(e));
        },
        EventResult::StopReply(reason, from, reply) => {
            let d = EffectModel::<S, R>::Reply(from, reply);
            let e = EffectModel::<S, R>::Terminate(reason.deep_view());
            lemma_carried_push(before, none, d);
            lemma_carried_push(before, none.push(d), e);
            assert(seq![d, e] =~= none.push(d).push(e));
        },
    }
}

proof fn lemma_stays_runs<S, R>(machine: MachineModel<S>, more: int)
    requires
        numbered(machine.timers, more),
    ensures
        numbered(machine.stays::<R>().machine.timers, more),
        running(machine.stays::<R>().machine.timers) == carried_out(
            running(machine.timers),
            machine.stays::<R>().effects,
        ),
{
    let timers = machine.timers;
    let cancels = timers.cancels_state::<S, R>();
    let after = timers.state_cancelled();
    assert forall|t: (TimeoutModel, u64)| #[trigger] running(after).contains(t) <==> carried_out(
        running(timers),
        cancels,
    ).contains(t) by {
        lemma_carried_cancels(running(timers), cancels, t);
        if let Some(id) = timers.state {
            assert(cancels[0] == EffectModel::<S, R>::CancelTimer(id));
        }
        if let TimeoutModel::Generic(name) = t.0 {
            if timers.named.contains((name, t.1)) {
                let i = choose|i: int| 0 <= i < timers.named.len() && timers.named[i] == (name, t.1);
                assert(timers.named[i].1 < timers.next);
            }
        }
    }
    assert(running(after) =~= carried_out(running(timers), cancels));
}

/// The timers of a machine are those that run once what a call handler's result
/// asks for has been carried out.
pub proof fn timers_follow_call_results<S, R>(
    machine: MachineModel<S>,
    result: CallResult<S, R>,
    from: types::From,
    more: int,
)
    requires
        more >= 1,
        numbered(machine.timers, more),
    ensures
        ({
            let after = machine.after_call(result, from);
            &&& numbered(after.machine.timers, more - 1)
            &&& running(after.machine.timers) == carried_out(
                running(machine.timers),
                after.effects,
            )
        }),
{
    let before = running(machine.timers);
    let none = Seq::<EffectModel<S, R>>::empty();
    match result {
        CallResult::Reply(reply, state) => {
            let o = machine.goes::<R>(state);
            lemma_leaves_runs::<S, R>(machine, state, more);
            lemma_reply_runs(before, from, reply, o.effects);
        },
        CallResult::ReplyTimeout(reply, state, timeout) => {
            let o = machine.goes::<R>(state);
            lemma_leaves_runs::<S, R>(machine, state, more);
            lemma_state_set_runs::<S, R>(o.machine.timers, timeout, more);
            lemma_carried_add(before, o.effects, o.machine.timers.sets_state::<S, R>(timeout));
            lemma_reply_runs(before, from, reply, o.sets_timeout(timeout).effects);
        },
        CallResult::NoReply(state) => {
            lemma_leaves_runs::<S, R>(machine, state, more);
        },
        CallResult::NoReplyTimeout(state, timeout) => {
            let o = machine.goes::<R>(state);
            lemma_leaves_runs::<S, R>(machine, state, more);
            lemma_state_set_runs::<S, R>(o.machine.timers, timeout, more);
            lemma_carried_add(before, o.effects, o.machine.timers.sets_state::<S, R>(timeout));
        },
        CallResult::KeepStateReply(reply) => {
            lemma_reply_runs(before, from, reply, none);
            assert(seq![EffectModel::<S, R>::Reply(from, reply)] + none =~= seq![
                EffectModel::<S, R>::Reply(from, reply),
            ]);
        },
        CallResult::KeepState => {},
        CallResult::Stop(reason, reply, state) => {
            let e = EffectModel::<S, R>::Terminate(reason.deep_view());
            lemma_carried_push(before, none, e);
            lemma_reply_runs(before, from, reply, none.push(e));
            assert(seq![EffectModel::<S, R>::Reply(from, reply)] + none.push(e) =~= seq![
                EffectModel::<S, R>::Reply(from, reply),
                e,
            ]);
        },
        CallResult::StopNoReply(reason, state) => {
            let e = EffectModel::<S, R>::Terminate(reason.deep_view());
            lemma_carried_push(before, none, e);
            assert(seq![e] =~= none.push(e));
        },
    }
}

proof fn lemma_reply_runs<S, R>(
    before: Set<(TimeoutModel, u64)>,
    from: types::From,
    reply: R,
    effects: Seq<EffectModel<S, R>>,
)
    ensures
        carried_out(before, seq![EffectModel::Reply(from, reply)] + effects) == carried_out(
            before,
            effects,
        ),
{
    let none = Seq::<EffectModel<S, R>>::empty();
    let e = EffectModel::<S, R>::Reply(from, reply);
    lemma_carried_push(before, none, e);
    assert(seq![e] =~= none.push(e));
    lemma_carried_add(before, seq![e], effects);
}

/// A machine that has just started is in its state, with nothing put off and no
/// timer, or with the one that its start set.
pub proof fn machine_starts_afresh<S, R>(state: S, timeout: Duration, more: int)
    requires
        0 < more < u64::MAX,
    ensures
        fresh(state).state == state,
        !fresh(state).stopped,
        fresh(state).postponed.len() == 0,
        fresh(state).retry.len() == 0,
        numbered(fresh(state).timers, more),
        running(fresh(state).timers) == Set::<(TimeoutModel, u64)>::empty(),
        running(fresh(state).timers.state_set()) == carried_out(
            Set::<(TimeoutModel, u64)>::empty(),
            fresh(state).timers.sets_state::<S, R>(timeout),
        ),
{
    assert(running(fresh(state).timers) =~= Set::<(TimeoutModel, u64)>::empty());
    lemma_state_set_runs::<S, R>(fresh(state).timers, timeout, more);
}

/// Whether a timer runs for the timeout.
pub open spec fn runs(timers: TimersModel, event: TimeoutModel) -> bool {
    exists|id: u64| #[trigger] running(timers).contains((event, id))
}

/// What actions do about a timeout: the last of them that is about it sets it, or
/// cancels it. There may be none.
pub open spec fn last_word<R>(actions: Seq<StateAction<R>>, event: TimeoutModel) -> Option<bool>
    decreases actions.len(),
{
    if actions.len() == 0 {
        None
    } else {
        match actions.last() {
            StateAction::StateTimeout(_) if event is State => Some(true),
            StateAction::GenericTimeout(name, _) if event == TimeoutModel::Generic(
                name@,
            ) => Some(true),
            StateAction::CancelTimeout(name) if event == TimeoutModel::Generic(
                name@,
            ) => Some(false),
            _ => last_word(actions.drop_last(), event),
        }
    }
}

proof fn lemma_last_word<R>(actions: Seq<StateAction<R>>, event: TimeoutModel)
    requires
        actions.len() > 0,
    ensures
        last_word(actions, event) == (match last_word(actions.drop_first(), event) {
            Some(set) => Some(set),
            None => last_word(seq![actions[0]], event),
        }),
    decreases actions.len(),
{
    let first = seq![actions[0]];
    assert(first.drop_last() =~= Seq::<StateAction<R>>::empty());
    if actions.len() > 1 {
        lemma_last_word(actions.drop_last(), event);
        assert(actions.drop_first().drop_last() =~= actions.drop_last().drop_first());
    } else {
        assert(actions =~= first);
    }
}

proof fn lemma_acted_word<S, R>(
    now: Acting<S, R>,
    action: StateAction<R>,
    event: TimeoutModel,
    id: u64,
    more: int,
)
    requires
        numbered(now.timers, more),
        more > 0,
    ensures
        ({
            let after = acted(now, action).timers;
            match last_word(seq![action], event) {
                None => running(after).contains((event, id)) == running(now.timers).contains(
                    (event, id),
                ),
                Some(true) => runs(after, event),
                Some(false) => !running(after).contains((event, id)),
            }
        }),
{
    let one = seq![action];
    assert(one.drop_last() =~= Seq::<StateAction<R>>::empty());
    assert(last_word(one.drop_last(), event) is None);
    let after = acted(now, action).timers;
    match action {
        StateAction::StateTimeout(duration) => {
            assert(running(after).contains((TimeoutModel::State, now.timers.next)));
        },
        StateAction::GenericTimeout(name, duration) => {
            lemma_named_cancelled_runs::<S, R>(now.timers, name@, more);
            let less = now.timers.named_cancelled(name@);
            assert(after.named =~= less.named.push((name@, now.timers.next)));
            assert(after.named[less.named.len() as int] == (name@, now.timers.next));
            assert(running(after).contains((TimeoutModel::Generic(name@), now.timers.next)));
            if let TimeoutModel::Generic(n) = event {
                if n != name@ {
                    lemma_other_names(now.timers, name@, n, id);
                    if less.named.contains((n, id)) {
                        let i = choose|i: int|
                            0 <= i < less.named.len() && less.named[i] == (n, id);
                        assert(after.named[i] == (n, id));
                    }
                    if after.named.contains((n, id)) {
                        let i = choose|i: int|
                            0 <= i < after.named.len() && after.named[i] == (n, id);
                        assert(less.named[i] == (n, id));
                    }
                }
            }
        },
        StateAction::CancelTimeout(name) => {
            lemma_named_cancelled_runs::<S, R>(now.timers, name@, more);
            if let TimeoutModel::Generic(n) = event {
                if n != name@ {
                    lemma_other_names(now.timers, name@, n, id);
                } else if after.named.contains((n, id)) {
                    let i = choose|i: int| 0 <= i < after.named.len() && after.named[i] == (n, id);
                    assert(after.named[i].0 != name@);
                }
            }
        },
        _ => {},
    }
}

proof fn lemma_other_names(timers: TimersModel, name: Seq<char>, other: Seq<char>, id: u64)
    requires
        other != name,
    ensures
        timers.named_cancelled(name).named.contains((other, id)) == timers.named.contains(
            (other, id),
        ),
{
    let after = timers.named_cancelled(name).named;
    if has_key(timers.named, name) {
        let p = place_of(timers.named, name);
        assert(timers.named[p].0 == name);
        if timers.named.contains((other, id)) {
            let i = choose|i: int| 0 <= i < timers.named.len() && timers.named[i] == (other, id);
            assert(after[if i < p {
                i
            } else {
                i - 1
            }] == (other, id));
        }
        if after.contains((other, id)) {
            let i = choose|i: int| 0 <= i < after.len() && after[i] == (other, id);
            assert(timers.named[if i < p {
                i
            } else {
                i + 1
            }] == (other, id));
        }
    }
}

proof fn lemma_acted_all_word<S, R>(
    now: Acting<S, R>,
    actions: Seq<StateAction<R>>,
    event: TimeoutModel,
    id: u64,
    more: int,
)
    requires
        numbered(now.timers, more),
        more >= actions.len(),
    ensures
        ({
            let after = acted_all(now, actions).timers;
            match last_word(actions, event) {
                None => running(after).contains((event, id)) == running(now.timers).contains(
                    (event, id),
                ),
                Some(true) => runs(after, event),
                Some(false) => !running(after).contains((event, id)),
            }
        }),
    decreases actions.len(),
{
    if actions.len() > 0 {
        let next = acted(now, actions[0]);
        let rest = actions.drop_first();
        lemma_last_word(actions, event);
        lemma_acted_word(now, actions[0], event, id, more);
        let none = Acting { effects: Seq::<EffectModel<S, R>>::empty(), ..now };
        lemma_acted_runs(running(now.timers), none, actions[0], more);
        assert(acted(none, actions[0]).timers == next.timers);
        lemma_acted_all_word(next, rest, event, id, more - 1);
        if last_word(rest, event) is None && last_word(seq![actions[0]], event) == Some(true) {
            let k = choose|k: u64| #[trigger] running(next.timers).contains((event, k));
            lemma_acted_all_word(next, rest, event, k, more - 1);
        }
    }
}

/// Which timers run after an event. A machine that goes to a next state keeps none but
/// those that the result sets. One that stays in its state keeps the named ones that
/// the result is not about, and its state timeout is over, unless the result sets a new
/// one. One that stops keeps all.
pub proof fn event_result_decides_timers<S, R>(
    machine: MachineModel<S>,
    result: EventResult<S, R>,
    bytes: Seq<u8>,
    event: TimeoutModel,
    id: u64,
)
    requires
        numbered(machine.timers, most_timers(result)),
    ensures
        ({
            let before = machine.timers;
            let after = machine.after_event(result, bytes).machine.timers;
            let ran = running(before).contains((event, id));
            let now = running(after).contains((event, id));
            match result {
                EventResult::NextState(_) => !now,
                EventResult::NextStateTimeout(_, _) => if event is State {
                    runs(after, event)
                } else {
                    !now
                },
                EventResult::KeepState => now == (ran && !(event is State)),
                EventResult::KeepStateTimeout(_) => if event is State {
                    runs(after, event)
                } else {
                    now == ran
                },
                EventResult::NextStateActions(_, actions) => if last_word(actions@, event) == Some(
                    true,
                ) {
                    runs(after, event)
                } else {
                    !now
                },
                EventResult::KeepStateActions(actions) => match last_word(actions@, event) {
                    Some(true) => runs(after, event),
                    Some(false) => !now,
                    None => now == (ran && !(event is State)),
                },
                _ => now == ran,
            }
        }),
{
    let after = machine.after_event(result, bytes).machine.timers;
    match result {
        EventResult::NextStateTimeout(state, _) => {
            let next = machine.goes::<R>(state).machine.timers.next;
            assert(running(after).contains((TimeoutModel::State, next)));
        },
        EventResult::KeepStateTimeout(_) => {
            assert(running(after).contains((TimeoutModel::State, machine.timers.next)));
        },
        EventResult::NextStateActions(state, actions) => {
            let o = machine.goes::<R>(state);
            lemma_acted_all_word(
                Acting { timers: o.machine.timers, effects: o.effects, postpone: false },
                actions@,
                event,
                id,
                actions@.len() as int,
            );
        },
        EventResult::KeepStateActions(actions) => {
            let o = machine.stays::<R>();
            lemma_acted_all_word(
                Acting { timers: o.machine.timers, effects: o.effects, postpone: false },
                actions@,
                event,
                id,
                actions@.len() as int,
            );
        },
        _ => {},
    }
}

/// Which timers run after a call. A machine that goes to a next state keeps none but
/// the state timeout that the result sets, and any other keeps all.
pub proof fn call_result_decides_timers<S, R>(
    machine: MachineModel<S>,
    result: CallResult<S, R>,
    from: types::From,
    event: TimeoutModel,
    id: u64,
)
    ensures
        ({
            let after = machine.after_call(result, from).machine.timers;
            let now = running(after).contains((event, id));
            match result {
                CallResult::Reply(_, _) => !now,
                CallResult::NoReply(_) => !now,
                CallResult::ReplyTimeout(_, _, _) => if event is State {
                    runs(after, event)
                } else {
                    !now
                },
                CallResult::NoReplyTimeout(_, _) => if event is State {
                    runs(after, event)
                } else {
                    !now
                },
                _ => now == running(machine.timers).contains((event, id)),
            }
        }),
{
    let after = machine.after_call(result, from).machine.timers;
    match result {
        CallResult::ReplyTimeout(_, _, _) => {
            assert(running(after).contains((TimeoutModel::State, machine.timers.next)));
        },
        CallResult::NoReplyTimeout(_, _) => {
            assert(running(after).contains((TimeoutModel::State, machine.timers.next)));
        },
        _ => {},
    }
}

/// An effect says what is in it, every part of it.
pub proof fn effects_are_read_whole<S, R>(effect: FsmEffect<S, R>, model: EffectModel<S, R>)
    ensures
        effect.model() == model <==> match (effect, model) {
            (FsmEffect::Reply(f, r), EffectModel::Reply(from, reply)) => f == from && r == reply,
            (FsmEffect::Exit(s), EffectModel::Exit(state)) => s == state,
            (FsmEffect::Enter, EffectModel::Enter) => true,
            (
                FsmEffect::StartTimer { id: i, event: e, duration: d },
                EffectModel::StartTimer { id, event, duration },
            ) => {
                &&& i == id
                &&& d == duration
                &&& match (e, event) {
                    (TimeoutEvent::State, TimeoutModel::State) => true,
                    (TimeoutEvent::Generic(n), TimeoutModel::Generic(name)) => n@ == name,
                    _ => false,
                }
            },
            (FsmEffect::CancelTimer(i), EffectModel::CancelTimer(id)) => i == id,
            (FsmEffect::Terminate(r), EffectModel::Terminate(reason)) => r.deep_view() == reason,
            _ => false,
        },
{
}

/// Effects are told all and in order.
pub proof fn effects_are_told_in_order<S, R>(effects: Seq<FsmEffect<S, R>>, i: int)
    requires
        0 <= i < effects.len(),
    ensures
        effect_models(effects).len() == effects.len(),
        effect_models(effects)[i] == effects[i].model(),
{
}

/// A message of a state machine says what is in it, every part of it.
pub proof fn fsm_messages_are_read_whole(message: FsmMessage, model: FsmMessageModel)
    ensures
        message.deep_view() == model <==> match (message, model) {
            (FsmMessage::Event(d), FsmMessageModel::Event(data)) => d@ == data,
            (
                FsmMessage::Call { from: f, reference: r, request: q },
                FsmMessageModel::Call { from, reference, request },
            ) => f == from && r == reference && q@ == request,
            (
                FsmMessage::Reply { reference: r, reply: p },
                FsmMessageModel::Reply { reference, reply },
            ) => r == reference && p@ == reply,
            (FsmMessage::StateTimeout, FsmMessageModel::StateTimeout) => true,
            (FsmMessage::GenericTimeout(n), FsmMessageModel::GenericTimeout(name)) => n@ == name,
            _ => false,
        },
{
}

/// A timeout that ran out comes to the machine as the message that says so, with its
/// very name; and that message has the machine sent an event with that name.
pub proof fn timeout_comes_as_event(
    atoms: &AtomTable,
    event: TimeoutModel,
    task: FsmTask,
    rest: Seq<u8>,
)
    requires
        event matches TimeoutModel::Generic(name) ==> encode_utf8(name).len() <= usize::MAX,
    ensures
        PortableFsm::read(timeout_bytes(event) + rest) == Some(
            (
                match event {
                    TimeoutModel::State => PortableFsmModel::StateTimeout,
                    TimeoutModel::Generic(name) => PortableFsmModel::GenericTimeout(name),
                },
                rest,
            ),
        ),
        asks(atoms, PortableFsmModel::StateTimeout, task) <==> (task matches FsmTask::SendSelf(s)
            && s.deep_view() == FsmMessageModel::Event("state_timeout".spec_bytes())),
        event matches TimeoutModel::Generic(name) ==> (asks(
            atoms,
            PortableFsmModel::GenericTimeout(name),
            task,
        ) <==> (task matches FsmTask::SendSelf(s) && s.deep_view() == FsmMessageModel::Event(
            encode_utf8(name),
        ))),
{
    match event {
        TimeoutModel::State => {
            PortableFsm::round_trip(PortableFsmModel::StateTimeout, rest);
        },
        TimeoutModel::Generic(name) => {
            PortableFsm::round_trip(PortableFsmModel::GenericTimeout(name), rest);
        },
    }
}

/// An event has the machine handle its very data, and a call its very request for its
/// very caller. A reply asks for nothing.
pub proof fn messages_ask_for_handling(
    atoms: &AtomTable,
    data: Seq<u8>,
    from: PidModel,
    reference: Ref,
    task: FsmTask,
)
    ensures
        asks(atoms, PortableFsmModel::Event(data), task) <==> (task matches FsmTask::HandleEvent(d)
            && d@ == data),
        asks(atoms, PortableFsmModel::Call { from, reference, request: data }, task) ==> (
        task matches FsmTask::HandleCall(f, r) && f.reference == reference && r@ == data
            && f.caller.spec_id() == from.id && f.caller.spec_creation() == from.creation
            && atoms.string(f.caller.spec_node()) == from.node),
        asks(atoms, PortableFsmModel::Reply { reference, reply: data }, task) <==> task is Nothing,
{
}

} // verus!
