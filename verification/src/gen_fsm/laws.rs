//! What holds of a state machine across messages.
use crate::base::exit_reason::ExitModel;
use crate::gen_fsm::server::{acted, acted_all, Acting, EffectModel, MachineModel, Outcome};
use crate::gen_fsm::types;
use crate::gen_fsm::types::{CallResult, EventResult, StateAction};
use vstd::prelude::*;

verus! {

/// Whether an event handler's result takes the machine to a next state.
pub open spec fn moves_on<S, R>(result: EventResult<S, R>) -> bool {
    result is NextState || result is NextStateTimeout || result is NextStateActions
}

/// Whether a call handler's result takes the machine to a next state.
pub open spec fn call_moves_on<S, R>(result: CallResult<S, R>) -> bool {
    result is Reply || result is ReplyTimeout || result is NoReply || result is NoReplyTimeout
}

/// Whether an event handler's result asks for the event to be put off.
pub open spec fn puts_off<S, R>(result: EventResult<S, R>) -> bool {
    match result {
        EventResult::NextStateActions(state, actions) => exists|i: int|
            0 <= i < actions@.len() && #[trigger] actions@[i] is Postpone,
        EventResult::KeepStateActions(actions) => exists|i: int|
            0 <= i < actions@.len() && #[trigger] actions@[i] is Postpone,
        _ => false,
    }
}

proof fn lemma_postpone<S, R>(now: Acting<S, R>, actions: Seq<StateAction<R>>)
    ensures
        acted_all(now, actions).postpone == (now.postpone || exists|i: int|
            0 <= i < actions.len() && #[trigger] actions[i] is Postpone),
    decreases actions.len(),
{
    if actions.len() > 0 {
        let rest = actions.drop_first();
        lemma_postpone(acted(now, actions[0]), rest);
        if exists|i: int| 0 <= i < rest.len() && #[trigger] rest[i] is Postpone {
            let i = choose|i: int| 0 <= i < rest.len() && #[trigger] rest[i] is Postpone;
            assert(actions[i + 1] is Postpone);
        }
        if exists|i: int| 0 <= i < actions.len() && #[trigger] actions[i] is Postpone {
            let i = choose|i: int| 0 <= i < actions.len() && #[trigger] actions[i] is Postpone;
            if i > 0 {
                assert(rest[i - 1] is Postpone);
            }
        }
    }
}

/// An event that is put off is kept, behind all that were put off before, and
/// none of those is lost.
pub proof fn no_event_is_lost<S, R>(
    machine: MachineModel<S>,
    result: EventResult<S, R>,
    event: Seq<u8>,
)
    ensures
        ({
            let after = machine.after_event(result, event).machine;
            let kept = machine.retry + machine.postponed;
            after.retry + after.postponed == (if puts_off(result) {
                kept.push(event)
            } else {
                kept
            })
        }),
{
    let after = machine.after_event(result, event).machine;
    let kept = machine.retry + machine.postponed;
    match result {
        EventResult::NextStateActions(state, actions) => {
            let o = machine.goes::<R>(state);
            lemma_postpone(
                Acting { timers: o.machine.timers, effects: o.effects, postpone: false },
                actions@,
            );
        },
        EventResult::KeepStateActions(actions) => {
            let o = machine.stays::<R>();
            lemma_postpone(
                Acting { timers: o.machine.timers, effects: o.effects, postpone: false },
                actions@,
            );
        },
        _ => {},
    }
    if puts_off(result) {
        assert(after.retry + after.postponed =~= kept.push(event));
    } else {
        assert(after.retry + after.postponed =~= kept);
    }
}

/// What was put off is retried in the next state, and not before: as long as
/// the machine stays in its state, nothing becomes due for a retry.
pub proof fn retry_waits_for_next_state<S, R>(
    machine: MachineModel<S>,
    result: EventResult<S, R>,
    event: Seq<u8>,
)
    ensures
        !moves_on(result) ==> machine.after_event(result, event).machine.retry == machine.retry,
        moves_on(result) ==> machine.after_event(result, event).machine.postponed == Seq::<
            Seq<u8>,
        >::empty(),
{
}

/// A call loses no event that was put off either. Where it takes the machine to a
/// next state, all of them are due for a retry, and otherwise nothing changes.
pub proof fn calls_keep_events<S, R>(
    machine: MachineModel<S>,
    result: CallResult<S, R>,
    from: types::From,
)
    ensures
        ({
            let after = machine.after_call(result, from).machine;
            if call_moves_on(result) {
                &&& after.retry == machine.retry + machine.postponed
                &&& after.postponed == Seq::<Seq<u8>>::empty()
            } else {
                &&& after.retry == machine.retry
                &&& after.postponed == machine.postponed
            }
        }),
{
}

/// A transition cancels every timer: what runs afterwards was set along with it.
pub proof fn transition_cancels_timers<S, R>(machine: MachineModel<S>, state: S)
    ensures
        machine.goes::<R>(state).machine.timers.state is None,
        machine.goes::<R>(state).machine.timers.named.len() == 0,
        machine.timers.state matches Some(id) ==> machine.goes::<R>(state).effects.contains(
            EffectModel::CancelTimer(id),
        ),
        forall|i: int|
            0 <= i < machine.timers.named.len() ==> machine.goes::<R>(state).effects.contains(
                EffectModel::CancelTimer((#[trigger] machine.timers.named[i]).1),
            ),
{
    let effects = machine.goes::<R>(state).effects;
    let first = machine.timers.cancels_state::<S, R>();
    if let Some(id) = machine.timers.state {
        assert(effects[0] == EffectModel::<S, R>::CancelTimer(id));
    }
    assert forall|i: int| 0 <= i < machine.timers.named.len() implies effects.contains(
        EffectModel::CancelTimer((#[trigger] machine.timers.named[i]).1),
    ) by {
        assert(effects[first.len() + i] == EffectModel::<S, R>::CancelTimer(
            machine.timers.named[i].1,
        ));
    }
}

/// A caller that gets a reply gets it before anything else happens, and gets no other.
pub proof fn call_is_answered_once<S, R>(
    machine: MachineModel<S>,
    result: CallResult<S, R>,
    from: types::From,
)
    ensures
        ({
            let effects = machine.after_call(result, from).effects;
            let replies = result is Reply || result is ReplyTimeout || result is KeepStateReply
                || result is Stop;
            &&& replies ==> effects.len() > 0 && effects[0] is Reply && effects[0]->Reply_0 == from
            &&& forall|i: int|
                0 <= i < effects.len() && (replies ==> i > 0) ==> !(#[trigger] effects[i] is Reply)
        }),
{
}

/// What came of one message: the result of the handler that took it.
#[verifier::reject_recursive_types(S)]
#[verifier::reject_recursive_types(R)]
pub enum Handled<S, R> {
    Event(EventResult<S, R>, Seq<u8>),
    Call(CallResult<S, R>, types::From),
}

/// The reason for which a result stops the machine, if it does.
pub open spec fn stop_reason<S, R>(handled: Handled<S, R>) -> Option<ExitModel> {
    match handled {
        Handled::Event(EventResult::Stop(reason), _) => Some(reason.deep_view()),
        Handled::Event(EventResult::StopReply(reason, _, _), _) => Some(reason.deep_view()),
        Handled::Call(CallResult::Stop(reason, _, _), _) => Some(reason.deep_view()),
        Handled::Call(CallResult::StopNoReply(reason, _), _) => Some(reason.deep_view()),
        _ => None,
    }
}

/// What the machine does with a result.
pub open spec fn step<S, R>(machine: MachineModel<S>, handled: Handled<S, R>) -> Outcome<S, R> {
    match handled {
        Handled::Event(result, event) => machine.after_event(result, event),
        Handled::Call(result, from) => machine.after_call(result, from),
    }
}

/// All that a run asks to be done. Results are taken in order until the machine
/// has stopped or the mailbox is closed.
pub open spec fn run<S, R>(machine: MachineModel<S>, results: Seq<Handled<S, R>>) -> Seq<
    EffectModel<S, R>,
>
    decreases results.len(),
{
    if machine.stopped || results.len() == 0 {
        machine.last_effects()
    } else {
        let next = step(machine, results[0]);
        next.effects + run(next.machine, results.drop_first())
    }
}

/// The reason for which a run ends: that of the first result that stops the
/// machine, or that the mailbox was closed.
pub open spec fn run_reason<S, R>(results: Seq<Handled<S, R>>) -> ExitModel
    decreases results.len(),
{
    if results.len() == 0 {
        ExitModel::Normal
    } else {
        match stop_reason(results[0]) {
            Some(reason) => reason,
            None => run_reason(results.drop_first()),
        }
    }
}

/// Selects what asks for the terminate hook.
pub open spec fn is_hook<S, R>() -> spec_fn(EffectModel<S, R>) -> bool {
    |e: EffectModel<S, R>| e is Terminate
}

/// Whether nothing asks for the terminate hook.
pub open spec fn no_hook<S, R>(effects: Seq<EffectModel<S, R>>) -> bool {
    forall|i: int| 0 <= i < effects.len() ==> !(#[trigger] effects[i] is Terminate)
}

proof fn lemma_acts_without_hook<S, R>(now: Acting<S, R>, actions: Seq<StateAction<R>>)
    requires
        no_hook(now.effects),
    ensures
        no_hook(acted_all(now, actions).effects),
    decreases actions.len(),
{
    if actions.len() > 0 {
        assert(no_hook(acted(now, actions[0]).effects));
        lemma_acts_without_hook(acted(now, actions[0]), actions.drop_first());
    }
}

/// A result that stops the machine asks for the terminate hook with its reason,
/// last and once, and nothing is left to be done after it.
pub proof fn stop_terminates<S, R>(machine: MachineModel<S>, handled: Handled<S, R>)
    requires
        stop_reason(handled) is Some,
    ensures
        ({
            let end = step(machine, handled);
            &&& end.machine.stopped
            &&& end.effects.len() > 0
            &&& end.effects.last() == EffectModel::<S, R>::Terminate(
                stop_reason(handled)->Some_0,
            )
            &&& no_hook(end.effects.drop_last())
            &&& end.machine.last_effects::<R>() == Seq::<EffectModel<S, R>>::empty()
        }),
{
}

/// Only a result that stops the machine stops it, and only such a one asks for
/// the terminate hook.
pub proof fn machine_runs_on<S, R>(machine: MachineModel<S>, handled: Handled<S, R>)
    requires
        stop_reason(handled) is None,
    ensures
        step(machine, handled).machine.stopped == machine.stopped,
        no_hook(step(machine, handled).effects),
{
    if let Handled::Event(result, event) = handled {
        match result {
            EventResult::NextStateActions(state, actions) => {
                let o = machine.goes::<R>(state);
                lemma_acts_without_hook(
                    Acting { timers: o.machine.timers, effects: o.effects, postpone: false },
                    actions@,
                );
            },
            EventResult::KeepStateActions(actions) => {
                let o = machine.stays::<R>();
                lemma_acts_without_hook(
                    Acting { timers: o.machine.timers, effects: o.effects, postpone: false },
                    actions@,
                );
            },
            _ => {},
        }
    }
}

proof fn lemma_no_hook_filter<S, R>(effects: Seq<EffectModel<S, R>>)
    requires
        no_hook(effects),
    ensures
        effects.filter(is_hook()) == Seq::<EffectModel<S, R>>::empty(),
    decreases effects.len(),
{
    reveal(Seq::filter);
    if effects.len() > 0 {
        let less = effects.drop_last();
        assert(no_hook(less)) by {
            assert forall|i: int| 0 <= i < less.len() implies !(#[trigger] less[i] is Terminate) by {
                assert(!(effects[i] is Terminate));
            }
        }
        lemma_no_hook_filter(less);
        assert(!(effects[effects.len() - 1] is Terminate));
    }
}

/// From its start to its end a machine asks for the terminate hook exactly once:
/// with the reason of the first result that stops it, whether an event or a call
/// brought it, and otherwise with a normal one when the mailbox is closed.
pub proof fn hook_runs_once<S, R>(machine: MachineModel<S>, results: Seq<Handled<S, R>>)
    requires
        !machine.stopped,
    ensures
        run(machine, results).filter(is_hook()) == seq![
            EffectModel::<S, R>::Terminate(run_reason(results)),
        ],
        run(machine, results).last() == EffectModel::<S, R>::Terminate(run_reason(results)),
    decreases results.len(),
{
    let hook = EffectModel::<S, R>::Terminate(run_reason(results));
    reveal(Seq::filter);
    if results.len() == 0 {
        let none = Seq::<EffectModel<S, R>>::empty();
        none.lemma_filter_push(hook, is_hook());
        assert(none.push(hook) =~= seq![hook]);
        assert(none.filter(is_hook()) =~= none);
    } else {
        let next = step(machine, results[0]);
        let rest = run(next.machine, results.drop_first());
        if stop_reason(results[0]) is Some {
            stop_terminates(machine, results[0]);
            let less = next.effects.drop_last();
            lemma_no_hook_filter(less);
            less.lemma_filter_push(hook, is_hook());
            assert(less.push(hook) =~= next.effects);
            assert(next.effects + rest =~= next.effects);
            assert(less.filter(is_hook()).push(hook) =~= seq![hook]);
        } else {
            machine_runs_on(machine, results[0]);
            hook_runs_once(next.machine, results.drop_first());
            lemma_no_hook_filter(next.effects);
            Seq::filter_distributes_over_add(next.effects, rest, is_hook());
            assert(Seq::<EffectModel<S, R>>::empty() + seq![hook] =~= seq![hook]);
            assert(rest.len() > 0) by {
                rest.lemma_filter_len(is_hook());
            }
        }
    }
}

} // verus!
