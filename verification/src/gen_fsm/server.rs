//! The state machine: what it does with each message and each callback result.
use crate::atom::AtomTable;
use crate::base::exit_reason::{ExitModel, ExitReason};
use crate::base::pid::Pid;
use crate::base::reference::Ref;
use crate::data::{next_number, Data};
use crate::gen_fsm::error::{CallError, SendEventError, StartError};
use crate::gen_fsm::protocol::{FsmMessage, FsmMessageModel};
use crate::gen_fsm::types;
use crate::gen_fsm::types::{CallResult, EventResult, InitResult, StateAction};
use crate::runtime::error::SendError;
use crate::table::{has_key, place_of, rows_map, Table};
use crate::time::Duration;
use crate::wire::fsm::{after_reading_fsm, PortableFsm, PortableFsmModel};
use crate::wire::identity::portable;
use crate::wire::primitive::{encode, Wire};
use vstd::prelude::*;
use vstd::string::*;

verus! {

/// A timeout that ran out.
#[derive(Debug)]
pub enum TimeoutEvent {
    /// The state timeout.
    State,
    /// The timeout with the name.
    Generic(String),
}

/// What a timeout that ran out says.
pub enum TimeoutModel {
    State,
    Generic(Seq<char>),
}

impl TimeoutEvent {
    /// What the event says.
    pub open spec fn model(self) -> TimeoutModel {
        match self {
            TimeoutEvent::State => TimeoutModel::State,
            TimeoutEvent::Generic(name) => TimeoutModel::Generic(name@),
        }
    }
}

/// What a state machine asks to be done, in order.
#[derive(Debug)]
pub enum FsmEffect<S, R> {
    /// Send the reply to the caller.
    Reply(types::From, R),
    /// Run the exit hook of the state that was left.
    Exit(S),
    /// Run the enter hook of the state that the machine is in now.
    Enter,
    /// Start a timer, known by its number.
    StartTimer {
        /// The timer's number.
        id: u64,
        /// What runs out.
        event: TimeoutEvent,
        /// After what time.
        duration: Duration,
    },
    /// Cancel the timer with the number.
    CancelTimer(u64),
    /// Run the terminate hook.
    Terminate(ExitReason),
}

/// What an effect says.
#[verifier::reject_recursive_types(S)]
#[verifier::reject_recursive_types(R)]
pub enum EffectModel<S, R> {
    Reply(types::From, R),
    Exit(S),
    Enter,
    StartTimer { id: u64, event: TimeoutModel, duration: Duration },
    CancelTimer(u64),
    Terminate(ExitModel),
}

impl<S, R> FsmEffect<S, R> {
    /// What the effect says.
    pub open spec fn model(self) -> EffectModel<S, R> {
        match self {
            FsmEffect::Reply(from, reply) => EffectModel::Reply(from, reply),
            FsmEffect::Exit(state) => EffectModel::Exit(state),
            FsmEffect::Enter => EffectModel::Enter,
            FsmEffect::StartTimer { id, event, duration } => EffectModel::StartTimer {
                id,
                event: event.model(),
                duration,
            },
            FsmEffect::CancelTimer(id) => EffectModel::CancelTimer(id),
            FsmEffect::Terminate(reason) => EffectModel::Terminate(reason.deep_view()),
        }
    }
}

/// What effects say, in order.
pub open spec fn effect_models<S, R>(effects: Seq<FsmEffect<S, R>>) -> Seq<EffectModel<S, R>> {
    effects.map_values(|e: FsmEffect<S, R>| e.model())
}

/// The timers that run: the state timeout, the named ones in the order in which
/// they were set, and the number of the next one.
pub struct TimersModel {
    pub state: Option<u64>,
    pub named: Seq<(Seq<char>, u64)>,
    pub next: u64,
}

impl TimersModel {
    /// The named timers without the one with the name.
    pub open spec fn without(self, name: Seq<char>) -> Seq<(Seq<char>, u64)> {
        if has_key(self.named, name) {
            self.named.remove(place_of(self.named, name))
        } else {
            self.named
        }
    }

    /// Without the state timeout.
    pub open spec fn state_cancelled(self) -> TimersModel {
        TimersModel { state: None, ..self }
    }

    /// What cancels the state timeout.
    pub open spec fn cancels_state<S, R>(self) -> Seq<EffectModel<S, R>> {
        match self.state {
            Some(id) => seq![EffectModel::CancelTimer(id)],
            None => Seq::empty(),
        }
    }

    /// With a new state timeout.
    pub open spec fn state_set(self) -> TimersModel {
        TimersModel { state: Some(self.next), next: next_number(self.next), ..self }
    }

    /// What sets a new state timeout, in place of the old one.
    pub open spec fn sets_state<S, R>(self, duration: Duration) -> Seq<EffectModel<S, R>> {
        self.cancels_state::<S, R>().push(
            EffectModel::StartTimer { id: self.next, event: TimeoutModel::State, duration },
        )
    }

    /// Without the timer with the name.
    pub open spec fn named_cancelled(self, name: Seq<char>) -> TimersModel {
        TimersModel { named: self.without(name), ..self }
    }

    /// What cancels the timer with the name.
    pub open spec fn cancels_named<S, R>(self, name: Seq<char>) -> Seq<EffectModel<S, R>> {
        if has_key(self.named, name) {
            seq![EffectModel::CancelTimer(self.named[place_of(self.named, name)].1)]
        } else {
            Seq::empty()
        }
    }

    /// With a new timer with the name.
    pub open spec fn named_set(self, name: Seq<char>) -> TimersModel {
        TimersModel {
            named: self.without(name).push((name, self.next)),
            next: next_number(self.next),
            ..self
        }
    }

    /// What sets a new timer with the name, in place of the old one.
    pub open spec fn sets_named<S, R>(self, name: Seq<char>, duration: Duration) -> Seq<
        EffectModel<S, R>,
    > {
        self.cancels_named::<S, R>(name).push(
            EffectModel::StartTimer {
                id: self.next,
                event: TimeoutModel::Generic(name),
                duration,
            },
        )
    }

    /// Without any timer.
    pub open spec fn all_cancelled(self) -> TimersModel {
        TimersModel { state: None, named: Seq::empty(), ..self }
    }

    /// What cancels every timer.
    pub open spec fn cancels_all<S, R>(self) -> Seq<EffectModel<S, R>> {
        self.cancels_state::<S, R>() + self.named.map_values(
            |row: (Seq<char>, u64)| EffectModel::<S, R>::CancelTimer(row.1),
        )
    }
}

/// The timers of a state machine.
pub struct TimeoutManager {
    state_timeout: Option<u64>,
    generic_timeouts: Table<String, u64>,
    next_timer: u64,
}

fn push_effect<S, R>(effects: &mut Vec<FsmEffect<S, R>>, effect: FsmEffect<S, R>)
    ensures
        effect_models(final(effects)@) == effect_models(old(effects)@).push(effect.model()),
{
    effects.push(effect);
    assert(effect_models(effects@) =~= effect_models(old(effects)@).push(effect.model()));
}

impl TimeoutManager {
    /// What the timers are.
    pub closed spec fn model(&self) -> TimersModel {
        TimersModel {
            state: self.state_timeout,
            named: self.generic_timeouts.rows(),
            next: self.next_timer,
        }
    }

    /// No timer runs.
    pub fn new() -> (r: Self)
        ensures
            r.model() == (TimersModel { state: None, named: Seq::empty(), next: 0 }),
    {
        TimeoutManager { state_timeout: None, generic_timeouts: Table::new(), next_timer: 0 }
    }

    /// Sets the state timeout, in place of the old one.
    pub fn set_state_timeout<S, R>(
        &mut self,
        duration: Duration,
        effects: &mut Vec<FsmEffect<S, R>>,
    )
        ensures
            final(self).model() == old(self).model().state_set(),
            effect_models(final(effects)@) == effect_models(old(effects)@) + old(
                self,
            ).model().sets_state::<S, R>(duration),
            final(self).model().state == Some(old(self).model().next),
            final(effects)@.len() > 0,
            final(effects)@.last().model() == (EffectModel::<S, R>::StartTimer {
                id: old(self).model().next,
                event: TimeoutModel::State,
                duration,
            }),
    {
        self.cancel_state_timeout(effects);
        let id: u64 = self.next_timer;
        self.next_timer = id.wrapping_add(1);
        push_effect(effects, FsmEffect::StartTimer { id, event: TimeoutEvent::State, duration });
        self.state_timeout = Some(id);
        assert(effect_models(effects@) =~= effect_models(old(effects)@) + old(
            self,
        ).model().sets_state::<S, R>(duration));
        assert(effect_models(effects@).last() == effects@.last().model());
    }

    /// Cancels the state timeout.
    pub fn cancel_state_timeout<S, R>(&mut self, effects: &mut Vec<FsmEffect<S, R>>)
        ensures
            final(self).model() == old(self).model().state_cancelled(),
            effect_models(final(effects)@) == effect_models(old(effects)@) + old(
                self,
            ).model().cancels_state::<S, R>(),
    {
        if let Some(id) = self.state_timeout {
            push_effect(effects, FsmEffect::CancelTimer(id));
        }
        self.state_timeout = None;
        assert(effect_models(effects@) =~= effect_models(old(effects)@) + old(
            self,
        ).model().cancels_state::<S, R>());
    }

    /// Sets the timeout with the name, in place of the old one.
    pub fn set_generic_timeout<S, R>(
        &mut self,
        name: String,
        duration: Duration,
        effects: &mut Vec<FsmEffect<S, R>>,
    )
        ensures
            final(self).model() == old(self).model().named_set(name@),
            effect_models(final(effects)@) == effect_models(old(effects)@) + old(
                self,
            ).model().sets_named::<S, R>(name@, duration),
            final(self).model().named.len() > 0,
            final(self).model().named.last() == (name@, old(self).model().next),
            final(effects)@.len() > 0,
            final(effects)@.last().model() == (EffectModel::<S, R>::StartTimer {
                id: old(self).model().next,
                event: TimeoutModel::Generic(name@),
                duration,
            }),
    {
        self.cancel_generic_timeout(name.as_str(), effects);
        let id: u64 = self.next_timer;
        self.next_timer = id.wrapping_add(1);
        let event = TimeoutEvent::Generic(name.clone());
        push_effect(effects, FsmEffect::StartTimer { id, event, duration });
        self.generic_timeouts.insert(name, id);
        assert(effect_models(effects@) =~= effect_models(old(effects)@) + old(
            self,
        ).model().sets_named::<S, R>(name@, duration));
        assert(effect_models(effects@).last() == effects@.last().model());
    }

    /// Cancels the timeout with the name.
    pub fn cancel_generic_timeout<S, R>(&mut self, name: &str, effects: &mut Vec<FsmEffect<S, R>>)
        ensures
            final(self).model() == old(self).model().named_cancelled(name@),
            effect_models(final(effects)@) == effect_models(old(effects)@) + old(
                self,
            ).model().cancels_named::<S, R>(name@),
            !rows_map(final(self).model().named).contains_key(name@),
    {
        if let Some(id) = self.generic_timeouts.remove(&name.to_owned()) {
            push_effect(effects, FsmEffect::CancelTimer(id));
        }
        assert(effect_models(effects@) =~= effect_models(old(effects)@) + old(
            self,
        ).model().cancels_named::<S, R>(name@));
    }

    /// Cancels every timeout.
    pub fn cancel_all<S, R>(&mut self, effects: &mut Vec<FsmEffect<S, R>>)
        ensures
            final(self).model() == old(self).model().all_cancelled(),
            effect_models(final(effects)@) == effect_models(old(effects)@) + old(
                self,
            ).model().cancels_all::<S, R>(),
    {
        let ghost before = effect_models(old(effects)@);
        let ghost timers = self.model();
        self.cancel_state_timeout(effects);
        let ghost first = effect_models(effects@);
        let n: usize = self.generic_timeouts.len();
        let mut i: usize = 0;
        let ghost cancels = timers.named.map_values(
            |row: (Seq<char>, u64)| EffectModel::<S, R>::CancelTimer(row.1),
        );
        while i < n
            invariant
                i <= n,
                n == self.generic_timeouts.rows().len(),
                timers.named == self.generic_timeouts.rows(),
                cancels == timers.named.map_values(
                    |row: (Seq<char>, u64)| EffectModel::<S, R>::CancelTimer(row.1),
                ),
                effect_models(effects@) == first + cancels.take(i as int),
                self.model() == timers.state_cancelled(),
            decreases n - i,
        {
            push_effect(effects, FsmEffect::CancelTimer(*self.generic_timeouts.value_at(i)));
            assert(effect_models(effects@) =~= first + cancels.take(i + 1));
            i += 1;
        }
        self.generic_timeouts = Table::new();
        assert(effect_models(effects@) =~= before + timers.cancels_all::<S, R>());
    }
}

/// What a state machine is in the middle of doing.
#[verifier::reject_recursive_types(S)]
#[verifier::reject_recursive_types(R)]
pub struct Acting<S, R> {
    pub timers: TimersModel,
    pub effects: Seq<EffectModel<S, R>>,
    pub postpone: bool,
}

/// What follows from one action.
pub open spec fn acted<S, R>(now: Acting<S, R>, action: StateAction<R>) -> Acting<S, R> {
    match action {
        StateAction::NoAction => now,
        StateAction::Reply(from, reply) => Acting {
            effects: now.effects.push(EffectModel::Reply(from, reply)),
            ..now
        },
        StateAction::StateTimeout(duration) => Acting {
            timers: now.timers.state_set(),
            effects: now.effects + now.timers.sets_state::<S, R>(duration),
            ..now
        },
        StateAction::GenericTimeout(name, duration) => Acting {
            timers: now.timers.named_set(name@),
            effects: now.effects + now.timers.sets_named::<S, R>(name@, duration),
            ..now
        },
        StateAction::CancelTimeout(name) => Acting {
            timers: now.timers.named_cancelled(name@),
            effects: now.effects + now.timers.cancels_named::<S, R>(name@),
            ..now
        },
        StateAction::Postpone => Acting { postpone: true, ..now },
    }
}

/// What follows from actions, taken in order.
pub open spec fn acted_all<S, R>(now: Acting<S, R>, actions: Seq<StateAction<R>>) -> Acting<S, R>
    decreases actions.len(),
{
    if actions.len() == 0 {
        now
    } else {
        acted_all(acted(now, actions[0]), actions.drop_first())
    }
}

/// A state machine: its state, its timers, the events that were put off in this
/// state, and those that are due for a retry.
#[verifier::reject_recursive_types(S)]
pub struct MachineModel<S> {
    pub state: S,
    pub timers: TimersModel,
    pub postponed: Seq<Seq<u8>>,
    pub retry: Seq<Seq<u8>>,
    pub stopped: bool,
}

/// What a machine does: what becomes of it, and what is to be done.
#[verifier::reject_recursive_types(S)]
#[verifier::reject_recursive_types(R)]
pub struct Outcome<S, R> {
    pub machine: MachineModel<S>,
    pub effects: Seq<EffectModel<S, R>>,
}

impl<S> MachineModel<S> {
    /// With other timers.
    pub open spec fn with_timers(self, timers: TimersModel) -> MachineModel<S> {
        MachineModel { timers, ..self }
    }

    /// In the next state. Every timer is cancelled, and what was put off is due
    /// for a retry.
    pub open spec fn in_state(self, state: S) -> MachineModel<S> {
        MachineModel {
            state,
            timers: self.timers.all_cancelled(),
            postponed: Seq::empty(),
            retry: self.retry + self.postponed,
            stopped: self.stopped,
        }
    }

    /// What a transition asks to be done.
    pub open spec fn leaves<R>(self) -> Seq<EffectModel<S, R>> {
        self.timers.cancels_all::<S, R>() + seq![EffectModel::Exit(self.state), EffectModel::Enter]
    }

    /// A transition.
    pub open spec fn goes<R>(self, state: S) -> Outcome<S, R> {
        Outcome { machine: self.in_state(state), effects: self.leaves() }
    }

    /// What the machine does with what an event handler returned. `event` is the
    /// message that brought the event.
    pub open spec fn after_event<R>(self, result: EventResult<S, R>, event: Seq<u8>) -> Outcome<
        S,
        R,
    > {
        match result {
            EventResult::NextState(state) => self.goes(state),
            EventResult::NextStateTimeout(state, timeout) => self.goes(state).sets_timeout(timeout),
            EventResult::KeepState => self.stays(),
            EventResult::KeepStateTimeout(timeout) => Outcome {
                machine: self,
                effects: Seq::empty(),
            }.sets_timeout(timeout),
            EventResult::NextStateActions(state, actions) => {
                let o = self.goes::<R>(state).acts(actions@);
                if o.1 {
                    Outcome {
                        machine: MachineModel {
                            retry: o.0.machine.retry.push(event),
                            ..o.0.machine
                        },
                        effects: o.0.effects,
                    }
                } else {
                    o.0
                }
            },
            EventResult::KeepStateActions(actions) => {
                let o = self.stays::<R>().acts(actions@);
                if o.1 {
                    Outcome {
                        machine: MachineModel {
                            postponed: o.0.machine.postponed.push(event),
                            ..o.0.machine
                        },
                        effects: o.0.effects,
                    }
                } else {
                    o.0
                }
            },
            EventResult::Stop(reason) => Outcome {
                machine: MachineModel { stopped: true, ..self },
                effects: seq![EffectModel::Terminate(reason.deep_view())],
            },
            EventResult::StopReply(reason, from, reply) => Outcome {
                machine: MachineModel { stopped: true, ..self },
                effects: seq![
                    EffectModel::Reply(from, reply),
                    EffectModel::Terminate(reason.deep_view()),
                ],
            },
        }
    }

    /// What is left to be done at the end of a run.
    pub open spec fn last_effects<R>(self) -> Seq<EffectModel<S, R>> {
        if self.stopped {
            Seq::empty()
        } else {
            seq![EffectModel::Terminate(ExitModel::Normal)]
        }
    }

    /// The machine stays in its state, and the state timeout is cancelled.
    pub open spec fn stays<R>(self) -> Outcome<S, R> {
        Outcome {
            machine: self.with_timers(self.timers.state_cancelled()),
            effects: self.timers.cancels_state::<S, R>(),
        }
    }

    /// What the machine does with what a call handler returned.
    pub open spec fn after_call<R>(self, result: CallResult<S, R>, from: types::From) -> Outcome<
        S,
        R,
    > {
        match result {
            CallResult::Reply(reply, state) => self.goes(state).after_reply(from, reply),
            CallResult::ReplyTimeout(reply, state, timeout) => self.goes(state).sets_timeout(
                timeout,
            ).after_reply(from, reply),
            CallResult::NoReply(state) => self.goes(state),
            CallResult::NoReplyTimeout(state, timeout) => self.goes(state).sets_timeout(timeout),
            CallResult::KeepStateReply(reply) => Outcome {
                machine: self,
                effects: seq![EffectModel::Reply(from, reply)],
            },
            CallResult::KeepState => Outcome { machine: self, effects: Seq::empty() },
            CallResult::Stop(reason, reply, state) => Outcome {
                machine: MachineModel { state, stopped: true, ..self },
                effects: seq![
                    EffectModel::Reply(from, reply),
                    EffectModel::Terminate(reason.deep_view()),
                ],
            },
            CallResult::StopNoReply(reason, state) => Outcome {
                machine: MachineModel { state, stopped: true, ..self },
                effects: seq![EffectModel::Terminate(reason.deep_view())],
            },
        }
    }
}

impl<S, R> Outcome<S, R> {
    /// A new state timeout on top.
    pub open spec fn sets_timeout(self, timeout: Duration) -> Outcome<S, R> {
        Outcome {
            machine: self.machine.with_timers(self.machine.timers.state_set()),
            effects: self.effects + self.machine.timers.sets_state::<S, R>(timeout),
        }
    }

    /// A reply before everything else.
    pub open spec fn after_reply(self, from: types::From, reply: R) -> Outcome<S, R> {
        Outcome { effects: seq![EffectModel::Reply(from, reply)] + self.effects, ..self }
    }

    /// Actions on top, and whether the event is to be put off.
    pub open spec fn acts(self, actions: Seq<StateAction<R>>) -> (Outcome<S, R>, bool) {
        let end = acted_all(
            Acting { timers: self.machine.timers, effects: self.effects, postpone: false },
            actions,
        );
        (
            Outcome { machine: self.machine.with_timers(end.timers), effects: end.effects },
            end.postpone,
        )
    }
}

/// A state machine at work.
pub struct Fsm<S> {
    /// The state.
    pub state: S,
    timeouts: TimeoutManager,
    postponed: Vec<Vec<u8>>,
    retry: Vec<Vec<u8>>,
    stopped: bool,
}

/// What a message asks of a state machine.
#[derive(Debug)]
pub enum FsmTask {
    /// Have the event handled.
    HandleEvent(Vec<u8>),
    /// Have the call handled.
    HandleCall(types::From, Vec<u8>),
    /// Send the machine's own process a message.
    SendSelf(FsmMessage),
    /// Nothing.
    Nothing,
}

impl<S> Fsm<S> {
    /// What the machine is.
    pub closed spec fn model(&self) -> MachineModel<S> {
        MachineModel {
            state: self.state,
            timers: self.timeouts.model(),
            postponed: self.postponed.deep_view(),
            retry: self.retry.deep_view(),
            stopped: self.stopped,
        }
    }

    /// Starts a machine with what `init` returned, unless it is not to start.
    pub fn start<D, R>(result: InitResult<S, D>) -> (r: Result<
        (Fsm<S>, D, Vec<FsmEffect<S, R>>),
        StartError,
    >)
        ensures
            match result {
                InitResult::Okay(state, data) => {
                    &&& r matches Ok((fsm, d, effects))
                    &&& d == data
                    &&& fsm.model() == fresh(state)
                    &&& effect_models(effects@) == seq![EffectModel::<S, R>::Enter]
                },
                InitResult::OkTimeout(state, data, timeout) => {
                    &&& r matches Ok((fsm, d, effects))
                    &&& d == data
                    &&& fsm.model() == fresh(state).with_timers(fresh(state).timers.state_set())
                    &&& effect_models(effects@) == fresh(state).timers.sets_state::<S, R>(
                        timeout,
                    ).push(EffectModel::<S, R>::Enter)
                    &&& effect_models(effects@) == seq![
                        EffectModel::<S, R>::StartTimer {
                            id: 0,
                            event: TimeoutModel::State,
                            duration: timeout,
                        },
                        EffectModel::Enter,
                    ]
                    &&& fsm.model().state == state
                    &&& fsm.model().timers.state == Some(0u64)
                },
                InitResult::Ignore => r matches Err(e) && e == StartError::Ignore,
                InitResult::Stop(reason) => r matches Err(e) && e == StartError::Stop(reason),
            },
    {
        let mut timeouts = TimeoutManager::new();
        let mut effects: Vec<FsmEffect<S, R>> = Vec::new();
        assert(effect_models(effects@) =~= Seq::empty());
        let (state, data) = match result {
            InitResult::Okay(state, data) => (state, data),
            InitResult::OkTimeout(state, data, timeout) => {
                timeouts.set_state_timeout(timeout, &mut effects);
                assert(effect_models(effects@) =~= fresh(state).timers.sets_state::<S, R>(timeout));
                (state, data)
            },
            InitResult::Ignore => {
                return Err(StartError::Ignore);
            },
            InitResult::Stop(reason) => {
                return Err(StartError::Stop(reason));
            },
        };
        let ghost started = effect_models(effects@);
        push_effect(&mut effects, FsmEffect::Enter);
        let fsm = Fsm {
            state,
            timeouts,
            postponed: Vec::new(),
            retry: Vec::new(),
            stopped: false,
        };
        proof {
            assert(fsm.postponed.deep_view() =~= Seq::empty());
            assert(fsm.retry.deep_view() =~= Seq::empty());
            assert(effect_models(effects@) =~= started.push(EffectModel::<S, R>::Enter));
            assert(Seq::<EffectModel<S, R>>::empty().push(EffectModel::Enter) =~= seq![
                EffectModel::<S, R>::Enter,
            ]);
        }
        Ok((fsm, data, effects))
    }

    /// Whether the machine has stopped.
    pub fn is_stopped(&self) -> (r: bool)
        ensures
            r == self.model().stopped,
    {
        self.stopped
    }

    /// The next message that is due for a retry. It comes before anything else.
    pub fn take_retry(&mut self) -> (r: Option<Vec<u8>>)
        ensures
            match r {
                Some(event) => {
                    &&& old(self).model().retry.len() > 0
                    &&& event@ == old(self).model().retry[0]
                    &&& final(self).model() == (MachineModel {
                        retry: old(self).model().retry.drop_first(),
                        ..old(self).model()
                    })
                },
                None => old(self).model().retry.len() == 0 && *final(self) == *old(self),
            },
    {
        if self.retry.len() == 0 {
            return None;
        }
        let ghost before = self.retry.deep_view();
        assert(before[0] == self.retry@[0].deep_view());
        let event = self.retry.remove(0);
        assert(event.deep_view() =~= event@);
        assert(self.retry.deep_view() =~= before.drop_first());
        Some(event)
    }

    /// The bytes of the next message that is at hand: first those that are due
    /// for a retry, then the timeouts that ran out, oldest first. A machine that
    /// has stopped takes none.
    pub fn next_input(&mut self, fired: &mut Vec<TimeoutEvent>) -> (r: Option<Vec<u8>>)
        ensures
            if old(self).model().stopped {
                &&& r is None
                &&& final(self).model() == old(self).model()
                &&& final(fired)@ == old(fired)@
            } else if old(self).model().retry.len() > 0 {
                &&& r matches Some(event)
                &&& event@ == old(self).model().retry[0]
                &&& final(self).model() == (MachineModel {
                    retry: old(self).model().retry.drop_first(),
                    ..old(self).model()
                })
                &&& final(fired)@ == old(fired)@
            } else if old(fired)@.len() > 0 {
                &&& r matches Some(event)
                &&& event@ == timeout_bytes(old(fired)@[0].model())
                &&& final(self).model() == old(self).model()
                &&& final(fired)@ == old(fired)@.drop_first()
            } else {
                &&& r is None
                &&& final(self).model() == old(self).model()
                &&& final(fired)@ == old(fired)@
            },
    {
        if self.stopped {
            return None;
        }
        if let Some(event) = self.take_retry() {
            return Some(event);
        }
        if fired.len() == 0 {
            return None;
        }
        let ghost before = fired@;
        let event = fired.remove(0);
        assert(fired@ =~= before.drop_first());
        let message = match event {
            TimeoutEvent::State => PortableFsm::StateTimeout,
            TimeoutEvent::Generic(name) => PortableFsm::GenericTimeout(name),
        };
        Some(encode(&message))
    }

    /// Goes to the next state.
    fn transition_state<R>(&mut self, new_state: S, effects: &mut Vec<FsmEffect<S, R>>)
        ensures
            final(self).model() == old(self).model().in_state(new_state),
            effect_models(final(effects)@) == effect_models(old(effects)@) + old(
                self,
            ).model().leaves::<R>(),
    {
        let ghost before = self.model();
        self.timeouts.cancel_all(effects);
        let mut old_state = new_state;
        core::mem::swap(&mut self.state, &mut old_state);
        push_effect(effects, FsmEffect::Exit(old_state));
        push_effect(effects, FsmEffect::Enter);
        self.retry.append(&mut self.postponed);
        proof {
            assert(self.retry.deep_view() =~= before.retry + before.postponed);
            assert(self.postponed.deep_view() =~= Seq::empty());
            assert(effect_models(effects@) =~= effect_models(old(effects)@) + before.leaves::<R>());
        }
    }

    /// Takes actions, and says whether the event is to be put off.
    fn process_actions<R>(
        &mut self,
        actions: Vec<StateAction<R>>,
        effects: &mut Vec<FsmEffect<S, R>>,
    ) -> (r: bool)
        ensures
            ({
                let end = acted_all(
                    Acting {
                        timers: old(self).model().timers,
                        effects: effect_models(old(effects)@),
                        postpone: false,
                    },
                    actions@,
                );
                &&& final(self).model() == old(self).model().with_timers(end.timers)
                &&& effect_models(final(effects)@) == end.effects
                &&& r == end.postpone
            }),
    {
        let ghost before = self.model();
        let ghost goal = acted_all(
            Acting {
                timers: before.timers,
                effects: effect_models(effects@),
                postpone: false,
            },
            actions@,
        );
        let mut actions = actions;
        let mut postpone = false;
        while actions.len() > 0
            invariant
                self.model() == before.with_timers(self.model().timers),
                goal == acted_all(
                    Acting {
                        timers: self.model().timers,
                        effects: effect_models(effects@),
                        postpone,
                    },
                    actions@,
                ),
            decreases actions.len(),
        {
            let ghost all = actions@;
            let action = actions.remove(0);
            assert(actions@ =~= all.drop_first());
            match action {
                StateAction::NoAction => {},
                StateAction::Reply(from, reply) => {
                    push_effect(effects, FsmEffect::Reply(from, reply));
                },
                StateAction::StateTimeout(duration) => {
                    self.timeouts.set_state_timeout(duration, effects);
                },
                StateAction::GenericTimeout(name, duration) => {
                    self.timeouts.set_generic_timeout(name, duration, effects);
                },
                StateAction::CancelTimeout(name) => {
                    self.timeouts.cancel_generic_timeout(name.as_str(), effects);
                },
                StateAction::Postpone => {
                    postpone = true;
                },
            }
        }
        postpone
    }

    /// Does what an event handler's result asks for. `event` is the message that
    /// brought the event.
    pub fn handle_event_result<R>(&mut self, result: EventResult<S, R>, event: &Vec<u8>) -> (r: Vec<
        FsmEffect<S, R>,
    >)
        ensures
            ({
                let end = old(self).model().after_event(result, event@);
                final(self).model() == end.machine && effect_models(r@) == end.effects
            }),
    {
        let ghost before = self.model();
        let ghost end = before.after_event(result, event@);
        let mut effects: Vec<FsmEffect<S, R>> = Vec::new();
        assert(effect_models(effects@) =~= Seq::empty());
        match result {
            EventResult::NextState(state) => {
                self.transition_state(state, &mut effects);
            },
            EventResult::NextStateTimeout(state, timeout) => {
                self.transition_state(state, &mut effects);
                self.timeouts.set_state_timeout(timeout, &mut effects);
            },
            EventResult::KeepState => {
                self.timeouts.cancel_state_timeout(&mut effects);
            },
            EventResult::KeepStateTimeout(timeout) => {
                self.timeouts.set_state_timeout(timeout, &mut effects);
            },
            EventResult::NextStateActions(state, actions) => {
                self.transition_state(state, &mut effects);
                assert(effect_models(effects@) =~= before.leaves::<R>());
                let postpone = self.process_actions(actions, &mut effects);
                if postpone {
                    push_event(&mut self.retry, event);
                }
            },
            EventResult::KeepStateActions(actions) => {
                self.timeouts.cancel_state_timeout(&mut effects);
                assert(effect_models(effects@) =~= before.timers.cancels_state::<S, R>());
                let postpone = self.process_actions(actions, &mut effects);
                if postpone {
                    push_event(&mut self.postponed, event);
                }
            },
            EventResult::Stop(reason) => {
                push_effect(&mut effects, FsmEffect::Terminate(reason));
                self.stopped = true;
            },
            EventResult::StopReply(reason, from, reply) => {
                push_effect(&mut effects, FsmEffect::Reply(from, reply));
                push_effect(&mut effects, FsmEffect::Terminate(reason));
                self.stopped = true;
            },
        }
        assert(effect_models(effects@) =~= end.effects);
        effects
    }

    /// Does what a call handler's result asks for.
    pub fn handle_call_result<R>(&mut self, result: CallResult<S, R>, from: types::From) -> (r: Vec<
        FsmEffect<S, R>,
    >)
        ensures
            ({
                let end = old(self).model().after_call(result, from);
                final(self).model() == end.machine && effect_models(r@) == end.effects
            }),
    {
        let ghost before = self.model();
        let ghost end = before.after_call(result, from);
        let mut effects: Vec<FsmEffect<S, R>> = Vec::new();
        assert(effect_models(effects@) =~= Seq::empty());
        match result {
            CallResult::Reply(reply, state) => {
                push_effect(&mut effects, FsmEffect::Reply(from, reply));
                self.transition_state(state, &mut effects);
            },
            CallResult::ReplyTimeout(reply, state, timeout) => {
                push_effect(&mut effects, FsmEffect::Reply(from, reply));
                self.transition_state(state, &mut effects);
                self.timeouts.set_state_timeout(timeout, &mut effects);
            },
            CallResult::NoReply(state) => {
                self.transition_state(state, &mut effects);
            },
            CallResult::NoReplyTimeout(state, timeout) => {
                self.transition_state(state, &mut effects);
                self.timeouts.set_state_timeout(timeout, &mut effects);
            },
            CallResult::KeepStateReply(reply) => {
                push_effect(&mut effects, FsmEffect::Reply(from, reply));
            },
            CallResult::KeepState => {},
            CallResult::Stop(reason, reply, state) => {
                push_effect(&mut effects, FsmEffect::Reply(from, reply));
                self.state = state;
                push_effect(&mut effects, FsmEffect::Terminate(reason));
                self.stopped = true;
            },
            CallResult::StopNoReply(reason, state) => {
                self.state = state;
                push_effect(&mut effects, FsmEffect::Terminate(reason));
                self.stopped = true;
            },
        }
        assert(effect_models(effects@) =~= end.effects);
        effects
    }

    /// What is left to be done at the end of a run. A machine that has stopped
    /// has asked for its hook already; one whose mailbox was closed ends normally.
    pub fn finish<R>(&self) -> (r: Option<FsmEffect<S, R>>)
        ensures
            r == (if self.model().stopped {
                None
            } else {
                Some(FsmEffect::<S, R>::Terminate(ExitReason::Normal))
            }),
            self.model().last_effects::<R>() == (match r {
                Some(effect) => seq![effect.model()],
                None => Seq::empty(),
            }),
    {
        if self.stopped {
            None
        } else {
            Some(FsmEffect::Terminate(ExitReason::Normal))
        }
    }
}

fn push_event(events: &mut Vec<Vec<u8>>, event: &Vec<u8>)
    ensures
        final(events).deep_view() == old(events).deep_view().push(event@),
{
    let copy = event.duplicate();
    assert(copy.deep_view() =~= event@);
    events.push(copy);
    assert(events.deep_view() =~= old(events).deep_view().push(event@));
}

/// A machine that has just started.
pub open spec fn fresh<S>(state: S) -> MachineModel<S> {
    MachineModel {
        state,
        timers: TimersModel { state: None, named: Seq::empty(), next: 0 },
        postponed: Seq::empty(),
        retry: Seq::empty(),
        stopped: false,
    }
}

/// The bytes of the message that a timeout that ran out brings.
pub open spec fn timeout_bytes(event: TimeoutModel) -> Seq<u8> {
    match event {
        TimeoutModel::State => PortableFsm::bytes_of(PortableFsmModel::StateTimeout),
        TimeoutModel::Generic(name) => PortableFsm::bytes_of(
            PortableFsmModel::GenericTimeout(name),
        ),
    }
}

/// What received bytes ask of a state machine. Bytes that are no message ask for
/// nothing.
pub fn read_task(atoms: &mut AtomTable, data: &Vec<u8>) -> (r: FsmTask)
    requires
        old(atoms).well_formed(),
        old(atoms).room_for(1),
    ensures
        final(atoms).well_formed(),
        match PortableFsm::read(data@) {
            Some((model, rest)) => {
                &&& final(atoms)@ == after_reading_fsm(old(atoms)@, model)
                &&& asks(final(atoms), model, r)
            },
            None => r is Nothing && final(atoms)@ == old(atoms)@,
        },
{
    match FsmMessage::decode(atoms, data.as_slice()) {
        Some(msg) => dispatch(msg),
        None => FsmTask::Nothing,
    }
}

/// Whether a message asks for a task.
pub open spec fn asks(atoms: &AtomTable, m: PortableFsmModel, task: FsmTask) -> bool {
    match m {
        PortableFsmModel::Event(data) => task matches FsmTask::HandleEvent(d) && d@ == data,
        PortableFsmModel::Call { from, reference, request } => {
            &&& task matches FsmTask::HandleCall(f, r)
            &&& atoms.knows(f.caller.spec_node())
            &&& portable(atoms, f.caller) == from
            &&& f.reference == reference
            &&& r@ == request
        },
        PortableFsmModel::Reply { reference, reply } => task is Nothing,
        PortableFsmModel::StateTimeout => task matches FsmTask::SendSelf(s) && s.deep_view()
            == FsmMessageModel::Event("state_timeout".spec_bytes()),
        PortableFsmModel::GenericTimeout(name) => task matches FsmTask::SendSelf(s)
            && s.deep_view() == FsmMessageModel::Event(vstd::utf8::encode_utf8(name)),
    }
}

/// What a message asks of a state machine. A timeout comes back as an event: the
/// name of the timeout, or `state_timeout`.
pub fn dispatch(msg: FsmMessage) -> (r: FsmTask)
    ensures
        match msg {
            FsmMessage::Event(data) => r == FsmTask::HandleEvent(data),
            FsmMessage::Call { from, reference, request } => r == FsmTask::HandleCall(
                types::From { caller: from, reference },
                request,
            ),
            FsmMessage::Reply { reference, reply } => r == FsmTask::Nothing,
            FsmMessage::StateTimeout => r matches FsmTask::SendSelf(m) && m.deep_view()
                == FsmMessageModel::Event("state_timeout".spec_bytes()),
            FsmMessage::GenericTimeout(name) => r matches FsmTask::SendSelf(m) && m.deep_view()
                == FsmMessageModel::Event(vstd::utf8::encode_utf8(name@)),
        },
{
    match msg {
        FsmMessage::Event(data) => FsmTask::HandleEvent(data),
        FsmMessage::Call { from, reference, request } => FsmTask::HandleCall(
            types::From::new(from, reference),
            request,
        ),
        FsmMessage::Reply { reference, reply } => FsmTask::Nothing,
        FsmMessage::StateTimeout => FsmTask::SendSelf(
            FsmMessage::Event("state_timeout".as_bytes_vec()),
        ),
        FsmMessage::GenericTimeout(name) => FsmTask::SendSelf(
            FsmMessage::Event(name.as_str().as_bytes_vec()),
        ),
    }
}

/// What a caller received.
#[derive(Debug)]
pub enum Received {
    /// A message, if what came could be read as one.
    Message(Option<FsmMessage>),
    /// Nothing, since the mailbox was closed.
    Closed,
    /// Nothing in time.
    TimedOut,
}

/// The reply to a call, encoded, from what the caller received.
pub fn call_outcome(received: Received) -> (r: Result<Vec<u8>, CallError>)
    ensures
        match received {
            Received::Message(Some(FsmMessage::Reply { reference, reply })) => r == Ok::<
                Vec<u8>,
                CallError,
            >(reply),
            Received::Message(_) => r matches Err(CallError::DecodeError(e)) && e@
                == "unexpected message type"@,
            Received::Closed => r == Err::<Vec<u8>, CallError>(
                CallError::Stopped(ExitReason::Normal),
            ),
            Received::TimedOut => r == Err::<Vec<u8>, CallError>(CallError::Timeout),
        },
{
    match received {
        Received::Message(Some(FsmMessage::Reply { reference, reply })) => Ok(reply),
        Received::Message(_) => Err(CallError::DecodeError("unexpected message type".to_owned())),
        Received::Closed => Err(CallError::Stopped(ExitReason::Normal)),
        Received::TimedOut => Err(CallError::Timeout),
    }
}

/// The reply to a call, encoded, from the bytes that the caller received.
pub fn read_reply(atoms: &mut AtomTable, data: &Vec<u8>) -> (r: Result<Vec<u8>, CallError>)
    requires
        old(atoms).well_formed(),
        old(atoms).room_for(1),
    ensures
        final(atoms).well_formed(),
        match PortableFsm::read(data@) {
            Some((PortableFsmModel::Reply { reference, reply }, rest)) => {
                &&& r matches Ok(bytes)
                &&& bytes@ == reply
                &&& final(atoms)@ == old(atoms)@
            },
            Some((model, rest)) => {
                &&& r matches Err(CallError::DecodeError(e))
                &&& e@ == "unexpected message type"@
                &&& final(atoms)@ == after_reading_fsm(old(atoms)@, model)
            },
            None => {
                &&& r matches Err(CallError::DecodeError(e))
                &&& e@ == "unexpected message type"@
                &&& final(atoms)@ == old(atoms)@
            },
        },
{
    let message = FsmMessage::decode(atoms, data.as_slice());
    call_outcome(Received::Message(message))
}

/// The bytes that send a state machine an event.
pub fn send_event(event: Vec<u8>) -> (r: Vec<u8>)
    ensures
        r@ == PortableFsm::bytes_of(PortableFsmModel::Event(event@)),
{
    assert(event.deep_view() =~= event@);
    encode(&PortableFsm::Event(event))
}

/// What sending an event came to: whatever went wrong, the process was not found.
pub fn send_event_outcome(pid: Pid, sent: Result<(), SendError>) -> (r: Result<(), SendEventError>)
    ensures
        r == (match sent {
            Ok(_) => Ok::<(), SendEventError>(()),
            Err(_) => Err::<(), SendEventError>(SendEventError::ProcessNotFound(pid)),
        }),
{
    match sent {
        Ok(_) => Ok(()),
        Err(_) => Err(SendEventError::ProcessNotFound(pid)),
    }
}

/// The bytes of a call to a state machine.
pub fn call_request(atoms: &AtomTable, caller: Pid, reference: Ref, request: Vec<u8>) -> (r: Vec<u8>)
    requires
        atoms.knows(caller.spec_node()),
    ensures
        r@ == PortableFsm::bytes_of(
            PortableFsmModel::Call { from: portable(atoms, caller), reference, request: request@ },
        ),
{
    FsmMessage::Call { from: caller, reference, request }.encode(atoms)
}

/// The bytes of a reply to a call.
pub fn send_reply(from: types::From, reply: Vec<u8>) -> (r: Vec<u8>)
    ensures
        r@ == PortableFsm::bytes_of(
            PortableFsmModel::Reply { reference: from.reference, reply: reply@ },
        ),
{
    assert(reply.deep_view() =~= reply@);
    encode(&PortableFsm::Reply { reference: from.reference, reply })
}

} // verus!
