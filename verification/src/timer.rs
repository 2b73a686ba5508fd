//! Timers: what is due when, and what is done about it.
use crate::base::exit_reason::{ExitModel, ExitReason};
use crate::base::node::LocalNode;
use crate::base::pid::Pid;
use crate::base::reference::Ref;
use crate::data::{next_number, Data};
use crate::directory::Directory;
use crate::time::Duration;
use vstd::prelude::*;

verus! {

/// A timer, by which it is cancelled or read.
#[derive(Clone, Copy, Debug, PartialEq, Eq, Structural, Hash)]
pub struct TimerRef(pub Ref);

impl TimerRef {
    /// The reference behind it.
    pub fn inner(&self) -> (r: Ref)
        ensures
            r == self.0,
    {
        self.0
    }
}

/// What can go wrong with a timer.
#[derive(Clone, Copy, Debug, PartialEq, Eq, Structural)]
pub enum TimerError {
    /// There is none, or it has ended.
    NotFound,
    /// It could not be cancelled.
    CancelFailed,
}

impl TimerError {
    /// The error as text.
    pub fn display(&self) -> (r: String)
        ensures
            r@ == (match self {
                TimerError::NotFound => "timer not found or already completed"@,
                TimerError::CancelFailed => "failed to cancel timer"@,
            }),
    {
        match self {
            TimerError::NotFound => "timer not found or already completed".to_owned(),
            TimerError::CancelFailed => "failed to cancel timer".to_owned(),
        }
    }
}

/// The timer that was started.
pub type TimerResult = Result<TimerRef, TimerError>;

/// What is done when a timer fires.
#[derive(Debug)]
pub enum TimerTask {
    /// The process is sent the message.
    Send {
        /// The process.
        pid: Pid,
        /// The message, encoded.
        data: Vec<u8>,
    },
    /// The timer's own function is called.
    Apply,
    /// The process is sent an exit signal.
    Exit {
        /// The process.
        pid: Pid,
        /// The reason.
        reason: ExitReason,
    },
}

/// What a task says.
pub enum TaskModel {
    Send { pid: Pid, data: Seq<u8> },
    Apply,
    Exit { pid: Pid, reason: ExitModel },
}

impl DeepView for TimerTask {
    type V = TaskModel;

    open spec fn deep_view(&self) -> TaskModel {
        match self {
            TimerTask::Send { pid, data } => TaskModel::Send { pid: *pid, data: data.deep_view() },
            TimerTask::Apply => TaskModel::Apply,
            TimerTask::Exit { pid, reason } => TaskModel::Exit {
                pid: *pid,
                reason: reason.deep_view(),
            },
        }
    }
}

impl Data for TimerTask {
    fn same(&self, other: &Self) -> (r: bool) {
        match (self, other) {
            (
                TimerTask::Send { pid: a, data: x },
                TimerTask::Send { pid: b, data: y },
            ) => *a == *b && x.same(y),
            (TimerTask::Apply, TimerTask::Apply) => true,
            (
                TimerTask::Exit { pid: a, reason: x },
                TimerTask::Exit { pid: b, reason: y },
            ) => *a == *b && x.same(y),
            _ => false,
        }
    }

    fn duplicate(&self) -> (r: Self) {
        match self {
            TimerTask::Send { pid, data } => TimerTask::Send { pid: *pid, data: data.duplicate() },
            TimerTask::Apply => TimerTask::Apply,
            TimerTask::Exit { pid, reason } => TimerTask::Exit {
                pid: *pid,
                reason: reason.duplicate(),
            },
        }
    }
}

/// A timer that runs.
pub struct TimerEntry {
    /// When it was started, as a span since a common start.
    pub started_at: Duration,
    /// The time until it fires, or between two times.
    pub duration: Duration,
    /// Whether it fires again and again.
    pub repeats: bool,
    /// What is done when it fires.
    pub task: TimerTask,
}

/// What a timer that runs is.
pub struct TimerModel {
    pub started_at: Duration,
    pub duration: Duration,
    pub repeats: bool,
    pub task: TaskModel,
}

impl DeepView for TimerEntry {
    type V = TimerModel;

    open spec fn deep_view(&self) -> TimerModel {
        TimerModel {
            started_at: self.started_at,
            duration: self.duration,
            repeats: self.repeats,
            task: self.task.deep_view(),
        }
    }
}

impl TimerModel {
    /// The time that is left at `now`.
    pub open spec fn remaining(self, now: Duration) -> Duration {
        let elapsed = if now.nanos >= self.started_at.nanos {
            now.nanos - self.started_at.nanos
        } else {
            0
        };
        Duration {
            nanos: if elapsed <= self.duration.nanos {
                (self.duration.nanos - elapsed) as u128
            } else {
                0
            },
        }
    }
}

/// The timers that run.
pub struct Timers {
    entries: Directory<Ref, TimerEntry>,
}

impl DeepView for Timers {
    type V = Map<Ref, TimerModel>;

    closed spec fn deep_view(&self) -> Map<Ref, TimerModel> {
        self.entries.deep_view()
    }
}

/// Whether a new timer runs, known by a new reference of the node.
pub open spec fn is_started(
    before: Map<Ref, TimerModel>,
    after: Map<Ref, TimerModel>,
    node: LocalNode,
    timer: TimerResult,
    entry: TimerModel,
) -> bool {
    &&& timer == Ok::<TimerRef, TimerError>(TimerRef(Ref(node.next_ref)))
    &&& after == before.insert(Ref(node.next_ref), entry)
}

impl Timers {
    /// The directory is in order.
    pub closed spec fn well_formed(&self) -> bool {
        self.entries.well_formed()
    }

    /// No timer runs.
    pub fn new() -> (r: Self)
        ensures
            r.well_formed(),
            r.deep_view() == Map::<Ref, TimerModel>::empty(),
    {
        Timers { entries: Directory::new() }
    }

    fn start(&mut self, node: &mut LocalNode, entry: TimerEntry) -> (r: TimerResult)
        requires
            old(self).well_formed(),
        ensures
            final(self).well_formed(),
            is_started(
                old(self).deep_view(),
                final(self).deep_view(),
                *old(node),
                r,
                entry.deep_view(),
            ),
            final(node).next_ref == next_number(old(node).next_ref),
            *final(node) == (LocalNode { next_ref: final(node).next_ref, ..*old(node) }),
    {
        let timer_ref = TimerRef(Ref::new(node));
        self.entries.insert(timer_ref.0, entry);
        Ok(timer_ref)
    }

    /// Sends the process the message after the delay.
    pub fn send_after(
        &mut self,
        node: &mut LocalNode,
        now: Duration,
        delay: Duration,
        pid: Pid,
        data: Vec<u8>,
    ) -> (r: TimerResult)
        requires
            old(self).well_formed(),
        ensures
            final(self).well_formed(),
            is_started(
                old(self).deep_view(),
                final(self).deep_view(),
                *old(node),
                r,
                TimerModel {
                    started_at: now,
                    duration: delay,
                    repeats: false,
                    task: TaskModel::Send { pid, data: data.deep_view() },
                },
            ),
            final(node).next_ref == next_number(old(node).next_ref),
            *final(node) == (LocalNode { next_ref: final(node).next_ref, ..*old(node) }),
    {
        self.start(
            node,
            TimerEntry {
                started_at: now,
                duration: delay,
                repeats: false,
                task: TimerTask::Send { pid, data },
            },
        )
    }

    /// Sends the process the message again and again, at the interval.
    pub fn send_interval(
        &mut self,
        node: &mut LocalNode,
        now: Duration,
        interval: Duration,
        pid: Pid,
        data: Vec<u8>,
    ) -> (r: TimerResult)
        requires
            old(self).well_formed(),
        ensures
            final(self).well_formed(),
            is_started(
                old(self).deep_view(),
                final(self).deep_view(),
                *old(node),
                r,
                TimerModel {
                    started_at: now,
                    duration: interval,
                    repeats: true,
                    task: TaskModel::Send { pid, data: data.deep_view() },
                },
            ),
            final(node).next_ref == next_number(old(node).next_ref),
            *final(node) == (LocalNode { next_ref: final(node).next_ref, ..*old(node) }),
    {
        self.start(
            node,
            TimerEntry {
                started_at: now,
                duration: interval,
                repeats: true,
                task: TimerTask::Send { pid, data },
            },
        )
    }

    /// Calls the timer's function after the delay.
    pub fn apply_after(&mut self, node: &mut LocalNode, now: Duration, delay: Duration) -> (r:
        TimerResult)
        requires
            old(self).well_formed(),
        ensures
            final(self).well_formed(),
            is_started(
                old(self).deep_view(),
                final(self).deep_view(),
                *old(node),
                r,
                TimerModel {
                    started_at: now,
                    duration: delay,
                    repeats: false,
                    task: TaskModel::Apply,
                },
            ),
            final(node).next_ref == next_number(old(node).next_ref),
            *final(node) == (LocalNode { next_ref: final(node).next_ref, ..*old(node) }),
    {
        self.start(
            node,
            TimerEntry {
                started_at: now,
                duration: delay,
                repeats: false,
                task: TimerTask::Apply,
            },
        )
    }

    /// Calls the timer's function again and again, at the interval.
    pub fn apply_interval(&mut self, node: &mut LocalNode, now: Duration, interval: Duration) -> (r:
        TimerResult)
        requires
            old(self).well_formed(),
        ensures
            final(self).well_formed(),
            is_started(
                old(self).deep_view(),
                final(self).deep_view(),
                *old(node),
                r,
                TimerModel {
                    started_at: now,
                    duration: interval,
                    repeats: true,
                    task: TaskModel::Apply,
                },
            ),
            final(node).next_ref == next_number(old(node).next_ref),
            *final(node) == (LocalNode { next_ref: final(node).next_ref, ..*old(node) }),
    {
        self.start(
            node,
            TimerEntry {
                started_at: now,
                duration: interval,
                repeats: true,
                task: TimerTask::Apply,
            },
        )
    }

    /// Sends the process an exit signal after the delay.
    pub fn exit_after(
        &mut self,
        node: &mut LocalNode,
        now: Duration,
        delay: Duration,
        pid: Pid,
        reason: ExitReason,
    ) -> (r: TimerResult)
        requires
            old(self).well_formed(),
        ensures
            final(self).well_formed(),
            is_started(
                old(self).deep_view(),
                final(self).deep_view(),
                *old(node),
                r,
                TimerModel {
                    started_at: now,
                    duration: delay,
                    repeats: false,
                    task: TaskModel::Exit { pid, reason: reason.deep_view() },
                },
            ),
            final(node).next_ref == next_number(old(node).next_ref),
            *final(node) == (LocalNode { next_ref: final(node).next_ref, ..*old(node) }),
    {
        self.start(
            node,
            TimerEntry {
                started_at: now,
                duration: delay,
                repeats: false,
                task: TimerTask::Exit { pid, reason },
            },
        )
    }

    /// Kills the process after the delay.
    pub fn kill_after(&mut self, node: &mut LocalNode, now: Duration, delay: Duration, pid: Pid)
        -> (r: TimerResult)
        requires
            old(self).well_formed(),
        ensures
            final(self).well_formed(),
            is_started(
                old(self).deep_view(),
                final(self).deep_view(),
                *old(node),
                r,
                TimerModel {
                    started_at: now,
                    duration: delay,
                    repeats: false,
                    task: TaskModel::Exit { pid, reason: ExitModel::Killed },
                },
            ),
            final(node).next_ref == next_number(old(node).next_ref),
            *final(node) == (LocalNode { next_ref: final(node).next_ref, ..*old(node) }),
    {
        self.exit_after(node, now, delay, pid, ExitReason::Killed)
    }

    /// Takes in that a timer's time has come, and says what is done. A timer
    /// that does not repeat ends with it. Nothing is done about one that does
    /// not run.
    pub fn fire(&mut self, timer_ref: TimerRef) -> (r: Option<TimerTask>)
        requires
            old(self).well_formed(),
        ensures
            final(self).well_formed(),
            final(self).deep_view() == after_firing(old(self).deep_view(), timer_ref.0),
            match r {
                Some(task) => {
                    &&& old(self).deep_view().contains_key(timer_ref.0)
                    &&& task.deep_view() == old(self).deep_view()[timer_ref.0].task
                },
                None => !old(self).deep_view().contains_key(timer_ref.0),
            },
    {
        let ghost before = self.deep_view();
        match self.entries.remove(&timer_ref.0) {
            Some(entry) => {
                let task = entry.task.duplicate();
                if entry.repeats {
                    self.entries.insert(timer_ref.0, entry);
                    assert(self.deep_view() =~= before);
                }
                Some(task)
            },
            None => {
                assert(self.deep_view() =~= after_firing(before, timer_ref.0));
                None
            },
        }
    }

    /// Takes in that the process of a timer is gone: the timer ends.
    pub fn target_gone(&mut self, timer_ref: TimerRef)
        requires
            old(self).well_formed(),
        ensures
            final(self).well_formed(),
            final(self).deep_view() == old(self).deep_view().remove(timer_ref.0),
    {
        self.entries.remove(&timer_ref.0);
    }

    /// Cancels a timer, and returns the time that was left at `now`.
    pub fn cancel(&mut self, timer_ref: TimerRef, now: Duration) -> (r: Result<
        Duration,
        TimerError,
    >)
        requires
            old(self).well_formed(),
        ensures
            final(self).well_formed(),
            final(self).deep_view() == old(self).deep_view().remove(timer_ref.0),
            r == (if old(self).deep_view().contains_key(timer_ref.0) {
                Ok::<Duration, TimerError>(old(self).deep_view()[timer_ref.0].remaining(now))
            } else {
                Err::<Duration, TimerError>(TimerError::NotFound)
            }),
    {
        match self.entries.remove(&timer_ref.0) {
            Some(entry) => {
                let elapsed = now.saturating_sub(entry.started_at);
                Ok(entry.duration.saturating_sub(elapsed))
            },
            None => Err(TimerError::NotFound),
        }
    }

    /// The time that is left of a timer at `now`, if it runs.
    pub fn read(&self, timer_ref: TimerRef, now: Duration) -> (r: Option<Duration>)
        requires
            self.well_formed(),
        ensures
            r == (if self.deep_view().contains_key(timer_ref.0) {
                Some(self.deep_view()[timer_ref.0].remaining(now))
            } else {
                None
            }),
    {
        match self.entries.get(&timer_ref.0) {
            Some(entry) => {
                let elapsed = now.saturating_sub(entry.started_at);
                Some(entry.duration.saturating_sub(elapsed))
            },
            None => None,
        }
    }
}

/// A moment of the clock of `std`, which never goes back.
#[verifier::external_type_specification]
#[verifier::external_body]
pub struct ExInstant(std::time::Instant);

/// `std::time::Instant::now`: the moment of the call. Nothing is stated of it.
#[verifier::external_body]
fn instant_now() -> std::time::Instant {
    std::time::Instant::now()
}

/// `std::time::Instant::elapsed`: the time since a moment. Nothing is stated of it.
#[verifier::external_body]
fn elapsed_since(start: &std::time::Instant) -> Duration {
    Duration { nanos: start.elapsed().as_nanos() }
}

/// Calls a function, and returns how long that took along with its result.
pub fn tc<R, F: FnOnce() -> R>(f: F) -> (r: (Duration, R))
    requires
        f.requires(()),
    ensures
        f.ensures((), r.1),
{
    let start = instant_now();
    let result = f();
    (elapsed_since(&start), result)
}

/// The timers that run after the time of one has come.
pub open spec fn after_firing(timers: Map<Ref, TimerModel>, timer: Ref) -> Map<Ref, TimerModel> {
    if timers.contains_key(timer) && timers[timer].repeats {
        timers
    } else {
        timers.remove(timer)
    }
}

/// A timer that was cancelled neither fires nor can be read or cancelled again,
/// and the others run on.
pub proof fn cancelled_timer_is_gone(timers: Map<Ref, TimerModel>, timer: Ref, other: Ref)
    requires
        other != timer,
    ensures
        !timers.remove(timer).contains_key(timer),
        timers.remove(timer).contains_key(other) == timers.contains_key(other),
        timers.contains_key(other) ==> timers.remove(timer)[other] == timers[other],
{
}

/// A timer that does not repeat fires once; one that repeats runs on.
pub proof fn one_shot_fires_once(timers: Map<Ref, TimerModel>, timer: Ref)
    requires
        timers.contains_key(timer),
    ensures
        after_firing(timers, timer).contains_key(timer) == timers[timer].repeats,
        timers[timer].repeats ==> after_firing(timers, timer) == timers,
{
}

/// The time that is left is never more than the whole, shrinks as time goes by,
/// and is over once the whole has passed.
pub proof fn remaining_time_shrinks(timer: TimerModel, now: Duration, later: Duration)
    requires
        now.nanos <= later.nanos,
    ensures
        timer.remaining(now).nanos <= timer.duration.nanos,
        timer.remaining(later).nanos <= timer.remaining(now).nanos,
        later.nanos >= timer.started_at.nanos + timer.duration.nanos ==> timer.remaining(
            later,
        ).nanos == 0,
{
}

/// A timer that was started is found under the reference that was returned, with the
/// very time, duration and task that were given, and the others run on.
pub proof fn started_timer_is_found(
    before: Map<Ref, TimerModel>,
    after: Map<Ref, TimerModel>,
    node: LocalNode,
    timer: TimerResult,
    entry: TimerModel,
    other: Ref,
)
    requires
        is_started(before, after, node, timer, entry),
    ensures
        timer matches Ok(t) && t.0.0 == node.next_ref && after.contains_key(t.0) && after[t.0]
            == entry && (other != t.0 ==> after.contains_key(other) == before.contains_key(other)
            && (before.contains_key(other) ==> after[other] == before[other])),
{
}

/// The time of one timer leaves the others as they are.
pub proof fn firing_leaves_others(timers: Map<Ref, TimerModel>, timer: Ref, other: Ref)
    requires
        other != timer,
    ensures
        after_firing(timers, timer).contains_key(other) == timers.contains_key(other),
        timers.contains_key(other) ==> after_firing(timers, timer)[other] == timers[other],
{
}

/// The time that is left and the time that has passed make up the whole, as long as
/// it is not over.
pub proof fn remaining_time_is_exact(timer: TimerModel, now: Duration)
    requires
        timer.started_at.nanos <= now.nanos <= timer.started_at.nanos + timer.duration.nanos,
    ensures
        timer.remaining(now).nanos + (now.nanos - timer.started_at.nanos) == timer.duration.nanos,
{
}

/// What a timer is, is what was given for it, every part of it.
pub proof fn timers_are_read_whole(entry: TimerEntry)
    ensures
        entry.deep_view().started_at == entry.started_at,
        entry.deep_view().duration == entry.duration,
        entry.deep_view().repeats == entry.repeats,
        match entry.task {
            TimerTask::Send { pid, data } => entry.deep_view().task == (TaskModel::Send {
                pid,
                data: data@,
            }),
            TimerTask::Apply => entry.deep_view().task is Apply,
            TimerTask::Exit { pid, reason } => entry.deep_view().task == (TaskModel::Exit {
                pid,
                reason: reason.deep_view(),
            }),
        },
{
    if let TimerTask::Send { pid, data } = entry.task {
        assert(data.deep_view() =~= data@);
    }
}

} // verus!
