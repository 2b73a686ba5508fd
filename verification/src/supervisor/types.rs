//! How supervisors and their children are set up.
use crate::base::exit_reason::{ExitModel, ExitReason};
use crate::base::pid::Pid;
use crate::text::join2;
use crate::time::Duration;
use vstd::prelude::*;

verus! {

/// What a supervisor does when a child ends.
#[derive(Clone, Copy, Debug, PartialEq, Eq, Structural)]
pub enum Strategy {
    /// Only that child is restarted.
    OneForOne,
    /// All other children are terminated, and then all are restarted.
    OneForAll,
    /// That child and those started after it are terminated and restarted.
    RestForOne,
}

impl Default for Strategy {
    fn default() -> (r: Self)
        ensures
            r == Strategy::OneForOne,
    {
        Strategy::OneForOne
    }
}

/// When a child is restarted.
#[derive(Clone, Copy, Debug, PartialEq, Eq, Structural)]
pub enum RestartType {
    /// Always.
    Permanent,
    /// Only after an abnormal exit.
    Transient,
    /// Never.
    Temporary,
}

impl RestartType {
    /// Whether a child that ended for the reason is to be restarted.
    pub open spec fn wants_restart(self, reason: ExitModel) -> bool {
        match self {
            RestartType::Permanent => true,
            RestartType::Transient => !reason.normal(),
            RestartType::Temporary => false,
        }
    }

    /// Whether a child that ended for the reason is to be restarted.
    pub fn should_restart(&self, reason: &ExitReason) -> (r: bool)
        ensures
            r == self.wants_restart(reason.deep_view()),
    {
        match self {
            RestartType::Permanent => true,
            RestartType::Transient => reason.is_abnormal(),
            RestartType::Temporary => false,
        }
    }
}

impl Default for RestartType {
    fn default() -> (r: Self)
        ensures
            r == RestartType::Permanent,
    {
        RestartType::Permanent
    }
}

/// How a child is terminated.
#[derive(Clone, Copy, Debug, PartialEq, Eq, Structural)]
pub enum ShutdownType {
    /// At once.
    BrutalKill,
    /// With the given time to terminate by itself.
    Timeout(Duration),
    /// With as much time as it takes.
    Infinity,
}

impl Default for ShutdownType {
    fn default() -> (r: Self)
        ensures
            r == ShutdownType::Timeout(Duration { nanos: 5_000_000_000 }),
    {
        ShutdownType::Timeout(Duration::from_secs(5))
    }
}

/// What kind of process a child is.
#[derive(Clone, Copy, Debug, PartialEq, Eq, Structural)]
pub enum ChildType {
    /// A leaf of the supervision tree.
    Worker,
    /// An inner node of the supervision tree.
    Supervisor,
}

impl Default for ChildType {
    fn default() -> (r: Self)
        ensures
            r == ChildType::Worker,
    {
        ChildType::Worker
    }
}

/// Why a child did not start.
#[derive(Debug)]
pub enum StartChildError {
    /// It failed.
    Failed(String),
    /// Its initialization chose not to start.
    Ignore,
    /// There is such a child already.
    AlreadyPresent,
}

impl StartChildError {
    /// The error as text.
    pub open spec fn text(&self) -> Seq<char> {
        match self {
            StartChildError::Failed(msg) => "child failed to start: "@ + msg@,
            StartChildError::Ignore => "child init returned ignore"@,
            StartChildError::AlreadyPresent => "child already present"@,
        }
    }

    /// The error as text.
    pub fn display(&self) -> (r: String)
        ensures
            r@ == self.text(),
    {
        match self {
            StartChildError::Failed(msg) => join2("child failed to start: ", msg.as_str()),
            StartChildError::Ignore => "child init returned ignore".to_owned(),
            StartChildError::AlreadyPresent => "child already present".to_owned(),
        }
    }
}

/// How a child is started, restarted and terminated. `F` starts it.
#[derive(Debug)]
pub struct ChildSpec<F> {
    /// The child's name, unique among its supervisor's children.
    pub id: String,
    /// What starts the child.
    pub start: F,
    /// When the child is restarted.
    pub restart: RestartType,
    /// How the child is terminated.
    pub shutdown: ShutdownType,
    /// What kind of process the child is.
    pub child_type: ChildType,
}

impl<F> ChildSpec<F> {
    /// A permanent worker that has five seconds to terminate.
    pub fn new(id: &str, start: F) -> (r: Self)
        ensures
            r.id@ == id@,
            r.start == start,
            r.restart == RestartType::Permanent,
            r.shutdown == ShutdownType::Timeout(Duration { nanos: 5_000_000_000 }),
            r.child_type == ChildType::Worker,
    {
        ChildSpec {
            id: id.to_owned(),
            start,
            restart: RestartType::default(),
            shutdown: ShutdownType::default(),
            child_type: ChildType::default(),
        }
    }

    /// Sets when the child is restarted.
    pub fn restart(self, restart: RestartType) -> (r: Self)
        ensures
            r == (ChildSpec { restart, ..self }),
    {
        ChildSpec { restart, ..self }
    }

    /// Sets how the child is terminated.
    pub fn shutdown(self, shutdown: ShutdownType) -> (r: Self)
        ensures
            r == (ChildSpec { shutdown, ..self }),
    {
        ChildSpec { shutdown, ..self }
    }

    /// Sets what kind of process the child is.
    pub fn child_type(self, child_type: ChildType) -> (r: Self)
        ensures
            r == (ChildSpec { child_type, ..self }),
    {
        ChildSpec { child_type, ..self }
    }

    /// Makes the child a worker.
    pub fn worker(self) -> (r: Self)
        ensures
            r == (ChildSpec { child_type: ChildType::Worker, ..self }),
    {
        self.child_type(ChildType::Worker)
    }

    /// Makes the child a supervisor, with as much time to terminate as it takes.
    pub fn supervisor(self) -> (r: Self)
        ensures
            r == (ChildSpec {
                child_type: ChildType::Supervisor,
                shutdown: ShutdownType::Infinity,
                ..self
            }),
    {
        self.child_type(ChildType::Supervisor).shutdown(ShutdownType::Infinity)
    }
}

/// How a supervisor is set up.
#[derive(Clone, Copy, Debug, PartialEq, Eq, Structural)]
pub struct SupervisorFlags {
    /// What the supervisor does when a child ends.
    pub strategy: Strategy,
    /// How many restarts are allowed in the time period.
    pub max_restarts: u32,
    /// The time period, in seconds.
    pub max_seconds: u32,
}

impl Default for SupervisorFlags {
    fn default() -> (r: Self)
        ensures
            r == (SupervisorFlags {
                strategy: Strategy::OneForOne,
                max_restarts: 3,
                max_seconds: 5,
            }),
    {
        SupervisorFlags { strategy: Strategy::OneForOne, max_restarts: 3, max_seconds: 5 }
    }
}

impl SupervisorFlags {
    /// The strategy, with three restarts allowed in five seconds.
    pub fn new(strategy: Strategy) -> (r: Self)
        ensures
            r == (SupervisorFlags { strategy, max_restarts: 3, max_seconds: 5 }),
    {
        SupervisorFlags { strategy, ..SupervisorFlags::default() }
    }

    /// Sets how many restarts are allowed.
    pub fn max_restarts(self, max: u32) -> (r: Self)
        ensures
            r == (SupervisorFlags { max_restarts: max, ..self }),
    {
        SupervisorFlags { max_restarts: max, ..self }
    }

    /// Sets the time period in which restarts are counted.
    pub fn max_seconds(self, secs: u32) -> (r: Self)
        ensures
            r == (SupervisorFlags { max_seconds: secs, ..self }),
    {
        SupervisorFlags { max_seconds: secs, ..self }
    }
}

/// What is known of a child.
#[derive(Debug)]
pub struct ChildInfo {
    /// The child's name.
    pub id: String,
    /// The child's process, if it runs.
    pub pid: Option<Pid>,
    /// What kind of process the child is.
    pub child_type: ChildType,
}

/// What information on a child says.
pub struct InfoModel {
    pub id: Seq<char>,
    pub pid: Option<Pid>,
    pub child_type: ChildType,
}

impl DeepView for ChildInfo {
    type V = InfoModel;

    open spec fn deep_view(&self) -> InfoModel {
        InfoModel { id: self.id@, pid: self.pid, child_type: self.child_type }
    }
}

/// How many children a supervisor has.
#[derive(Clone, Copy, Debug, PartialEq, Eq, Structural)]
pub struct ChildCounts {
    /// All that it knows of.
    pub specs: usize,
    /// Those that run.
    pub active: usize,
    /// The supervisors among those that run.
    pub supervisors: usize,
    /// The workers among those that run.
    pub workers: usize,
}

impl Default for ChildCounts {
    fn default() -> (r: Self)
        ensures
            r == (ChildCounts { specs: 0, active: 0, supervisors: 0, workers: 0 }),
    {
        ChildCounts { specs: 0, active: 0, supervisors: 0, workers: 0 }
    }
}

} // verus!
