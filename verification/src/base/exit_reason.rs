//! Why a process ended.
use crate::data::Data;
use crate::text::join2;
use vstd::prelude::*;

verus! {

/// The reason a process exited.
///
/// `Normal`, `Shutdown` and `ShutdownReason` are normal exits. `Killed` and
/// `Error` are abnormal ones: they trigger restarts and propagate through links.
#[derive(Debug, PartialEq, Eq)]
pub enum ExitReason {
    /// The process completed its work.
    Normal,
    /// The process was asked to shut down.
    Shutdown,
    /// The process was asked to shut down, with a reason.
    ShutdownReason(String),
    /// The process was terminated by force, which cannot be trapped.
    Killed,
    /// The process ended with an error.
    Error(String),
}

/// What an exit reason says.
pub enum ExitModel {
    Normal,
    Shutdown,
    ShutdownReason(Seq<char>),
    Killed,
    Error(Seq<char>),
}

impl DeepView for ExitReason {
    type V = ExitModel;

    open spec fn deep_view(&self) -> ExitModel {
        match self {
            ExitReason::Normal => ExitModel::Normal,
            ExitReason::Shutdown => ExitModel::Shutdown,
            ExitReason::ShutdownReason(reason) => ExitModel::ShutdownReason(reason@),
            ExitReason::Killed => ExitModel::Killed,
            ExitReason::Error(message) => ExitModel::Error(message@),
        }
    }
}

impl ExitModel {
    /// Whether the exit is a normal one.
    pub open spec fn normal(self) -> bool {
        self is Normal || self is Shutdown || self is ShutdownReason
    }

    /// The reason as text.
    pub open spec fn text(self) -> Seq<char> {
        match self {
            ExitModel::Normal => "normal"@,
            ExitModel::Shutdown => "shutdown"@,
            ExitModel::ShutdownReason(reason) => "shutdown: "@ + reason,
            ExitModel::Killed => "killed"@,
            ExitModel::Error(message) => "error: "@ + message,
        }
    }
}

impl Data for ExitReason {
    fn same(&self, other: &Self) -> (r: bool) {
        match (self, other) {
            (ExitReason::Normal, ExitReason::Normal) => true,
            (ExitReason::Shutdown, ExitReason::Shutdown) => true,
            (ExitReason::ShutdownReason(a), ExitReason::ShutdownReason(b)) => a.same(b),
            (ExitReason::Killed, ExitReason::Killed) => true,
            (ExitReason::Error(a), ExitReason::Error(b)) => a.same(b),
            _ => false,
        }
    }

    fn duplicate(&self) -> (r: Self)
        ensures
            r == *self,
    {
        match self {
            ExitReason::Normal => ExitReason::Normal,
            ExitReason::Shutdown => ExitReason::Shutdown,
            ExitReason::ShutdownReason(reason) => ExitReason::ShutdownReason(reason.clone()),
            ExitReason::Killed => ExitReason::Killed,
            ExitReason::Error(message) => ExitReason::Error(message.clone()),
        }
    }
}

impl Clone for ExitReason {
    fn clone(&self) -> (r: Self)
        ensures
            r == *self,
    {
        self.duplicate()
    }
}

impl Default for ExitReason {
    fn default() -> (r: Self)
        ensures
            r == ExitReason::Normal,
    {
        ExitReason::Normal
    }
}

impl ExitReason {
    /// Whether this is a normal exit: `Normal`, `Shutdown` or `ShutdownReason`.
    pub fn is_normal(&self) -> (r: bool)
        ensures
            r == self.deep_view().normal(),
            r == (self is Normal || self is Shutdown || self is ShutdownReason),
    {
        match self {
            ExitReason::Normal => true,
            ExitReason::Shutdown => true,
            ExitReason::ShutdownReason(_) => true,
            _ => false,
        }
    }

    /// Whether this is an abnormal exit: `Killed` or `Error`.
    pub fn is_abnormal(&self) -> (r: bool)
        ensures
            r == !self.deep_view().normal(),
            r == (self is Killed || self is Error),
    {
        !self.is_normal()
    }

    /// Whether this is the `Killed` reason, which cannot be trapped.
    pub fn is_killed(&self) -> (r: bool)
        ensures
            r == (self is Killed),
    {
        match self {
            ExitReason::Killed => true,
            _ => false,
        }
    }

    /// An error with a message.
    pub fn error(msg: &str) -> (r: Self)
        ensures
            r.deep_view() == ExitModel::Error(msg@),
    {
        ExitReason::Error(msg.to_owned())
    }

    /// A shutdown with a message.
    pub fn shutdown(msg: &str) -> (r: Self)
        ensures
            r.deep_view() == ExitModel::ShutdownReason(msg@),
    {
        ExitReason::ShutdownReason(msg.to_owned())
    }

    /// The reason as text.
    pub fn display(&self) -> (r: String)
        ensures
            r@ == self.deep_view().text(),
    {
        match self {
            ExitReason::Normal => "normal".to_owned(),
            ExitReason::Shutdown => "shutdown".to_owned(),
            ExitReason::ShutdownReason(reason) => join2("shutdown: ", reason.as_str()),
            ExitReason::Killed => "killed".to_owned(),
            ExitReason::Error(message) => join2("error: ", message.as_str()),
        }
    }
}

impl From<&str> for ExitReason {
    fn from(s: &str) -> (r: Self)
        ensures
            r.deep_view() == ExitModel::Error(s@),
    {
        ExitReason::error(s)
    }
}

impl vstd::std_specs::convert::FromSpecImpl<&str> for ExitReason {
    open spec fn obeys_from_spec() -> bool {
        false
    }

    open spec fn from_spec(s: &str) -> Self {
        arbitrary()
    }
}

impl From<String> for ExitReason {
    fn from(s: String) -> (r: Self) {
        ExitReason::Error(s)
    }
}

impl vstd::std_specs::convert::FromSpecImpl<String> for ExitReason {
    open spec fn obeys_from_spec() -> bool {
        true
    }

    open spec fn from_spec(s: String) -> Self {
        ExitReason::Error(s)
    }
}

} // verus!
