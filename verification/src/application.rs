//! Applications: what they are made of and how they are configured.
use crate::base::pid::Pid;
use crate::data::push_one;
use crate::table::Table;
use vstd::prelude::*;

verus! {

/// A configuration value.
#[derive(Debug)]
pub enum ConfigValue {
    /// Text.
    Text(String),
    /// A whole number.
    Integer(i64),
    /// A floating point number, as its bits.
    Float(u64),
    /// A truth value.
    Bool(bool),
    /// Several values.
    List(Vec<ConfigValue>),
    /// Values by name.
    Nested(Vec<(String, ConfigValue)>),
}

impl DeepView for ConfigValue {
    type V = ConfigValue;

    open spec fn deep_view(&self) -> ConfigValue {
        *self
    }
}

/// The configuration of an application: values by name.
pub struct AppConfig {
    values: Table<String, ConfigValue>,
}

impl View for AppConfig {
    type V = Map<Seq<char>, ConfigValue>;

    closed spec fn view(&self) -> Map<Seq<char>, ConfigValue> {
        self.values.deep_view()
    }
}

impl Default for AppConfig {
    fn default() -> (r: Self)
        ensures
            r@ == Map::<Seq<char>, ConfigValue>::empty(),
    {
        AppConfig { values: Table::new() }
    }
}

impl AppConfig {
    /// No values.
    pub fn new() -> (r: Self)
        ensures
            r@ == Map::<Seq<char>, ConfigValue>::empty(),
    {
        AppConfig::default()
    }

    /// Sets a value to text.
    pub fn set_string(&mut self, key: &str, value: String)
        ensures
            final(self)@ == old(self)@.insert(key@, ConfigValue::Text(value)),
    {
        self.values.insert(key.to_owned(), ConfigValue::Text(value));
    }

    /// Sets a value to a whole number.
    pub fn set_int(&mut self, key: &str, value: i64)
        ensures
            final(self)@ == old(self)@.insert(key@, ConfigValue::Integer(value)),
    {
        self.values.insert(key.to_owned(), ConfigValue::Integer(value));
    }

    /// Sets a value to a floating point number, given as its bits.
    pub fn set_float(&mut self, key: &str, bits: u64)
        ensures
            final(self)@ == old(self)@.insert(key@, ConfigValue::Float(bits)),
    {
        self.values.insert(key.to_owned(), ConfigValue::Float(bits));
    }

    /// Sets a value to a truth value.
    pub fn set_bool(&mut self, key: &str, value: bool)
        ensures
            final(self)@ == old(self)@.insert(key@, ConfigValue::Bool(value)),
    {
        self.values.insert(key.to_owned(), ConfigValue::Bool(value));
    }

    /// A value, if it is set.
    pub fn get(&self, key: &str) -> (r: Option<&ConfigValue>)
        ensures
            match r {
                Some(value) => self@.contains_key(key@) && *value == self@[key@],
                None => !self@.contains_key(key@),
            },
    {
        self.values.get(&key.to_owned())
    }

    /// A value, if it is set and is text.
    pub fn get_string(&self, key: &str) -> (r: Option<&str>)
        ensures
            match r {
                Some(s) => self@.contains_key(key@) && (self@[key@] matches ConfigValue::Text(t)
                    && t@ == s@),
                None => !(self@.contains_key(key@) && self@[key@] is Text),
            },
    {
        match self.get(key) {
            Some(ConfigValue::Text(s)) => Some(s.as_str()),
            _ => None,
        }
    }

    /// A value, if it is set and is a whole number.
    pub fn get_int(&self, key: &str) -> (r: Option<i64>)
        ensures
            match r {
                Some(i) => self@.contains_key(key@) && self@[key@] == ConfigValue::Integer(i),
                None => !(self@.contains_key(key@) && self@[key@] is Integer),
            },
    {
        match self.get(key) {
            Some(ConfigValue::Integer(i)) => Some(*i),
            _ => None,
        }
    }

    /// The bits of a value, if it is set and is a floating point number.
    pub fn get_float(&self, key: &str) -> (r: Option<u64>)
        ensures
            match r {
                Some(bits) => self@.contains_key(key@) && self@[key@] == ConfigValue::Float(bits),
                None => !(self@.contains_key(key@) && self@[key@] is Float),
            },
    {
        match self.get(key) {
            Some(ConfigValue::Float(bits)) => Some(*bits),
            _ => None,
        }
    }

    /// A value, if it is set and is a truth value.
    pub fn get_bool(&self, key: &str) -> (r: Option<bool>)
        ensures
            match r {
                Some(b) => self@.contains_key(key@) && self@[key@] == ConfigValue::Bool(b),
                None => !(self@.contains_key(key@) && self@[key@] is Bool),
            },
    {
        match self.get(key) {
            Some(ConfigValue::Bool(b)) => Some(*b),
            _ => None,
        }
    }

    /// The names of the values that are set, each once.
    pub fn keys(&self) -> (r: Vec<String>)
        ensures
            r.deep_view().no_duplicates(),
            r.deep_view().to_set() == self@.dom(),
    {
        self.values.keys()
    }
}

/// What came of starting an application.
#[derive(Clone, Copy, Debug, PartialEq, Eq, Structural)]
pub enum StartResult {
    /// A tree of supervisors, with its root.
    Supervisor(Pid),
    /// A single process.
    Process(Pid),
    /// No process.
    NoProcess,
}

impl StartResult {
    /// The process that was started, if one was.
    pub fn pid(&self) -> (r: Option<Pid>)
        ensures
            r == (match *self {
                StartResult::Supervisor(pid) => Some(pid),
                StartResult::Process(pid) => Some(pid),
                StartResult::NoProcess => None,
            }),
    {
        match self {
            StartResult::Supervisor(pid) => Some(*pid),
            StartResult::Process(pid) => Some(*pid),
            StartResult::NoProcess => None,
        }
    }
}

/// What is known of an application.
#[derive(Debug)]
pub struct AppInfo {
    /// Its name.
    pub name: String,
    /// Its root process, if it has one.
    pub pid: Option<Pid>,
    /// The applications that it depends on.
    pub dependencies: Vec<String>,
    /// Whether it runs.
    pub running: bool,
}

/// What an application is.
#[derive(Debug)]
pub struct AppSpec {
    /// Its name.
    pub name: String,
    /// The applications that it depends on, which start before it.
    pub dependencies: Vec<String>,
    /// What it is about.
    pub description: String,
}

impl AppSpec {
    /// An application that depends on nothing, without a description.
    pub fn new(name: &str) -> (r: Self)
        ensures
            r.name@ == name@,
            r.dependencies.deep_view() == Seq::<Seq<char>>::empty(),
            r.description@ == Seq::<char>::empty(),
    {
        let r = AppSpec {
            name: name.to_owned(),
            dependencies: Vec::new(),
            description: String::new(),
        };
        assert(r.dependencies.deep_view() =~= Seq::empty());
        r
    }

    /// Adds an application that it depends on.
    pub fn depends_on(self, dep: &str) -> (r: Self)
        ensures
            r == (AppSpec { dependencies: r.dependencies, ..self }),
            r.dependencies.deep_view() == self.dependencies.deep_view().push(dep@),
    {
        let mut r = self;
        push_one(&mut r.dependencies, dep.to_owned());
        r
    }

    /// Sets what it is about.
    pub fn description(self, desc: &str) -> (r: Self)
        ensures
            r == (AppSpec { description: r.description, ..self }),
            r.description@ == desc@,
    {
        AppSpec { description: desc.to_owned(), ..self }
    }
}

} // verus!
