//! How a peer node is set up.
use crate::data::push_one;
use crate::table::Table;
use crate::time::Duration;
use vstd::prelude::*;

verus! {

/// How the process of a peer is spawned.
#[derive(Debug)]
pub enum SpawnMethod {
    /// From the executable that runs now.
    CurrentExecutable,
    /// From the executable at the path.
    Executable(String),
    /// On another host.
    Ssh {
        /// The host.
        host: String,
        /// The user there.
        user: Option<String>,
        /// The path of the executable there.
        remote_executable: String,
    },
    /// By a command.
    Custom {
        /// The command.
        command: String,
        /// Its arguments, in front of the executable that runs now and the
        /// arguments of the peer.
        command_args: Vec<String>,
    },
}

impl Default for SpawnMethod {
    fn default() -> (r: Self)
        ensures
            r == SpawnMethod::CurrentExecutable,
    {
        SpawnMethod::CurrentExecutable
    }
}

/// How a peer is connected with the node that started it.
#[derive(Clone, Copy, Debug, PartialEq, Eq, Structural)]
pub enum Connection {
    /// As any other node.
    Standard,
    /// Through a port of its own.
    Tcp {
        /// The port.
        port: u16,
    },
    /// Through its standard input and output.
    Stdio,
}

impl Default for Connection {
    fn default() -> (r: Self)
        ensures
            r == Connection::Standard,
    {
        Connection::Standard
    }
}

/// What a peer does when its connection is lost.
#[derive(Clone, Copy, Debug, PartialEq, Eq, Structural)]
pub enum ShutdownBehavior {
    /// It ends.
    Halt,
    /// It runs on by itself.
    Continue,
    /// It tries to reconnect for the given time, and then ends.
    Reconnect(Duration),
}

impl Default for ShutdownBehavior {
    fn default() -> (r: Self)
        ensures
            r == ShutdownBehavior::Halt,
    {
        ShutdownBehavior::Halt
    }
}

/// How a peer is set up.
pub struct PeerOptions {
    /// The name of its node.
    pub name: Option<String>,
    /// The host of its node.
    pub host: Option<String>,
    /// Arguments for its executable.
    pub args: Vec<String>,
    /// Environment variables for its process.
    pub env: Table<String, String>,
    /// How its process is spawned.
    pub spawn_method: SpawnMethod,
    /// How it is connected with the node that started it.
    pub connection: Connection,
    /// What it does when that connection is lost.
    pub shutdown: ShutdownBehavior,
    /// How long to wait for it to boot. Forever if nothing is said.
    pub boot_timeout: Option<Duration>,
    /// The port at which it listens for other nodes.
    pub dist_port: Option<u16>,
    /// Further ports, each passed as an argument by its name.
    pub ports: Table<String, u16>,
}

impl Default for PeerOptions {
    fn default() -> (r: Self)
        ensures
            r.is_default(),
    {
        let r = PeerOptions {
            name: None,
            host: Some("localhost".to_owned()),
            args: Vec::new(),
            env: Table::new(),
            spawn_method: SpawnMethod::default(),
            connection: Connection::default(),
            shutdown: ShutdownBehavior::default(),
            boot_timeout: Some(Duration::from_secs(30)),
            dist_port: None,
            ports: Table::new(),
        };
        assert(r.args.deep_view() =~= Seq::empty());
        r
    }
}

impl PeerOptions {
    /// A peer on this host, from the current executable, that has half a minute
    /// to boot.
    pub open spec fn is_default(&self) -> bool {
        &&& self.name is None
        &&& self.host matches Some(host) && host@ == "localhost"@
        &&& self.args.deep_view() == Seq::<Seq<char>>::empty()
        &&& self.env.deep_view() == Map::<Seq<char>, Seq<char>>::empty()
        &&& self.spawn_method == SpawnMethod::CurrentExecutable
        &&& self.connection == Connection::Standard
        &&& self.shutdown == ShutdownBehavior::Halt
        &&& self.boot_timeout == Some(Duration { nanos: 30_000_000_000 })
        &&& self.dist_port is None
        &&& self.ports.deep_view() == Map::<Seq<char>, u16>::empty()
    }

    /// The default setup.
    pub fn new() -> (r: Self)
        ensures
            r.is_default(),
    {
        PeerOptions::default()
    }

    /// Sets the name of the node.
    pub fn name(self, name: &str) -> (r: Self)
        ensures
            r == (PeerOptions { name: r.name, ..self }),
            r.name matches Some(n) && n@ == name@,
    {
        PeerOptions { name: Some(name.to_owned()), ..self }
    }

    /// Sets the host of the node.
    pub fn host(self, host: &str) -> (r: Self)
        ensures
            r == (PeerOptions { host: r.host, ..self }),
            r.host matches Some(h) && h@ == host@,
    {
        PeerOptions { host: Some(host.to_owned()), ..self }
    }

    /// Adds an argument.
    pub fn arg(self, arg: &str) -> (r: Self)
        ensures
            r == (PeerOptions { args: r.args, ..self }),
            r.args.deep_view() == self.args.deep_view().push(arg@),
    {
        let mut r = self;
        push_one(&mut r.args, arg.to_owned());
        r
    }

    /// Adds arguments.
    pub fn args(self, args: Vec<String>) -> (r: Self)
        ensures
            r == (PeerOptions { args: r.args, ..self }),
            r.args.deep_view() == self.args.deep_view() + args.deep_view(),
    {
        let mut r = self;
        let mut rest = args;
        r.args.append(&mut rest);
        assert(r.args.deep_view() =~= self.args.deep_view() + args.deep_view());
        r
    }

    /// Sets an environment variable.
    pub fn env(self, key: &str, value: &str) -> (r: Self)
        ensures
            r == (PeerOptions { env: r.env, ..self }),
            r.env.deep_view() == self.env.deep_view().insert(key@, value@),
    {
        let mut r = self;
        r.env.insert(key.to_owned(), value.to_owned());
        r
    }

    /// Sets how the process is spawned.
    pub fn spawn_method(self, method: SpawnMethod) -> (r: Self)
        ensures
            r == (PeerOptions { spawn_method: method, ..self }),
    {
        PeerOptions { spawn_method: method, ..self }
    }

    /// Sets how the peer is connected.
    pub fn connection(self, conn: Connection) -> (r: Self)
        ensures
            r == (PeerOptions { connection: conn, ..self }),
    {
        PeerOptions { connection: conn, ..self }
    }

    /// Sets what the peer does when its connection is lost.
    pub fn shutdown(self, behavior: ShutdownBehavior) -> (r: Self)
        ensures
            r == (PeerOptions { shutdown: behavior, ..self }),
    {
        PeerOptions { shutdown: behavior, ..self }
    }

    /// Sets how long to wait for the peer to boot.
    pub fn boot_timeout(self, timeout: Duration) -> (r: Self)
        ensures
            r == (PeerOptions { boot_timeout: Some(timeout), ..self }),
    {
        PeerOptions { boot_timeout: Some(timeout), ..self }
    }

    /// Sets that the wait for the peer to boot has no end.
    pub fn no_boot_timeout(self) -> (r: Self)
        ensures
            r == (PeerOptions { boot_timeout: None, ..self }),
    {
        PeerOptions { boot_timeout: None, ..self }
    }

    /// Sets the port at which the peer listens for other nodes.
    pub fn dist_port(self, port: u16) -> (r: Self)
        ensures
            r == (PeerOptions { dist_port: Some(port), ..self }),
    {
        PeerOptions { dist_port: Some(port), ..self }
    }

    /// Sets a further port.
    pub fn port(self, name: &str, port: u16) -> (r: Self)
        ensures
            r == (PeerOptions { ports: r.ports, ..self }),
            r.ports.deep_view() == self.ports.deep_view().insert(name@, port),
    {
        let mut r = self;
        r.ports.insert(name.to_owned(), port);
        r
    }

    /// Sets that the process is spawned from the executable at the path.
    pub fn executable(self, path: &str) -> (r: Self)
        ensures
            r == (PeerOptions { spawn_method: r.spawn_method, ..self }),
            r.spawn_method matches SpawnMethod::Executable(p) && p@ == path@,
    {
        PeerOptions { spawn_method: SpawnMethod::Executable(path.to_owned()), ..self }
    }
}

} // verus!
