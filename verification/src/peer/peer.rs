//! A peer node: how its process is launched, and how it comes up and goes down.
use crate::atom::{Atom, AtomTable};
use crate::data::{next_number, push_one, Data};
use crate::peer::options::{Connection, PeerOptions, SpawnMethod};
use crate::table::Table;
use crate::text::{decimal, join2, join3, join5, numeral};
use crate::time::Duration;
use vstd::prelude::*;
use vstd::string::*;

verus! {

/// What can go wrong with a peer.
#[derive(Debug)]
pub enum PeerError {
    /// Its process was not spawned.
    SpawnFailed(String),
    /// Its process ended, with the exit code if there is one.
    ProcessExited(Option<i32>),
    /// It did not boot in time.
    BootTimeout,
    /// It could not be reached.
    ConnectionFailed(String),
    /// It does not run.
    NotRunning,
    /// Something else between nodes.
    DistributionError(String),
}

/// A number with its sign, in decimal.
pub open spec fn signed_numeral(n: int) -> Seq<char> {
    if n < 0 {
        "-"@ + numeral((-n) as nat, 10)
    } else {
        numeral(n as nat, 10)
    }
}

fn signed_decimal(n: i32) -> (r: String)
    ensures
        r@ == signed_numeral(n as int),
{
    if n < 0 {
        join2("-", decimal((-(n as i64)) as u64).as_str())
    } else {
        decimal(n as u64)
    }
}

impl PeerError {
    /// The error as text.
    pub fn display(&self) -> (r: String)
        ensures
            r@ == (match self {
                PeerError::SpawnFailed(e) => "failed to spawn peer: "@ + e@,
                PeerError::ProcessExited(Some(c)) => "peer process exited with code "@
                    + signed_numeral(*c as int),
                PeerError::ProcessExited(None) => "peer process was terminated"@,
                PeerError::BootTimeout => "timeout waiting for peer to boot"@,
                PeerError::ConnectionFailed(e) => "failed to connect to peer: "@ + e@,
                PeerError::NotRunning => "peer is not running"@,
                PeerError::DistributionError(e) => "distribution error: "@ + e@,
            }),
    {
        match self {
            PeerError::SpawnFailed(e) => join2("failed to spawn peer: ", e.as_str()),
            PeerError::ProcessExited(Some(c)) => join2(
                "peer process exited with code ",
                signed_decimal(*c).as_str(),
            ),
            PeerError::ProcessExited(None) => "peer process was terminated".to_owned(),
            PeerError::BootTimeout => "timeout waiting for peer to boot".to_owned(),
            PeerError::ConnectionFailed(e) => join2("failed to connect to peer: ", e.as_str()),
            PeerError::NotRunning => "peer is not running".to_owned(),
            PeerError::DistributionError(e) => join2("distribution error: ", e.as_str()),
        }
    }
}

/// How far a peer is.
#[derive(Clone, Copy, Debug, PartialEq, Eq, Structural)]
pub enum PeerState {
    /// Its process starts.
    Booting,
    /// It runs and is connected.
    Running,
    /// It has stopped.
    Down,
}

/// Where an input or output of a process leads.
#[derive(Clone, Copy, Debug, PartialEq, Eq, Structural)]
pub enum Stream {
    /// To the process that spawned it.
    Piped,
    /// Where that of the process that spawned it leads.
    Inherited,
    /// Nowhere.
    Null,
}

/// How the process of a peer is launched.
pub struct Launch {
    /// The command.
    pub program: String,
    /// The arguments, in order.
    pub args: Vec<String>,
    /// The environment variables that are set.
    pub env: Table<String, String>,
    /// The standard input.
    pub stdin: Stream,
    /// The standard output.
    pub stdout: Stream,
    /// The standard error output.
    pub stderr: Stream,
    /// Whether the process ends with its handle.
    pub kill_on_drop: bool,
}

/// Whether the executable that runs now is needed.
pub open spec fn needs_executable(method: SpawnMethod) -> bool {
    method is CurrentExecutable || method is Custom
}

/// What is run. `exe` is the executable that runs now.
pub open spec fn program_of(method: SpawnMethod, exe: Seq<char>) -> Seq<char> {
    match method {
        SpawnMethod::CurrentExecutable => exe,
        SpawnMethod::Executable(path) => path@,
        SpawnMethod::Ssh { host, user, remote_executable } => "ssh"@,
        SpawnMethod::Custom { command, command_args } => command@,
    }
}

/// The arguments that come with the way of spawning. `exe` is the executable that
/// runs now.
pub open spec fn method_args(method: SpawnMethod, exe: Seq<char>) -> Seq<Seq<char>> {
    match method {
        SpawnMethod::Ssh { host, user, remote_executable } => (match user {
            Some(u) => seq!["-l"@, u@],
            None => Seq::empty(),
        }) + seq![host@, remote_executable@],
        SpawnMethod::Custom { command, command_args } => command_args.deep_view().push(exe),
        _ => Seq::empty(),
    }
}

/// The arguments for further ports.
pub open spec fn port_args(ports: Seq<(Seq<char>, u16)>) -> Seq<Seq<char>>
    decreases ports.len(),
{
    if ports.len() == 0 {
        Seq::empty()
    } else {
        port_args(ports.drop_last()) + seq![
            "--"@ + ports.last().0,
            numeral(ports.last().1 as nat, 10),
        ]
    }
}

/// All arguments of a peer.
pub open spec fn launch_args(
    options: PeerOptions,
    exe: Seq<char>,
    peer_name: Seq<char>,
    dist_port: u16,
) -> Seq<Seq<char>> {
    method_args(options.spawn_method, exe) + seq![
        "--name"@,
        peer_name,
        "--dist-port"@,
        numeral(dist_port as nat, 10),
    ] + port_args(options.ports.rows()) + options.args.deep_view()
}

/// The name of a peer: the one that it was given, or one with a running number.
pub open spec fn peer_name_of(options: PeerOptions, count: u64) -> Seq<char> {
    match options.name {
        Some(name) => name@,
        None => "peer"@ + numeral(count as nat, 10),
    }
}

/// The host of a peer.
pub open spec fn host_of(options: PeerOptions) -> Seq<char> {
    match options.host {
        Some(host) => host@,
        None => "localhost"@,
    }
}

/// A peer.
pub struct Peer {
    node: Atom,
    node_name: String,
    state: PeerState,
    options: PeerOptions,
    kill_on_drop: bool,
    dist_port: u16,
}

/// How the process of a peer is found.
#[derive(Debug)]
pub enum ProcessStatus {
    /// There is none.
    Missing,
    /// It ended, with the exit code if there is one.
    Exited(Option<i32>),
    /// It runs.
    Running,
    /// That could not be found out.
    Unknown(String),
}

/// How a wait for a peer goes on.
#[derive(Debug)]
pub enum BootStep {
    /// The peer is ready.
    Ready,
    /// The wait is over.
    GiveUp(PeerError),
    /// The next attempt follows after the given time.
    Retry(Duration),
}

impl Peer {
    /// The atom of the node.
    pub closed spec fn spec_node(&self) -> Atom {
        self.node
    }

    /// The name of the node.
    pub closed spec fn spec_node_name(&self) -> Seq<char> {
        self.node_name@
    }

    /// How far the peer is.
    pub closed spec fn spec_state(&self) -> PeerState {
        self.state
    }

    /// How the peer was set up.
    pub closed spec fn spec_options(&self) -> PeerOptions {
        self.options
    }

    /// The port at which the peer listens for other nodes.
    pub closed spec fn spec_dist_port(&self) -> u16 {
        self.dist_port
    }

    /// Whether the peer ends with its handle.
    pub closed spec fn spec_kill_on_drop(&self) -> bool {
        self.kill_on_drop
    }

    /// Plans a peer: the peer, and how its process is launched. `counter` runs
    /// on with each name that is made up, `free_port` is used where no port was
    /// given, and `current_exe` is the executable that runs now, or why that is
    /// not known.
    pub fn start_impl(
        options: PeerOptions,
        kill_on_drop: bool,
        counter: &mut u64,
        free_port: u16,
        current_exe: Result<String, String>,
        atoms: &mut AtomTable,
    ) -> (r: Result<(Peer, Launch), PeerError>)
        requires
            old(atoms).well_formed(),
            old(atoms).room_for(1),
        ensures
            final(atoms).well_formed(),
            *final(counter) == (if options.name is None {
                next_number(*old(counter))
            } else {
                *old(counter)
            }),
            match current_exe {
                Err(failure) if needs_executable(options.spawn_method) => {
                    &&& r matches Err(PeerError::SpawnFailed(e))
                    &&& e@ == "cannot get current exe: "@ + failure@
                    &&& final(atoms)@ == old(atoms)@
                },
                _ => {
                    let name = peer_name_of(options, *old(counter));
                    let node_name = name + "@"@ + host_of(options);
                    let exe = match current_exe {
                        Ok(exe) => exe@,
                        Err(_) => Seq::empty(),
                    };
                    let port = match options.dist_port {
                        Some(port) => port,
                        None => free_port,
                    };
                    let piped = options.connection == Connection::Stdio;
                    &&& r matches Ok((peer, launch))
                    &&& peer.spec_node_name() == node_name
                    &&& final(atoms).knows(peer.spec_node())
                    &&& final(atoms).string(peer.spec_node()) == node_name
                    &&& final(atoms)@ == (if old(atoms)@.contains(node_name) {
                        old(atoms)@
                    } else {
                        old(atoms)@.push(node_name)
                    })
                    &&& peer.spec_state() == PeerState::Booting
                    &&& peer.spec_options() == options
                    &&& peer.spec_dist_port() == port
                    &&& peer.spec_kill_on_drop() == kill_on_drop
                    &&& launch.program@ == program_of(options.spawn_method, exe)
                    &&& launch.args.deep_view() == launch_args(options, exe, name, port)
                    &&& launch.env.deep_view() == options.env.deep_view()
                    &&& launch.kill_on_drop == kill_on_drop
                    &&& launch.stdin == (if piped {
                        Stream::Piped
                    } else {
                        Stream::Null
                    })
                    &&& launch.stdout == (if piped {
                        Stream::Piped
                    } else {
                        Stream::Inherited
                    })
                    &&& launch.stderr == Stream::Inherited
                },
            },
    {
        let peer_name = match &options.name {
            Some(name) => name.clone(),
            None => {
                let id: u64 = *counter;
                *counter = id.wrapping_add(1);
                join2("peer", decimal(id).as_str())
            },
        };
        let host = match &options.host {
            Some(host) => host.clone(),
            None => "localhost".to_owned(),
        };
        let node_name = join3(peer_name.as_str(), "@", host.as_str());
        let dist_port: u16 = match options.dist_port {
            Some(port) => port,
            None => free_port,
        };
        let exe = match current_exe {
            Ok(exe) => exe,
            Err(failure) => match &options.spawn_method {
                SpawnMethod::Executable(_) => String::new(),
                SpawnMethod::Ssh { .. } => String::new(),
                _ => {
                    return Err(
                        PeerError::SpawnFailed(
                            join2("cannot get current exe: ", failure.as_str()),
                        ),
                    );
                },
            },
        };
        let (program, mut args) = base_command(&options.spawn_method, exe.as_str());
        push_one(&mut args, "--name".to_owned());
        push_one(&mut args, peer_name);
        push_one(&mut args, "--dist-port".to_owned());
        push_one(&mut args, decimal(dist_port as u64));
        let ghost standard = args.deep_view();
        let ghost rows = options.ports.rows();
        let n: usize = options.ports.len();
        let mut i: usize = 0;
        proof {
            assert(port_args(rows.take(0)) =~= Seq::empty());
            assert(standard + Seq::<Seq<char>>::empty() =~= standard);
        }
        while i < n
            invariant
                i <= n,
                n == rows.len(),
                rows == options.ports.rows(),
                args.deep_view() == standard + port_args(rows.take(i as int)),
            decreases n - i,
        {
            proof {
                assert(rows.take(i + 1).drop_last() =~= rows.take(i as int));
                assert(rows.take(i + 1).last() == rows[i as int]);
            }
            push_one(&mut args, join2("--", options.ports.key_at(i).as_str()));
            push_one(&mut args, decimal(*options.ports.value_at(i) as u64));
            assert(args.deep_view() =~= standard + port_args(rows.take(i + 1)));
            i += 1;
        }
        assert(rows.take(n as int) =~= rows);
        append_all(&mut args, options.args.duplicate());
        proof {
            assert(args.deep_view() =~= launch_args(options, exe@, peer_name@, dist_port));
        }
        let env = options.env.duplicate();
        let (stdin, stdout) = match options.connection {
            Connection::Stdio => (Stream::Piped, Stream::Piped),
            _ => (Stream::Null, Stream::Inherited),
        };
        let node = Atom::new(atoms, node_name.as_str());
        let launch = Launch {
            program,
            args,
            env,
            stdin,
            stdout,
            stderr: Stream::Inherited,
            kill_on_drop,
        };
        let peer = Peer {
            node,
            node_name,
            state: PeerState::Booting,
            options,
            kill_on_drop,
            dist_port,
        };
        Ok((peer, launch))
    }

    /// The atom of the node.
    pub fn node(&self) -> (r: Atom)
        ensures
            r == self.spec_node(),
    {
        self.node
    }

    /// The name of the node.
    pub fn node_name(&self) -> (r: &str)
        ensures
            r@ == self.spec_node_name(),
    {
        self.node_name.as_str()
    }

    /// How far the peer is.
    pub fn get_state(&self) -> (r: PeerState)
        ensures
            r == self.spec_state(),
    {
        self.state
    }

    /// The port at which the peer listens for other nodes.
    pub fn dist_port(&self) -> (r: u16)
        ensures
            r == self.spec_dist_port(),
    {
        self.dist_port
    }

    /// The address at which the peer listens for other nodes.
    pub fn dist_addr(&self) -> (r: String)
        ensures
            r@ == host_of(self.spec_options()) + ":"@ + numeral(self.spec_dist_port() as nat, 10),
    {
        let port = decimal(self.dist_port as u64);
        match &self.options.host {
            Some(host) => join3(host.as_str(), ":", port.as_str()),
            None => join3("localhost", ":", port.as_str()),
        }
    }

    /// Whether at most how far the peer is has changed.
    pub open spec fn only_state(&self, before: &Peer) -> bool {
        &&& self.spec_node() == before.spec_node()
        &&& self.spec_node_name() == before.spec_node_name()
        &&& self.spec_options() == before.spec_options()
        &&& self.spec_dist_port() == before.spec_dist_port()
        &&& self.spec_kill_on_drop() == before.spec_kill_on_drop()
    }

    /// Checks, before each attempt to connect, whether the wait for the peer is
    /// of use.
    pub fn boot_check(&mut self, status: ProcessStatus) -> (r: Result<(), PeerError>)
        ensures
            final(self).only_state(old(self)),
            final(self).spec_state() == (if status is Exited {
                PeerState::Down
            } else {
                old(self).spec_state()
            }),
            match status {
                ProcessStatus::Exited(code) => r == Err::<(), PeerError>(
                    PeerError::ProcessExited(code),
                ),
                ProcessStatus::Unknown(e) => r matches Err(PeerError::SpawnFailed(msg)) && msg@
                    == "failed to check process status: "@ + e@,
                _ => r is Ok,
            },
    {
        match status {
            ProcessStatus::Exited(code) => {
                self.state = PeerState::Down;
                Err(PeerError::ProcessExited(code))
            },
            ProcessStatus::Unknown(e) => Err(
                PeerError::SpawnFailed(join2("failed to check process status: ", e.as_str())),
            ),
            _ => Ok(()),
        }
    }

    /// Takes in how an attempt to connect went, `elapsed` after the wait began.
    /// The time limit is the given one, or that of the setup.
    pub fn wait_boot(&mut self, connected: bool, elapsed: Duration, timeout: Option<Duration>)
        -> (r: BootStep)
        ensures
            final(self).only_state(old(self)),
            final(self).spec_state() == (if connected {
                PeerState::Running
            } else {
                old(self).spec_state()
            }),
            ({
                let limit = match timeout {
                    Some(t) => Some(t),
                    None => old(self).spec_options().boot_timeout,
                };
                if connected {
                    r is Ready
                } else if limit matches Some(t) && elapsed.nanos > t.nanos {
                    r == BootStep::GiveUp(PeerError::BootTimeout)
                } else {
                    r == BootStep::Retry(Duration { nanos: 100_000_000 })
                }
            }),
    {
        if connected {
            self.state = PeerState::Running;
            return BootStep::Ready;
        }
        let limit = match timeout {
            Some(t) => Some(t),
            None => self.options.boot_timeout,
        };
        if let Some(t) = limit {
            if elapsed.nanos > t.nanos {
                return BootStep::GiveUp(PeerError::BootTimeout);
            }
        }
        BootStep::Retry(Duration::from_millis(100))
    }

    /// Notes that the peer was stopped.
    pub fn stop(&mut self) -> (r: Result<(), PeerError>)
        ensures
            r is Ok,
            final(self).only_state(old(self)),
            final(self).spec_state() == PeerState::Down,
    {
        self.state = PeerState::Down;
        Ok(())
    }

    /// Whether the process runs, from how it was found.
    pub fn is_alive(&mut self, status: ProcessStatus) -> (r: bool)
        ensures
            final(self).only_state(old(self)),
            r == (status is Running),
            final(self).spec_state() == (if status is Exited {
                PeerState::Down
            } else {
                old(self).spec_state()
            }),
    {
        match status {
            ProcessStatus::Exited(_) => {
                self.state = PeerState::Down;
                false
            },
            ProcessStatus::Running => true,
            _ => false,
        }
    }
}

fn append_all(args: &mut Vec<String>, more: Vec<String>)
    ensures
        final(args).deep_view() == old(args).deep_view() + more.deep_view(),
{
    let mut rest = more;
    args.append(&mut rest);
    assert(args.deep_view() =~= old(args).deep_view() + more.deep_view());
}

fn base_command(method: &SpawnMethod, exe: &str) -> (r: (String, Vec<String>))
    ensures
        r.0@ == program_of(*method, exe@),
        r.1.deep_view() == method_args(*method, exe@),
{
    let mut args: Vec<String> = Vec::new();
    assert(args.deep_view() =~= Seq::empty());
    match method {
        SpawnMethod::CurrentExecutable => (exe.to_owned(), args),
        SpawnMethod::Executable(path) => (path.clone(), args),
        SpawnMethod::Ssh { host, user, remote_executable } => {
            if let Some(u) = user {
                push_one(&mut args, "-l".to_owned());
                push_one(&mut args, u.clone());
            }
            push_one(&mut args, host.clone());
            push_one(&mut args, remote_executable.clone());
            assert(args.deep_view() =~= method_args(*method, exe@));
            ("ssh".to_owned(), args)
        },
        SpawnMethod::Custom { command, command_args } => {
            let mut args = command_args.duplicate();
            push_one(&mut args, exe.to_owned());
            (command.clone(), args)
        },
    }
}

/// A made-up name.
pub open spec fn made_up_name(prefix: Seq<char>, id: u64, timestamp: u128) -> Seq<char> {
    prefix + "_"@ + numeral(id as nat, 10) + "_"@ + numeral((timestamp % 1000000) as nat, 10)
}

/// A made-up node name for a peer on this host.
pub open spec fn made_up_node_name(id: u64, timestamp: u128) -> Seq<char> {
    made_up_name("peer"@, id, timestamp) + "@localhost"@
}

/// A made-up node name for a peer on this host, at `timestamp` nanoseconds since
/// the epoch. `counter` runs on with each one.
pub fn random_name(timestamp: u128, counter: &mut u64) -> (r: String)
    ensures
        r@ == made_up_node_name(*old(counter), timestamp),
        *final(counter) == next_number(*old(counter)),
{
    join2(random_name_with_prefix("peer", timestamp, counter).as_str(), "@localhost")
}

/// A made-up name that starts with the prefix, at `timestamp` nanoseconds since
/// the epoch. `counter` runs on with each one.
pub fn random_name_with_prefix(prefix: &str, timestamp: u128, counter: &mut u64) -> (r: String)
    ensures
        r@ == made_up_name(prefix@, *old(counter), timestamp),
        *final(counter) == next_number(*old(counter)),
{
    let id: u64 = *counter;
    *counter = id.wrapping_add(1);
    let part: u64 = (timestamp % 1000000) as u64;
    join5(prefix, "_", decimal(id).as_str(), "_", decimal(part).as_str())
}

/// Made-up names with one prefix and different running numbers are different,
/// and so are made-up node names.
pub proof fn made_up_names_differ(prefix: Seq<char>, a: u64, t: u128, b: u64, u: u128)
    requires
        a != b,
    ensures
        made_up_name(prefix, a, t) != made_up_name(prefix, b, u),
        made_up_node_name(a, t) != made_up_node_name(b, u),
{
    lemma_made_up_names_differ(prefix, a, t, b, u);
    lemma_made_up_names_differ("peer"@, a, t, b, u);
    let (x, y) = (made_up_name("peer"@, a, t), made_up_name("peer"@, b, u));
    if x + "@localhost"@ == y + "@localhost"@ {
        assert(x =~= (x + "@localhost"@).take(x.len() as int));
        assert(y =~= (y + "@localhost"@).take(y.len() as int));
    }
}

proof fn lemma_made_up_names_differ(prefix: Seq<char>, a: u64, t: u128, b: u64, u: u128)
    requires
        a != b,
    ensures
        made_up_name(prefix, a, t) != made_up_name(prefix, b, u),
{
    let sep = '_';
    let x = made_up_name(prefix, a, t);
    let y = made_up_name(prefix, b, u);
    let (p, q) = (numeral(a as nat, 10), numeral((t % 1000000) as nat, 10));
    let (v, w) = (numeral(b as nat, 10), numeral((u % 1000000) as nat, 10));
    crate::text::lemma_numeral_value(a as nat, 10);
    crate::text::lemma_numeral_value(b as nat, 10);
    reveal_strlit("_");
    if x == y {
        let n = prefix.len() as int + 1;
        assert(x.subrange(n, x.len() as int) =~= p.push(sep) + q);
        assert(y.subrange(n, y.len() as int) =~= v.push(sep) + w);
        crate::text::lemma_split_unique(p, q, v, w, sep);
        crate::text::lemma_numeral_injective(a as nat, b as nat, 10);
    }
}

} // verus!
