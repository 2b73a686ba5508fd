//! What a peer is launched with.
use crate::peer::options::{Connection, PeerOptions, ShutdownBehavior, SpawnMethod};
use crate::peer::peer::{
    host_of, launch_args, made_up_name, made_up_node_name, method_args, needs_executable,
    peer_name_of, port_args, program_of, signed_numeral,
};
use crate::text::numeral;
use crate::time::Duration;
use vstd::prelude::*;

verus! {

/// Each further port is passed as two arguments, its name behind two dashes and
/// its number, in order.
pub proof fn ports_are_passed(ports: Seq<(Seq<char>, u16)>, i: int)
    requires
        0 <= i < ports.len(),
    ensures
        port_args(ports).len() == 2 * ports.len(),
        port_args(ports)[2 * i] == "--"@ + ports[i].0,
        port_args(ports)[2 * i + 1] == numeral(ports[i].1 as nat, 10),
    decreases ports.len(),
{
    let less = ports.drop_last();
    if less.len() == 0 {
        assert(port_args(less) =~= Seq::empty());
    } else {
        let j = if i < less.len() {
            i
        } else {
            0
        };
        ports_are_passed(less, j);
        if i < less.len() {
            assert(less[i] == ports[i]);
        }
    }
}

/// A peer is told its name and its port, right behind the arguments that come with
/// the way of spawning; then its further ports; and last the arguments that were
/// given for it, all of them and in order.
pub proof fn peer_is_told_its_setup(
    options: PeerOptions,
    exe: Seq<char>,
    peer_name: Seq<char>,
    dist_port: u16,
)
    ensures
        ({
            let all = launch_args(options, exe, peer_name, dist_port);
            let n = method_args(options.spawn_method, exe).len() as int;
            let p = port_args(options.ports.rows()).len() as int;
            let given = options.args.deep_view();
            &&& all.len() == n + 4 + p + given.len()
            &&& all.subrange(0, n) == method_args(options.spawn_method, exe)
            &&& all[n] == "--name"@
            &&& all[n + 1] == peer_name
            &&& all[n + 2] == "--dist-port"@
            &&& all[n + 3] == numeral(dist_port as nat, 10)
            &&& all.subrange(n + 4, n + 4 + p) == port_args(options.ports.rows())
            &&& all.subrange(n + 4 + p, all.len() as int) == given
        }),
{
    let all = launch_args(options, exe, peer_name, dist_port);
    let n = method_args(options.spawn_method, exe).len() as int;
    let p = port_args(options.ports.rows()).len() as int;
    assert(all.subrange(0, n) =~= method_args(options.spawn_method, exe));
    assert(all.subrange(n + 4, n + 4 + p) =~= port_args(options.ports.rows()));
    assert(all.subrange(n + 4 + p, all.len() as int) =~= options.args.deep_view());
}

/// What is run, and with which arguments, by the way of spawning: this executable or
/// another one by itself; a remote one through a remote shell, as a user if one was
/// named; or this one as the last argument of another command.
pub proof fn spawn_method_decides_command(method: SpawnMethod, exe: Seq<char>)
    ensures
        match method {
            SpawnMethod::CurrentExecutable => {
                &&& needs_executable(method)
                &&& program_of(method, exe) == exe
                &&& method_args(method, exe).len() == 0
            },
            SpawnMethod::Executable(path) => {
                &&& !needs_executable(method)
                &&& program_of(method, exe) == path@
                &&& method_args(method, exe).len() == 0
            },
            SpawnMethod::Ssh { host, user: None, remote_executable } => {
                &&& !needs_executable(method)
                &&& program_of(method, exe) == "ssh"@
                &&& method_args(method, exe) == seq![host@, remote_executable@]
            },
            SpawnMethod::Ssh { host, user: Some(user), remote_executable } => {
                &&& !needs_executable(method)
                &&& program_of(method, exe) == "ssh"@
                &&& method_args(method, exe) == seq!["-l"@, user@, host@, remote_executable@]
            },
            SpawnMethod::Custom { command, command_args } => {
                &&& needs_executable(method)
                &&& program_of(method, exe) == command@
                &&& method_args(method, exe).len() == command_args@.len() + 1
                &&& method_args(method, exe).last() == exe
                &&& forall|i: int|
                    0 <= i < command_args@.len() ==> #[trigger] method_args(method, exe)[i]
                        == command_args@[i]@
            },
        },
{
    if let SpawnMethod::Ssh { host, user, remote_executable } = method {
        match user {
            Some(u) => {
                assert(method_args(method, exe) =~= seq!["-l"@, u@, host@, remote_executable@]);
            },
            None => {
                assert(method_args(method, exe) =~= seq![host@, remote_executable@]);
            },
        }
    }
}

/// A peer has the name and the host that it was given. Without a name it is numbered,
/// and without a host it is on this one.
pub proof fn peer_has_its_name(options: PeerOptions, count: u64)
    ensures
        options.name matches Some(name) ==> peer_name_of(options, count) == name@,
        options.name is None ==> peer_name_of(options, count) == "peer"@ + numeral(
            count as nat,
            10,
        ),
        options.host matches Some(host) ==> host_of(options) == host@,
        options.host is None ==> host_of(options) == "localhost"@,
{
}

/// A made-up name has the prefix, the running number and the last six digits of the
/// time; one of a node has this host.
pub proof fn made_up_name_has_parts(prefix: Seq<char>, id: u64, timestamp: u128)
    ensures
        made_up_name(prefix, id, timestamp) == prefix + "_"@ + numeral(id as nat, 10) + "_"@
            + numeral((timestamp % 1_000_000) as nat, 10),
        made_up_node_name(id, timestamp) == made_up_name("peer"@, id, timestamp) + "@localhost"@,
{
}

/// A number with its sign stands for itself.
pub proof fn signed_numeral_has_sign(n: int)
    ensures
        n < 0 ==> signed_numeral(n) == "-"@ + numeral((-n) as nat, 10),
        n >= 0 ==> signed_numeral(n) == numeral(n as nat, 10),
{
}

/// What is set up where nothing was said.
pub proof fn default_setup(options: PeerOptions, key: Seq<char>)
    requires
        options.is_default(),
    ensures
        options.name is None,
        options.host matches Some(host) && host@ == "localhost"@,
        options.args@.len() == 0,
        !options.env.deep_view().contains_key(key),
        !options.ports.deep_view().contains_key(key),
        options.spawn_method is CurrentExecutable,
        options.connection == Connection::Standard,
        options.shutdown == ShutdownBehavior::Halt,
        options.boot_timeout == Some(Duration { nanos: 30_000_000_000 }),
        options.dist_port is None,
{
    assert(options.args.deep_view().len() == options.args@.len());
}

} // verus!
