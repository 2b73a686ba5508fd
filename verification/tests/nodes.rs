use starlang::application::{AppConfig, AppInfo, AppSpec, ConfigValue, StartResult};
use starlang::atom::{Atom, AtomTable};
use starlang::base::exit_reason::ExitReason;
use starlang::base::node::{init_node, node_name, LocalNode, NodeName};
use starlang::base::pid::Pid;
use starlang::distribution::node::{
    init_distribution, remote_send_hook, Config, DistError, Manager,
};
use starlang::gen_fsm::types;
use starlang::gen_server::error::{CallError, StartError, StopError};
use starlang::gen_server::protocol::{
    decode, encode_call, encode_cast, encode_continue, encode_reply, encode_stop, encode_timeout,
    DecodeError, GenServerMessage,
};
use starlang::base::reference::Ref;
use starlang::node::{
    self, current, current_atom, is_alive, list, ping_finish, ping_start, remember, ListOption,
    PingResult, PingStep,
};
use starlang::peer::options::{Connection, PeerOptions, ShutdownBehavior, SpawnMethod};
use starlang::peer::peer::{
    random_name, random_name_with_prefix, BootStep, Launch, Peer, PeerError, PeerState,
    ProcessStatus, Stream,
};
use starlang::runtime::error::SendError;
use starlang::time::Duration;
use starlang::timer::{tc, TimerError, TimerTask, Timers};

#[test]
fn test_not_alive_without_distribution() {
    let mut n = LocalNode::new();
    assert!(!is_alive(&n));
    assert!(current(&n).is_none());
    init_node(&mut n, NodeName::new("x@y"), 0).ok();
    assert!(is_alive(&n));
    assert_eq!(current(&n).unwrap().as_str(), "x@y");
}

#[test]
fn test_list_option_default() {
    let n = LocalNode::new();
    let nodes = list(&n, vec![], &vec![], ListOption::Connected);
    assert!(nodes.is_empty());
}

#[test]
fn listed_nodes() {
    let mut n = LocalNode::new();
    let other = Atom::new(&mut n.atoms, "o@h");
    for option in [ListOption::Connected, ListOption::Known, ListOption::This] {
        assert_eq!(list(&n, vec![other], &vec![], option), vec![other]);
    }
    assert_eq!(list(&n, vec![other], &vec![], ListOption::Visible), vec![other, current_atom(&n)]);
    assert!(list(&n, vec![other], &vec![], ListOption::Hidden).is_empty());
    let gone = Atom::new(&mut n.atoms, "gone@h");
    assert_eq!(
        list(&n, vec![other], &vec![other, gone], ListOption::Known),
        vec![other, gone]
    );
    let mut before = vec![gone];
    remember(&mut before, &vec![other, gone, other]);
    assert_eq!(before, vec![gone, other]);
    assert_eq!(list(&n, vec![], &before, ListOption::Known), vec![gone, other]);
    let manager = Some(Manager { name: "n@h".into(), creation: 0 });
    assert_eq!(node::stop(&manager, vec![other]).unwrap(), vec![other]);
    assert!(matches!(node::stop(&None, vec![]), Err(DistError::Connect(e))
        if e == "distribution not initialized"));
}

#[test]
fn test_ping_result_enum() {
    assert_eq!(PingResult::Pong, PingResult::Pong);
    assert_ne!(PingResult::Pong, PingResult::Pang);
}

#[test]
fn pings() {
    let mut counter = 4;
    assert_eq!(ping_start(false, &mut counter), PingStep::Over(PingResult::Pang));
    assert_eq!(ping_start(true, &mut counter), PingStep::Send(4));
    assert_eq!(counter, 5);
    assert_eq!(ping_finish(true, true), PingResult::Pong);
    assert_eq!(ping_finish(false, true), PingResult::Pang);
    assert_eq!(ping_finish(true, false), PingResult::Pang);
}

#[test]
fn nodes_are_started() {
    let config = node::start("n@h", 9000);
    assert_eq!(config.name.as_deref(), Some("n@h"));
    assert_eq!(config.listen_addr.as_deref(), Some("0.0.0.0:9000"));
    let there = current_atom(&LocalNode::new());
    assert!(matches!(node::spawn(there, "m", "f", vec![]), Err(DistError::Connect(e))
        if e == "remote spawn not yet implemented"));
    assert!(matches!(node::spawn_link(there, "m", "f", vec![]), Err(DistError::Connect(e))
        if e == "remote spawn_link not yet implemented"));
    assert!(matches!(node::spawn_monitor(there, "m", "f", vec![]), Err(DistError::Connect(e))
        if e == "remote spawn_monitor not yet implemented"));
}

#[test]
fn distribution_is_set_up_once() {
    let mut n = LocalNode::new();
    let mut manager = None;
    let config = Config::new().listen_addr("bad").creation(3);
    let r = init_distribution(&mut n, &mut manager, config, 77, None, Err("no port".into()));
    assert!(matches!(r, Err(DistError::InvalidAddress(e)) if e == "bad: no port"));
    assert!(manager.is_none());
    assert_eq!(node_name(&n).unwrap().as_str(), "dream_77@localhost");

    let config = Config::default()
        .name("real@h")
        .listen_addr("1.2.3.4:5")
        .cert_path("c.pem")
        .key_path("k.pem");
    let listen = init_distribution(&mut n, &mut manager, config, 77, Some("box".into()), Ok(()))
        .unwrap()
        .unwrap();
    assert_eq!(listen.addr, "1.2.3.4:5");
    assert_eq!(listen.cert_path.as_deref(), Some("c.pem"));
    assert_eq!(listen.key_path.as_deref(), Some("k.pem"));
    assert_eq!(manager.as_ref().unwrap().name, "real@h");
    assert_eq!(node_name(&n).unwrap().as_str(), "dream_77@localhost");

    let r = init_distribution(&mut n, &mut manager, Config::new(), 77, None, Ok(()));
    assert!(matches!(r, Err(DistError::Connect(e)) if e == "distribution already initialized"));

    let mut m = LocalNode::new();
    let mut manager = None;
    let r = init_distribution(&mut m, &mut manager, Config::new(), 5, Some("box".into()), Ok(()));
    assert!(r.unwrap().is_none());
    assert_eq!(manager.unwrap().name, "dream_5@box");
}

#[test]
fn remote_sends() {
    let mut n = LocalNode::new();
    let pid = Pid::new(&mut n);
    assert!(remote_send_hook(pid, Ok(())).is_ok());
    assert_eq!(
        remote_send_hook(pid, Err(DistError::Connect("x".into()))),
        Err(SendError::ProcessNotFound(pid))
    );
}

#[test]
fn test_random_name() {
    let mut counter = 0;
    let name1 = random_name(1_234_567_890, &mut counter);
    let name2 = random_name(1_234_567_890, &mut counter);

    assert!(name1.starts_with("peer_"));
    assert!(name2.starts_with("peer_"));
    assert_ne!(name1, name2);
    assert_eq!(name1, "peer_0_567890@localhost");
}

#[test]
fn test_random_name_with_prefix() {
    let mut counter = 9;
    let name = random_name_with_prefix("test", 1_000_007, &mut counter);
    assert!(name.starts_with("test_"));
    assert_eq!(name, "test_9_7");
}

#[test]
fn test_peer_options_builder() {
    let opts = PeerOptions::new()
        .name("mynode")
        .host("example.com")
        .dist_port(9000)
        .arg("--verbose")
        .env("RUST_LOG", "debug");

    assert_eq!(opts.name, Some("mynode".into()));
    assert_eq!(opts.host, Some("example.com".into()));
    assert_eq!(opts.dist_port, Some(9000));
    assert!(opts.args.contains(&"--verbose".to_string()));
    assert_eq!(opts.env.get(&"RUST_LOG".to_string()), Some(&"debug".to_string()));
}

#[test]
fn peer_option_defaults() {
    let opts = PeerOptions::default();
    assert_eq!(opts.host.as_deref(), Some("localhost"));
    assert_eq!(opts.boot_timeout, Some(Duration::from_secs(30)));
    assert_eq!(opts.connection, Connection::Standard);
    assert_eq!(opts.shutdown, ShutdownBehavior::Halt);
    let opts = opts
        .no_boot_timeout()
        .shutdown(ShutdownBehavior::Continue)
        .executable("/bin/node");
    assert_eq!(opts.boot_timeout, None);
    assert_eq!(opts.shutdown, ShutdownBehavior::Continue);
    assert!(matches!(opts.spawn_method, SpawnMethod::Executable(p) if p == "/bin/node"));
}

fn plan(options: PeerOptions) -> (Peer, Launch, u64) {
    let mut atoms = AtomTable::new();
    let mut counter = 6;
    let exe = Ok("/bin/me".to_string());
    let (peer, launch) =
        Peer::start_impl(options, true, &mut counter, 4321, exe, &mut atoms).ok().unwrap();
    assert_eq!(peer.node().as_str(&atoms), peer.node_name());
    (peer, launch, counter)
}

#[test]
fn peers_are_planned() {
    let (peer, launch, counter) = plan(PeerOptions::new());
    assert_eq!(counter, 7);
    assert_eq!(peer.node_name(), "peer6@localhost");
    assert_eq!(peer.dist_port(), 4321);
    assert_eq!(peer.dist_addr(), "localhost:4321");
    assert_eq!(peer.get_state(), PeerState::Booting);
    assert_eq!(launch.program, "/bin/me");
    assert_eq!(launch.args, vec!["--name", "peer6", "--dist-port", "4321"]);
    assert_eq!(launch.stdin, Stream::Null);
    assert_eq!(launch.stdout, Stream::Inherited);
    assert!(launch.kill_on_drop);

    let options = PeerOptions::new()
        .name("p")
        .host("h")
        .dist_port(1)
        .port("ws-port", 80)
        .args(vec!["x".into(), "y".into()])
        .arg("z")
        .env("K", "V")
        .connection(Connection::Stdio)
        .spawn_method(SpawnMethod::Ssh {
            host: "far".into(),
            user: Some("me".into()),
            remote_executable: "/opt/node".into(),
        });
    let (peer, launch, counter) = plan(options);
    assert_eq!(counter, 6);
    assert_eq!(peer.node_name(), "p@h");
    assert_eq!(launch.program, "ssh");
    assert_eq!(
        launch.args,
        vec![
            "-l", "me", "far", "/opt/node", "--name", "p", "--dist-port", "1", "--ws-port", "80",
            "x", "y", "z"
        ]
    );
    assert_eq!(launch.env.get(&"K".to_string()), Some(&"V".to_string()));
    assert_eq!((launch.stdin, launch.stdout), (Stream::Piped, Stream::Piped));
    assert_eq!(launch.stderr, Stream::Inherited);

    let (_, launch, _) = plan(PeerOptions::new().name("p").spawn_method(SpawnMethod::Custom {
        command: "docker".into(),
        command_args: vec!["run".into(), "img".into()],
    }));
    assert_eq!(launch.program, "docker");
    assert_eq!(launch.args[..4], ["run", "img", "/bin/me", "--name"]);

    let mut atoms = AtomTable::new();
    let failed = |options: PeerOptions, atoms: &mut AtomTable| {
        Peer::start_impl(options, true, &mut 0, 1, Err("gone".into()), atoms).map(|_| ())
    };
    assert!(matches!(failed(PeerOptions::new(), &mut atoms),
        Err(PeerError::SpawnFailed(e)) if e == "cannot get current exe: gone"));
    assert!(failed(PeerOptions::new().executable("/bin/node"), &mut atoms).is_ok());
}

#[test]
fn peers_boot() {
    let (mut peer, _, _) = plan(PeerOptions::new().boot_timeout(Duration::from_millis(500)));
    let ms = Duration::from_millis;
    assert!(peer.boot_check(ProcessStatus::Running).is_ok());
    assert!(peer.boot_check(ProcessStatus::Missing).is_ok());
    assert!(matches!(peer.wait_boot(false, ms(500), None), BootStep::Retry(d) if d == ms(100)));
    assert!(matches!(peer.wait_boot(false, ms(501), None),
        BootStep::GiveUp(PeerError::BootTimeout)));
    assert!(matches!(peer.wait_boot(false, ms(501), Some(ms(900))), BootStep::Retry(_)));
    assert!(matches!(peer.boot_check(ProcessStatus::Unknown("x".into())),
        Err(PeerError::SpawnFailed(e)) if e == "failed to check process status: x"));
    assert_eq!(peer.get_state(), PeerState::Booting);
    assert!(matches!(peer.wait_boot(true, ms(1), None), BootStep::Ready));
    assert_eq!(peer.get_state(), PeerState::Running);
    assert!(peer.is_alive(ProcessStatus::Running));
    assert!(!peer.is_alive(ProcessStatus::Missing));
    assert_eq!(peer.get_state(), PeerState::Running);
    assert!(matches!(peer.boot_check(ProcessStatus::Exited(Some(2))),
        Err(PeerError::ProcessExited(Some(2)))));
    assert_eq!(peer.get_state(), PeerState::Down);
    let (mut peer, _, _) = plan(PeerOptions::new());
    assert!(peer.stop().is_ok());
    assert_eq!(peer.get_state(), PeerState::Down);
    assert!(!peer.is_alive(ProcessStatus::Exited(None)));
}

#[test]
fn peer_errors_as_text() {
    assert_eq!(PeerError::SpawnFailed("x".into()).display(), "failed to spawn peer: x");
    assert_eq!(PeerError::ProcessExited(Some(0)).display(), "peer process exited with code 0");
    assert_eq!(
        PeerError::ProcessExited(Some(i32::MIN)).display(),
        "peer process exited with code -2147483648"
    );
    assert_eq!(PeerError::ProcessExited(None).display(), "peer process was terminated");
    assert_eq!(PeerError::BootTimeout.display(), "timeout waiting for peer to boot");
    assert_eq!(PeerError::ConnectionFailed("x".into()).display(), "failed to connect to peer: x");
    assert_eq!(PeerError::NotRunning.display(), "peer is not running");
    assert_eq!(PeerError::DistributionError("x".into()).display(), "distribution error: x");
}

#[test]
fn a_call_is_measured() {
    let start = std::time::Instant::now();
    let (elapsed, result) = tc(|| {
        while start.elapsed().as_millis() < 20 {}
        42
    });
    assert_eq!(result, 42);
    assert!(elapsed.nanos >= 10_000_000);
}

#[test]
fn timers_run_and_end() {
    let ms = Duration::from_millis;
    let mut n = LocalNode::new();
    let pid = Pid::new(&mut n);
    let mut timers = Timers::new();
    let once = timers.send_after(&mut n, ms(10), ms(100), pid, vec![1]).unwrap();
    assert_eq!(timers.read(once, ms(30)), Some(ms(80)));
    assert_eq!(timers.read(once, ms(5)), Some(ms(100)));
    assert_eq!(timers.read(once, ms(500)), Some(ms(0)));
    assert!(matches!(timers.fire(once), Some(TimerTask::Send { pid: p, data })
        if p == pid && data == vec![1]));
    assert!(timers.fire(once).is_none());
    assert_eq!(timers.read(once, ms(30)), None);
    assert_eq!(timers.cancel(once, ms(30)), Err(TimerError::NotFound));

    let tick = timers.send_interval(&mut n, ms(0), ms(5), pid, vec![2]).unwrap();
    assert!(timers.fire(tick).is_some());
    assert!(timers.fire(tick).is_some());
    timers.target_gone(tick);
    assert!(timers.fire(tick).is_none());

    let f = timers.apply_after(&mut n, ms(0), ms(100)).unwrap();
    assert_eq!(timers.cancel(f, ms(30)), Ok(ms(70)));
    assert!(timers.fire(f).is_none());
    assert_eq!(f.inner(), Ref::from_raw(2));

    let g = timers.apply_interval(&mut n, ms(0), ms(100)).unwrap();
    assert!(matches!(timers.fire(g), Some(TimerTask::Apply)));
    let x = timers.exit_after(&mut n, ms(0), ms(1), pid, ExitReason::Shutdown).unwrap();
    assert!(matches!(timers.fire(x), Some(TimerTask::Exit { reason: ExitReason::Shutdown, .. })));
    let k = timers.kill_after(&mut n, ms(0), ms(1), pid).unwrap();
    assert!(matches!(timers.fire(k), Some(TimerTask::Exit { reason: ExitReason::Killed, .. })));
    assert_eq!(TimerError::NotFound.display(), "timer not found or already completed");
    assert_eq!(TimerError::CancelFailed.display(), "failed to cancel timer");
}

#[test]
fn server_messages_as_bytes() {
    let mut n = LocalNode::new();
    let pid = Pid::remote(&mut n.atoms, "a@b", 1, 0);
    let from = types::From::new(pid, Ref::from_raw(200));
    let wire_from = (("a@b", 1u64, 0u32), 200u64);

    let bytes = encode_call(&n.atoms, from, vec![1]);
    assert_eq!(bytes, postcard::to_allocvec(&(0u32, wire_from, vec![1u8])).unwrap());
    assert!(matches!(decode(&mut n.atoms, &bytes),
        Ok(GenServerMessage::Call { from: f, payload }) if f == from && payload == vec![1]));

    let bytes = encode_cast(vec![2]);
    assert_eq!(bytes, postcard::to_allocvec(&(1u32, vec![2u8])).unwrap());
    assert!(matches!(decode(&mut n.atoms, &bytes),
        Ok(GenServerMessage::Cast { payload }) if payload == vec![2]));

    let bytes = encode_reply(Ref::from_raw(5), vec![3]);
    assert_eq!(bytes, postcard::to_allocvec(&(2u32, 5u64, vec![3u8])).unwrap());
    assert!(matches!(decode(&mut n.atoms, &bytes),
        Ok(GenServerMessage::Reply { reference, .. }) if reference == Ref::from_raw(5)));

    let bytes = encode_stop(&n.atoms, ExitReason::error("e"), Some(from));
    assert_eq!(bytes, postcard::to_allocvec(&(3u32, (4u32, "e"), Some(wire_from))).unwrap());
    assert!(matches!(decode(&mut n.atoms, &bytes),
        Ok(GenServerMessage::Stop { reason: ExitReason::Error(e), from: Some(f) })
        if e == "e" && f == from));
    let bytes = encode_stop(&n.atoms, ExitReason::Normal, None);
    assert_eq!(bytes, vec![3, 0, 0]);

    assert_eq!(encode_timeout(), vec![4]);
    assert!(matches!(decode(&mut n.atoms, &[4]), Ok(GenServerMessage::Timeout)));
    let bytes = encode_continue(&vec![9, 9]);
    assert_eq!(bytes, postcard::to_allocvec(&(5u32, vec![9u8, 9])).unwrap());
    assert!(matches!(decode(&mut n.atoms, &bytes),
        Ok(GenServerMessage::Continue { arg }) if arg == vec![9, 9]));
    assert!(matches!(decode(&mut n.atoms, &[6]), Err(DecodeError)));
    assert!(matches!(decode(&mut n.atoms, &[]), Err(DecodeError)));
}

#[test]
fn server_errors_as_text() {
    let mut n = LocalNode::new();
    let pid = Pid::new(&mut n);
    assert_eq!(StartError::Ignore.display(), "init returned :ignore");
    assert_eq!(StartError::Stop(ExitReason::Killed).display(), "init stopped: killed");
    assert_eq!(StartError::Timeout.display(), "init timed out");
    assert_eq!(StartError::SpawnFailed("x".into()).display(), "spawn failed: x");
    assert_eq!(CallError::NotAlive(pid).display(&n), "process <0.0.0> is not alive");
    assert_eq!(CallError::Timeout.display(&n), "call timed out");
    assert_eq!(CallError::Exit(ExitReason::Normal).display(&n), "server exited: normal");
    assert_eq!(CallError::NotFound("s".into()).display(&n), "server not found: s");
    assert_eq!(StopError::NotAlive(pid).display(&n), "process <0.0.0> is not alive");
    assert_eq!(StopError::Timeout.display(&n), "stop timed out");
    assert_eq!(StopError::NotFound("s".into()).display(&n), "server not found: s");
}

#[test]
fn applications_are_configured() {
    let mut c = AppConfig::new();
    c.set_string("s", "text".into());
    c.set_int("i", -3);
    c.set_float("f", 1.5f64.to_bits());
    c.set_bool("b", true);
    assert_eq!(c.get_string("s"), Some("text"));
    assert_eq!(c.get_int("i"), Some(-3));
    assert_eq!(c.get_float("f").map(f64::from_bits), Some(1.5));
    assert_eq!(c.get_bool("b"), Some(true));
    assert_eq!(c.get_int("s"), None);
    assert_eq!(c.get_string("none"), None);
    assert!(matches!(c.get("b"), Some(ConfigValue::Bool(true))));
    c.set_int("b", 1);
    assert_eq!(c.get_bool("b"), None);
    let mut keys = c.keys();
    keys.sort();
    assert_eq!(keys, vec!["b", "f", "i", "s"]);

    let spec = AppSpec::new("app").depends_on("db").depends_on("log").description("d");
    assert_eq!(spec.name, "app");
    assert_eq!(spec.dependencies, vec!["db", "log"]);
    assert_eq!(spec.description, "d");

    let mut n = LocalNode::new();
    let pid = Pid::new(&mut n);
    assert_eq!(StartResult::Supervisor(pid).pid(), Some(pid));
    assert_eq!(StartResult::Process(pid).pid(), Some(pid));
    assert_eq!(StartResult::NoProcess.pid(), None);
    let info = AppInfo { name: "a".into(), pid: None, dependencies: vec![], running: false };
    assert!(!info.running);
}
