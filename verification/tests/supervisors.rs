use starlang::base::exit_reason::ExitReason;
use starlang::base::message::SystemMessage;
use starlang::base::node::LocalNode;
use starlang::base::pid::Pid;
use starlang::base::reference::Ref;
use starlang::runtime::context::Context;
use starlang::runtime::process::{ProcessRegistry, ProcessState};
use starlang::supervisor::dynamic_supervisor::{
    self, count_children, restart_outcome, terminate_child, which_children, DynamicStep,
    DynamicSupervisor, DynamicSupervisorOpts,
};
use starlang::supervisor::error::{DeleteError, RestartError, StartError, TerminateError};
use starlang::supervisor::supervisor::{
    self, ExitPlan, StopChild, Supervisor, SupervisorEvent, SupervisorInit, SupervisorState,
    SupervisorStep,
};
use starlang::supervisor::types::{
    ChildCounts, ChildSpec, ChildType, RestartType, ShutdownType, StartChildError, Strategy,
    SupervisorFlags,
};
use starlang::time::Duration;

fn at(secs: u64) -> Duration {
    Duration::from_secs(secs)
}

struct Tree {
    node: LocalNode,
    state: SupervisorState<&'static str>,
}

impl Tree {
    fn new(strategy: Strategy) -> Self {
        let children = vec![
            ChildSpec::new("a", "start a"),
            ChildSpec::new("b", "start b").restart(RestartType::Transient),
            ChildSpec::new("c", "start c").supervisor(),
            ChildSpec::new("d", "start d").restart(RestartType::Temporary),
        ];
        let init = SupervisorInit::new(SupervisorFlags::new(strategy), children);
        let mut t = Tree { node: LocalNode::new(), state: SupervisorState::new(init) };
        assert_eq!(t.start_pending(), vec!["a", "b", "c", "d"]);
        t
    }

    fn start_pending(&mut self) -> Vec<String> {
        let mut started = Vec::new();
        while let Some((id, start)) = self.state.next_start() {
            assert_eq!(*start, format!("start {id}"));
            started.push(id.clone());
            let pid = Pid::new(&mut self.node);
            let monitor = Ref::new(&mut self.node);
            assert_eq!(self.state.start_child(Ok((pid, monitor))).unwrap(), pid);
        }
        started
    }

    fn pid(&self, id: &str) -> Pid {
        self.state.which_children().into_iter().find(|c| c.id == id).unwrap().pid.unwrap()
    }
}

#[test]
fn one_for_one_restarts_one() {
    let mut t = Tree::new(Strategy::OneForOne);
    let (a, b) = (t.pid("a"), t.pid("b"));
    match t.state.handle_child_exit(a, ExitReason::Normal, at(1)) {
        ExitPlan::Restart(stops) => assert!(stops.is_empty()),
        p => panic!("{p:?}"),
    }
    assert_eq!(t.start_pending(), vec!["a"]);
    assert_ne!(t.pid("a"), a);
    assert_eq!(t.pid("b"), b);
}

#[test]
fn one_for_all_restarts_all() {
    let mut t = Tree::new(Strategy::OneForAll);
    let (b, c, d) = (t.pid("b"), t.pid("c"), t.pid("d"));
    let a = t.pid("a");
    match t.state.handle_child_exit(a, ExitReason::Killed, at(1)) {
        ExitPlan::Restart(stops) => {
            let pids: Vec<Pid> = stops.iter().map(|s| s.pid).collect();
            assert_eq!(pids, vec![d, c, b]);
            assert!(stops.iter().all(|s| s.monitor_ref.is_some()));
        }
        p => panic!("{p:?}"),
    }
    assert_eq!(t.start_pending(), vec!["a", "b", "c", "d"]);
}

#[test]
fn rest_for_one_restarts_the_rest() {
    let mut t = Tree::new(Strategy::RestForOne);
    let (a, c, d) = (t.pid("a"), t.pid("c"), t.pid("d"));
    match t.state.handle_child_exit(t.pid("b"), ExitReason::error("x"), at(1)) {
        ExitPlan::Restart(stops) => {
            assert_eq!(stops.iter().map(|s| s.pid).collect::<Vec<_>>(), vec![d, c]);
        }
        p => panic!("{p:?}"),
    }
    assert_eq!(t.start_pending(), vec!["b", "c", "d"]);
    assert_eq!(t.pid("a"), a);
}

#[test]
fn restart_type_decides() {
    let mut t = Tree::new(Strategy::OneForOne);
    let b = t.pid("b");
    assert!(matches!(t.state.handle_child_exit(b, ExitReason::Shutdown, at(1)), ExitPlan::Carry));
    let d = t.pid("d");
    assert!(matches!(t.state.handle_child_exit(d, ExitReason::Killed, at(1)), ExitPlan::Carry));
    assert!(matches!(t.state.handle_child_exit(d, ExitReason::Killed, at(1)), ExitPlan::Carry));
    assert_eq!(
        t.state.count_children(),
        ChildCounts { specs: 4, active: 2, supervisors: 1, workers: 1 }
    );
    assert!(RestartType::Permanent.should_restart(&ExitReason::Normal));
}

#[test]
fn too_many_restarts() {
    let mut t = Tree::new(Strategy::OneForOne);
    for i in 0..3 {
        let a = t.pid("a");
        assert!(matches!(
            t.state.handle_child_exit(a, ExitReason::Killed, at(10 + i)),
            ExitPlan::Restart(_)
        ));
        t.start_pending();
    }
    let a = t.pid("a");
    match t.state.handle_child_exit(a, ExitReason::Killed, at(14)) {
        ExitPlan::GiveUp(why) => {
            assert_eq!(why, ExitReason::Error("max restart intensity reached".into()))
        }
        p => panic!("{p:?}"),
    }
    let mut t = Tree::new(Strategy::OneForOne);
    for i in 0..3 {
        let a = t.pid("a");
        t.state.handle_child_exit(a, ExitReason::Killed, at(10 + i));
        t.start_pending();
    }
    let a = t.pid("a");
    assert!(matches!(
        t.state.handle_child_exit(a, ExitReason::Killed, at(15)),
        ExitPlan::Restart(_)
    ));
}

#[test]
fn failed_starts_end_the_supervisor() {
    let mut t = Tree::new(Strategy::OneForOne);
    let a = t.pid("a");
    t.state.handle_child_exit(a, ExitReason::Killed, at(1));
    let why = t.state.start_child(Err("no room".into())).unwrap_err();
    assert_eq!(why, ExitReason::Error("child 'a' failed to restart: no room".into()));
    assert!(t.state.next_start().is_none());

    let mut t = Tree::new(Strategy::OneForAll);
    let a = t.pid("a");
    t.state.handle_child_exit(a, ExitReason::Killed, at(1));
    let why = t.state.start_child(Err("no room".into())).unwrap_err();
    assert_eq!(why, ExitReason::Error("child 'a' failed to start: no room".into()));
}

#[test]
fn supervisor_events() {
    let mut t = Tree::new(Strategy::OneForOne);
    let a = t.pid("a");
    let down = SystemMessage::Down {
        monitor_ref: Ref::from_raw(0),
        pid: a,
        reason: ExitReason::Killed,
    };
    assert!(matches!(t.state.handle_event(SupervisorEvent::Message(down), at(1)),
        SupervisorStep::Continue(s) if s.is_empty()));
    assert_eq!(t.start_pending(), vec!["a"]);
    assert!(matches!(t.state.handle_event(SupervisorEvent::Other, at(1)),
        SupervisorStep::Continue(_)));
    let order: Vec<Pid> = ["d", "c", "b", "a"].iter().map(|id| t.pid(id)).collect();
    let exit = SystemMessage::Exit { from: a, reason: ExitReason::Shutdown };
    match t.state.handle_event(SupervisorEvent::Message(exit), at(1)) {
        SupervisorStep::Terminate(stops) => {
            assert_eq!(stops.iter().map(|s| s.pid).collect::<Vec<_>>(), order);
        }
        s => panic!("{s:?}"),
    }
    assert!(matches!(t.state.handle_event(SupervisorEvent::Closed, at(1)),
        SupervisorStep::Terminate(s) if s.is_empty()));
    let mut node = LocalNode::new();
    let dead = Pid::new(&mut node);
    let down = SystemMessage::Down {
        monitor_ref: Ref::from_raw(4),
        pid: dead,
        reason: ExitReason::Normal,
    };
    let bytes = down.encode(&node.atoms);
    assert!(matches!(SupervisorEvent::read(&mut node.atoms, &bytes),
        SupervisorEvent::Message(m) if m == down));
    assert!(matches!(SupervisorEvent::read(&mut node.atoms, &[7]), SupervisorEvent::Other));
    assert_eq!(t.state.count_children().active, 0);
    assert_eq!(t.state.terminate_child_by_id(&"a".to_string()), None);
}

struct Empty;

impl Supervisor for Empty {
    type InitArg = u32;
    type Start = u8;

    fn init(arg: u32) -> SupervisorInit<u8> {
        let flags = SupervisorFlags::default().max_restarts(arg).max_seconds(9);
        SupervisorInit::new(flags, vec![ChildSpec::new("x", 1), ChildSpec::new("x", 2)])
    }
}

#[test]
fn users_set_up_supervisors() {
    let s = supervisor::start::<Empty>(1);
    assert_eq!(s.count_children().specs, 1);
    assert_eq!(s.next_start().unwrap(), (&"x".to_string(), &2));
    let mut node = LocalNode::new();
    let pid = Pid::new(&mut node);
    assert_eq!(supervisor::start_outcome(pid, true).unwrap(), pid);
    assert_eq!(
        supervisor::start_outcome(pid, false).unwrap_err().display(),
        "supervisor init failed: supervisor died during init"
    );
    assert_eq!(
        supervisor::which_children(pid).unwrap_err(),
        "which_children not yet implemented"
    );
    assert_eq!(
        supervisor::count_children(pid).unwrap_err(),
        "count_children not yet implemented"
    );
    assert_eq!(
        supervisor::terminate_child(pid, "x").unwrap_err().display(),
        "child 'not implemented' not found"
    );
    assert_eq!(
        supervisor::delete_child(pid, "x").unwrap_err().display(),
        "child 'not implemented' not found"
    );
}

#[test]
fn child_specs_are_built() {
    let spec = ChildSpec::new("w", ());
    assert_eq!(spec.restart, RestartType::Permanent);
    assert_eq!(spec.shutdown, ShutdownType::Timeout(Duration::from_secs(5)));
    assert_eq!(spec.child_type, ChildType::Worker);
    let spec = spec.supervisor();
    assert_eq!(spec.shutdown, ShutdownType::Infinity);
    assert_eq!(spec.child_type, ChildType::Supervisor);
    let spec = spec.worker().shutdown(ShutdownType::BrutalKill).child_type(ChildType::Worker);
    assert_eq!(spec.shutdown, ShutdownType::BrutalKill);
    assert_eq!(Strategy::default(), Strategy::OneForOne);
    assert_eq!(RestartType::default(), RestartType::Permanent);
    assert_eq!(ChildType::default(), ChildType::Worker);
    assert_eq!(ChildCounts::default().specs, 0);
}

#[test]
fn supervisor_errors_as_text() {
    assert_eq!(StartError::InitFailed("x".into()).display(), "supervisor init failed: x");
    assert_eq!(StartError::SpawnFailed("x".into()).display(), "supervisor spawn failed: x");
    assert_eq!(
        StartError::ChildFailed("c".into(), "x".into()).display(),
        "child 'c' failed to start: x"
    );
    assert_eq!(TerminateError::NotFound("c".into()).display(), "child 'c' not found");
    assert_eq!(TerminateError::Timeout.display(), "termination timed out");
    assert_eq!(RestartError::NotFound("c".into()).display(), "child 'c' not found");
    assert_eq!(RestartError::AlreadyRunning("c".into()).display(), "child 'c' is already running");
    assert_eq!(RestartError::StartFailed("x".into()).display(), "child failed to start: x");
    assert_eq!(DeleteError::NotFound("c".into()).display(), "child 'c' not found");
    assert_eq!(DeleteError::Running("c".into()).display(), "child 'c' is still running");
    assert_eq!(StartChildError::Failed("x".into()).display(), "child failed to start: x");
    assert_eq!(StartChildError::Ignore.display(), "child init returned ignore");
    assert_eq!(StartChildError::AlreadyPresent.display(), "child already present");
}

struct Pool {
    node: LocalNode,
    sup: DynamicSupervisor<u8>,
}

impl Pool {
    fn new() -> Self {
        Pool {
            node: LocalNode::new(),
            sup: DynamicSupervisor::new(DynamicSupervisorOpts::new()),
        }
    }

    fn start(&mut self, spec: ChildSpec<u8>) -> (Pid, Ref) {
        self.sup.may_start_child().unwrap();
        let pid = Pid::new(&mut self.node);
        let monitor = Ref::new(&mut self.node);
        self.sup.child_started(spec, pid, monitor);
        (pid, monitor)
    }
}

fn down(pid: Pid, monitor_ref: Ref, reason: ExitReason) -> SupervisorEvent {
    SupervisorEvent::Message(SystemMessage::Down { monitor_ref, pid, reason })
}

#[test]
fn dynamic_supervisor_starts_empty() {
    let p = Pool::new();
    let counts = count_children(Some(&p.sup)).unwrap();
    assert_eq!((counts.active, counts.specs), (0, 0));
    assert_eq!(count_children::<u8>(None).unwrap_err(), "supervisor not found");
    assert_eq!(which_children::<u8>(None).unwrap_err(), "supervisor not found");
}

#[test]
fn dynamic_children_come_and_go() {
    let mut p = Pool::new();
    let (a, ma) = p.start(ChildSpec::new("worker", 1));
    let (b, _) = p.start(ChildSpec::new("worker", 2).supervisor());
    let counts = p.sup.get_child_counts();
    assert_eq!(counts, ChildCounts { specs: 2, active: 2, supervisors: 1, workers: 1 });
    let infos = which_children(Some(&p.sup)).unwrap();
    assert_eq!(infos[0].id, "child_0");
    assert_eq!(infos[1].id, "child_1");

    let stop = terminate_child(Some(&mut p.sup), a).unwrap();
    assert_eq!(stop, StopChild { pid: a, monitor_ref: Some(ma), shutdown: ShutdownType::default() });
    assert_eq!(terminate_child(Some(&mut p.sup), a).unwrap_err(), "child not found");
    assert_eq!(terminate_child::<u8>(None, a).unwrap_err(), "supervisor not found");
    assert_eq!(p.sup.get_child_counts().active, 1);

    let stops = p.sup.terminate_all_children();
    assert_eq!(stops.len(), 1);
    assert_eq!(stops[0].pid, b);
    assert_eq!(p.sup.get_child_counts().active, 0);
    assert!(matches!(p.sup.may_start_child(),
        Err(StartChildError::Failed(e)) if e == "supervisor is shutting down"));
}

#[test]
fn children_are_stopped_as_they_are_set_up() {
    let mut p = Pool::new();
    let brutal = ChildSpec::new("a", 1).shutdown(ShutdownType::BrutalKill);
    let (a, _) = p.start(brutal);
    let stop = terminate_child(Some(&mut p.sup), a).unwrap();
    assert_eq!(stop.reason(), ExitReason::Killed);
    assert_eq!(stop.grace(), at(0));
    let (b, _) = p.start(ChildSpec::new("b", 2));
    let stop = terminate_child(Some(&mut p.sup), b).unwrap();
    assert_eq!(stop.reason(), ExitReason::Shutdown);
    assert_eq!(stop.grace(), at(5));
    let (c, _) = p.start(ChildSpec::new("c", 3).supervisor());
    let stops = dynamic_supervisor::stop(Some(&mut p.sup));
    assert_eq!(stops.len(), 1);
    assert_eq!(stops[0].pid, c);
    assert_eq!(stops[0].reason(), ExitReason::Shutdown);
    assert_eq!(stops[0].grace(), at(0));
    assert!(p.sup.may_start_child().is_err());
    assert!(dynamic_supervisor::stop::<u8>(None).is_empty());
}

#[test]
fn stopped_children_end() {
    let mut node = LocalNode::new();
    let mut registry = ProcessRegistry::new();
    let sup = Context::new(Pid::new(&mut node));
    let pid = Pid::new(&mut node);
    for shutdown in [
        ShutdownType::BrutalKill,
        ShutdownType::Timeout(at(5)),
        ShutdownType::Infinity,
    ] {
        let stop = StopChild { pid, monitor_ref: None, shutdown };
        for trap in [false, true] {
            let mut child = ProcessState::new();
            child.trap_exit = trap;
            registry.register(pid, child);
            sup.exit(&mut registry, &node, pid, stop.reason()).unwrap();
            let killed = shutdown == ShutdownType::BrutalKill;
            assert_eq!(sup.is_alive(&registry, pid), !killed);
            let waits = shutdown == ShutdownType::Infinity;
            let follow_up = stop.follow_up(&registry);
            assert_eq!(follow_up, (!killed && !waits).then_some(ExitReason::Killed));
            if let Some(reason) = follow_up {
                sup.exit(&mut registry, &node, pid, reason).unwrap();
            }
            assert_eq!(sup.is_alive(&registry, pid), waits);
        }
    }
    registry.remove(pid);
    let stop = StopChild { pid, monitor_ref: None, shutdown: ShutdownType::Timeout(at(5)) };
    assert_eq!(stop.follow_up(&registry), None);
}

#[test]
fn five_dynamic_children() {
    let mut p = Pool::new();
    for i in 0..5 {
        p.start(ChildSpec::new(&format!("worker_{i}"), i));
    }
    assert_eq!(p.sup.get_child_counts().active, 5);
}

#[test]
fn dynamic_children_are_restarted() {
    let mut p = Pool::new();
    let (a, m) = p.start(ChildSpec::new("w", 7));
    assert!(matches!(
        p.sup.handle_event(down(a, Ref::from_raw(99), ExitReason::Killed), at(1)),
        DynamicStep::Continue
    ));
    match p.sup.handle_event(down(a, m, ExitReason::Killed), at(1)) {
        DynamicStep::Restart(spec) => assert_eq!((spec.id.as_str(), spec.start), ("w", 7)),
        _ => panic!("a restart expected"),
    }
    assert_eq!(p.sup.get_child_counts().active, 0);

    let (b, m) = p.start(ChildSpec::new("t", 1).restart(RestartType::Temporary));
    assert!(matches!(
        p.sup.handle_event(down(b, m, ExitReason::Killed), at(1)),
        DynamicStep::Continue
    ));
    let (c, _) = p.start(ChildSpec::new("c", 1));
    for _ in 0..2 {
        let (b, m) = p.start(ChildSpec::new("t", 1));
        assert!(matches!(
            p.sup.handle_event(down(b, m, ExitReason::Killed), at(1)),
            DynamicStep::Restart(_)
        ));
    }
    let (b, m) = p.start(ChildSpec::new("t", 1));
    match p.sup.handle_event(down(b, m, ExitReason::Killed), at(1)) {
        DynamicStep::Terminate(stops) => {
            assert_eq!(stops.iter().map(|s| s.pid).collect::<Vec<_>>(), vec![c]);
        }
        _ => panic!("an end expected"),
    }
}

#[test]
fn dynamic_restart_outcomes() {
    let mut node = LocalNode::new();
    let pid = Pid::new(&mut node);
    assert!(restart_outcome(Ok(pid)).is_ok());
    assert!(restart_outcome(Err(StartChildError::Ignore)).is_ok());
    assert_eq!(
        restart_outcome(Err(StartChildError::Failed("x".into()))).unwrap_err(),
        ExitReason::Error("child failed to restart: child failed to start: x".into())
    );
    let opts = DynamicSupervisorOpts::default().max_restarts(0).max_seconds(1);
    let mut sup: DynamicSupervisor<u8> = DynamicSupervisor::new(opts);
    sup.child_started(ChildSpec::new("w", 1), pid, Ref::from_raw(1));
    assert!(matches!(
        sup.handle_event(down(pid, Ref::from_raw(1), ExitReason::Killed), at(1)),
        DynamicStep::Terminate(_)
    ));
    assert!(matches!(sup.handle_event(SupervisorEvent::Other, at(1)), DynamicStep::Continue));
    assert!(matches!(sup.handle_event(SupervisorEvent::Closed, at(1)), DynamicStep::Terminate(_)));
}
