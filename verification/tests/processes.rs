use starlang::base::exit_reason::ExitReason;
use starlang::base::message::SystemMessage;
use starlang::base::node::LocalNode;
use starlang::base::pid::Pid;
use starlang::base::reference::Ref;
use starlang::runtime::context::Context;
use starlang::runtime::error::{RuntimeError, SendError, SpawnError};
use starlang::runtime::exit::process_exited;
use starlang::runtime::process::{ProcessRegistry, ProcessState};
use starlang::runtime::scope::{self, ProcessScope};

fn process(node: &mut LocalNode, registry: &mut ProcessRegistry) -> Context {
    let pid = Pid::new(node);
    registry.register(pid, ProcessState::new());
    Context::new(pid)
}

fn world() -> (LocalNode, ProcessRegistry) {
    (LocalNode::new(), ProcessRegistry::new())
}

#[test]
fn test_context_pid() {
    let (mut node, mut registry) = world();
    let ctx = process(&mut node, &mut registry);
    assert!(ctx.pid().is_local(&node));
}

#[test]
fn test_trap_exit() {
    let (mut node, mut registry) = world();
    let ctx = process(&mut node, &mut registry);

    assert!(!ctx.is_trapping_exits(&registry));

    let prev = ctx.set_trap_exit(&mut registry, true);
    assert!(!prev);
    assert!(ctx.is_trapping_exits(&registry));
}

#[test]
fn messages_come_in_order() {
    let (mut node, mut registry) = world();
    let a = process(&mut node, &mut registry);
    let b = process(&mut node, &mut registry);
    a.send_raw(&mut registry, b.pid(), vec![1, 2, 3]).unwrap();
    a.send(&mut registry, b.pid(), &"hi".to_string()).unwrap();
    assert_eq!(b.try_recv(&mut registry), Some(vec![1, 2, 3]));
    assert_eq!(b.try_recv(&mut registry), Some(vec![2, b'h', b'i']));
    assert_eq!(b.try_recv(&mut registry), None);
    let ghost = Pid::new(&mut node);
    assert_eq!(
        a.send_raw(&mut registry, ghost, vec![]),
        Err(SendError::ProcessNotFound(ghost))
    );
    let mut closed = ProcessState::new();
    closed.open = false;
    registry.register(ghost, closed);
    assert_eq!(a.send_raw(&mut registry, ghost, vec![]), Err(SendError::ProcessTerminated));
}

#[test]
fn test_link() {
    let (mut node, mut registry) = world();
    let ctx1 = process(&mut node, &mut registry);
    let ctx2 = process(&mut node, &mut registry);

    ctx1.link(&mut registry, ctx2.pid()).unwrap();

    assert!(registry.get(ctx1.pid()).unwrap().links.contains(&ctx2.pid()));
    assert!(registry.get(ctx2.pid()).unwrap().links.contains(&ctx1.pid()));
}

#[test]
fn link_with_nobody_fails() {
    let (mut node, mut registry) = world();
    let ctx = process(&mut node, &mut registry);
    let ghost = Pid::new(&mut node);
    assert_eq!(ctx.link(&mut registry, ghost), Err(SendError::ProcessNotFound(ghost)));
    assert!(registry.get(ctx.pid()).unwrap().links.is_empty());
    ctx.link(&mut registry, ctx.pid()).unwrap();
    assert!(registry.get(ctx.pid()).unwrap().links.contains(&ctx.pid()));
}

#[test]
fn test_unlink() {
    let (mut node, mut registry) = world();
    let ctx1 = process(&mut node, &mut registry);
    let ctx2 = process(&mut node, &mut registry);

    ctx1.link(&mut registry, ctx2.pid()).unwrap();
    ctx1.unlink(&mut registry, ctx2.pid());

    assert!(!registry.get(ctx1.pid()).unwrap().links.contains(&ctx2.pid()));
    assert!(!registry.get(ctx2.pid()).unwrap().links.contains(&ctx1.pid()));
}

#[test]
fn test_monitor() {
    let (mut node, mut registry) = world();
    let ctx1 = process(&mut node, &mut registry);
    let ctx2 = process(&mut node, &mut registry);

    let reference = ctx1.monitor(&mut registry, &mut node, ctx2.pid()).unwrap();

    let state1 = registry.get(ctx1.pid()).unwrap();
    assert_eq!(state1.monitors.get(&reference), Some(&ctx2.pid()));
    let state2 = registry.get(ctx2.pid()).unwrap();
    assert_eq!(state2.monitored_by.get(&reference), Some(&ctx1.pid()));
}

#[test]
fn monitor_of_nobody_is_down_at_once() {
    let (mut node, mut registry) = world();
    let ctx = process(&mut node, &mut registry);
    let ghost = Pid::new(&mut node);
    let reference = ctx.monitor(&mut registry, &mut node, ghost).unwrap();
    assert!(registry.get(ctx.pid()).unwrap().monitors.is_empty());
    let data = ctx.try_recv(&mut registry).unwrap();
    let msg = SystemMessage::decode(&mut node.atoms, &data).unwrap();
    assert_eq!(
        msg,
        SystemMessage::Down {
            monitor_ref: reference,
            pid: ghost,
            reason: ExitReason::Error("noproc".into()),
        }
    );
}

#[test]
fn test_demonitor() {
    let (mut node, mut registry) = world();
    let ctx1 = process(&mut node, &mut registry);
    let ctx2 = process(&mut node, &mut registry);

    let reference = ctx1.monitor(&mut registry, &mut node, ctx2.pid()).unwrap();
    ctx1.demonitor(&mut registry, reference);

    assert!(!registry.get(ctx1.pid()).unwrap().monitors.contains_key(&reference));
    assert!(!registry.get(ctx2.pid()).unwrap().monitored_by.contains_key(&reference));
    ctx1.demonitor(&mut registry, Ref::from_raw(77));
}

#[test]
fn exit_signals() {
    let (mut node, mut registry) = world();
    let a = process(&mut node, &mut registry);
    let b = process(&mut node, &mut registry);

    a.exit(&mut registry, &node, b.pid(), ExitReason::Shutdown).unwrap();
    assert!(a.is_alive(&registry, b.pid()));

    b.set_trap_exit(&mut registry, true);
    a.exit(&mut registry, &node, b.pid(), ExitReason::error("boom")).unwrap();
    assert!(a.is_alive(&registry, b.pid()));
    let data = b.try_recv(&mut registry).unwrap();
    assert_eq!(
        SystemMessage::decode(&mut node.atoms, &data),
        Some(SystemMessage::Exit { from: a.pid(), reason: ExitReason::error("boom") })
    );

    a.exit(&mut registry, &node, b.pid(), ExitReason::Killed).unwrap();
    assert!(!a.is_alive(&registry, b.pid()));
    assert!(b.try_recv(&mut registry).is_none());

    let c = process(&mut node, &mut registry);
    a.exit(&mut registry, &node, c.pid(), ExitReason::error("x")).unwrap();
    assert_eq!(registry.get(c.pid()).unwrap().terminated, Some(ExitReason::error("x")));

    let ghost = Pid::new(&mut node);
    assert_eq!(
        a.exit(&mut registry, &node, ghost, ExitReason::Killed),
        Err(SendError::ProcessNotFound(ghost))
    );
    assert!(!a.is_alive(&registry, ghost));
}

#[test]
fn test_register_name() {
    let (mut node, mut registry) = world();
    let ctx = process(&mut node, &mut registry);

    assert!(ctx.register(&mut registry, "test_proc".to_string()));
    assert_eq!(ctx.whereis(&registry, "test_proc"), Some(ctx.pid()));

    assert!(!ctx.register(&mut registry, "test_proc".to_string()));
    assert_eq!(ctx.unregister(&mut registry, "test_proc"), Some(ctx.pid()));
    assert_eq!(ctx.unregister(&mut registry, "test_proc"), None);
    assert_eq!(ctx.whereis(&registry, "test_proc"), None);
}

#[test]
fn scope_of_a_process() {
    let (mut node, mut registry) = world();
    let a = process(&mut node, &mut registry);
    let b = process(&mut node, &mut registry);
    let free = ProcessScope::new(a);
    let busy = ProcessScope { ctx: a, locked: true };
    assert_eq!(scope::current_pid(&busy), a.pid());
    assert_eq!(scope::try_current_pid(None), None);
    assert_eq!(scope::try_current_pid(Some(&free)), Some(a.pid()));
    assert!(scope::send_raw(&free, &mut registry, b.pid(), vec![1]).is_ok());
    assert!(scope::send(&free, &mut registry, a.pid(), &7u64).is_ok());
    assert_eq!(
        scope::send_raw(&busy, &mut registry, b.pid(), vec![2]),
        Err(SendError::ProcessNotFound(b.pid()))
    );
    assert_eq!(
        scope::send(&busy, &mut registry, b.pid(), &7u64),
        Err(SendError::ProcessNotFound(b.pid()))
    );
    assert_eq!(scope::try_recv(&busy, &mut registry), None);
    assert_eq!(scope::try_recv(&free, &mut registry), Some(vec![7]));
    assert_eq!(b.try_recv(&mut registry), Some(vec![1]));
    assert_eq!(b.try_recv(&mut registry), None);
    let mut own = free;
    assert_eq!(scope::with_ctx(&mut own, |ctx| ctx.pid()), a.pid());
    scope::exit(&busy, &mut registry, &node, b.pid(), ExitReason::Killed);
    assert!(a.is_alive(&registry, b.pid()));
    scope::exit(&free, &mut registry, &node, b.pid(), ExitReason::Killed);
    assert!(!a.is_alive(&registry, b.pid()));
}

#[test]
fn runtime_errors_as_text() {
    let mut node = LocalNode::new();
    let pid = Pid::new(&mut node);
    let e = RuntimeError::from(SendError::ProcessNotFound(pid));
    assert_eq!(e.display(&node), "send failed: process not found: <0.0.0>");
    assert_eq!(RuntimeError::ProcessNotFound(pid).display(&node), "process not found: <0.0.0>");
    assert_eq!(SendError::MailboxFull.display(&node), "mailbox full");
    assert_eq!(SendError::ProcessTerminated.display(&node), "process terminated");
    let e = RuntimeError::from(SpawnError::InitFailed("x".into()));
    assert_eq!(e.display(&node), "spawn failed: process initialization failed: x");
    assert_eq!(
        SpawnError::TaskCreationFailed("y".into()).display(),
        "failed to create process task: y"
    );
}

#[test]
fn end_of_a_process_reaches_the_others() {
    let (mut node, mut registry) = world();
    let dying = process(&mut node, &mut registry);
    let plain = process(&mut node, &mut registry);
    let trapping = process(&mut node, &mut registry);
    let watcher = process(&mut node, &mut registry);
    trapping.set_trap_exit(&mut registry, true);
    plain.link(&mut registry, dying.pid()).unwrap();
    trapping.link(&mut registry, dying.pid()).unwrap();
    let reference = watcher.monitor(&mut registry, &mut node, dying.pid()).unwrap();

    process_exited(&mut registry, &node, dying.pid(), ExitReason::error("x"));
    assert!(registry.get(dying.pid()).is_none());
    assert!(!watcher.is_alive(&registry, plain.pid()));
    assert!(watcher.is_alive(&registry, trapping.pid()));
    let data = trapping.try_recv(&mut registry).unwrap();
    assert_eq!(
        SystemMessage::decode(&mut node.atoms, &data),
        Some(SystemMessage::Exit { from: dying.pid(), reason: ExitReason::error("x") })
    );
    let data = watcher.try_recv(&mut registry).unwrap();
    assert_eq!(
        SystemMessage::decode(&mut node.atoms, &data),
        Some(SystemMessage::Down {
            monitor_ref: reference,
            pid: dying.pid(),
            reason: ExitReason::error("x"),
        })
    );
    assert!(registry.get(watcher.pid()).unwrap().monitors.is_empty());
    assert!(registry.get(trapping.pid()).unwrap().links.is_empty());
    process_exited(&mut registry, &node, dying.pid(), ExitReason::Killed);
}

#[test]
fn normal_end_leaves_linked_processes_alone() {
    let (mut node, mut registry) = world();
    let a = process(&mut node, &mut registry);
    let b = process(&mut node, &mut registry);
    a.link(&mut registry, b.pid()).unwrap();
    process_exited(&mut registry, &node, a.pid(), ExitReason::Normal);
    assert!(b.is_alive(&registry, b.pid()));
    assert!(b.try_recv(&mut registry).is_none());
}
