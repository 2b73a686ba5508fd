use starlang::atom::Atom;
use starlang::base::exit_reason::ExitReason;
use starlang::base::node::{
    init_node, is_distributed, node_creation, node_name, node_name_atom, LocalNode,
    NodeAddr, NodeId, NodeInfo, NodeName,
};
use starlang::base::pid::{current_creation, increment_creation, Pid};
use starlang::base::reference::Ref;
use starlang::wire::primitive::{decode, encode};
use std::collections::{HashMap, HashSet};

#[test]
fn test_is_normal() {
    assert!(ExitReason::Normal.is_normal());
    assert!(ExitReason::Shutdown.is_normal());
    assert!(ExitReason::ShutdownReason("test".into()).is_normal());
    assert!(!ExitReason::Killed.is_normal());
    assert!(!ExitReason::Error("test".into()).is_normal());
}

#[test]
fn test_is_abnormal() {
    assert!(!ExitReason::Normal.is_abnormal());
    assert!(ExitReason::Killed.is_abnormal());
    assert!(ExitReason::Error("test".into()).is_abnormal());
}

#[test]
fn test_is_killed() {
    assert!(ExitReason::Killed.is_killed());
    assert!(!ExitReason::Normal.is_killed());
    assert!(!ExitReason::Error("test".into()).is_killed());
}

#[test]
fn test_display() {
    assert_eq!(ExitReason::Normal.display(), "normal");
    assert_eq!(ExitReason::Shutdown.display(), "shutdown");
    assert_eq!(ExitReason::ShutdownReason("timeout".into()).display(), "shutdown: timeout");
    assert_eq!(ExitReason::Killed.display(), "killed");
    assert_eq!(ExitReason::Error("oops".into()).display(), "error: oops");
}

#[test]
fn test_from_str() {
    let reason: ExitReason = "something failed".into();
    assert_eq!(reason, ExitReason::Error("something failed".to_string()));
    let reason: ExitReason = "owned".to_string().into();
    assert_eq!(reason, ExitReason::Error("owned".to_string()));
}

#[test]
fn test_serialization() {
    let reasons = vec![
        ExitReason::Normal,
        ExitReason::Shutdown,
        ExitReason::ShutdownReason("test".into()),
        ExitReason::Killed,
        ExitReason::Error("error".into()),
    ];
    for reason in reasons {
        let bytes = encode(&reason);
        let decoded: ExitReason = decode(&bytes).unwrap();
        assert_eq!(reason, decoded);
    }
    assert_eq!(
        encode(&ExitReason::Error("error".into())),
        postcard::to_allocvec(&(4u32, "error")).unwrap()
    );
    assert_eq!(encode(&ExitReason::Killed), vec![3]);
    assert!(decode::<ExitReason>(&[5]).is_none());
}

#[test]
fn test_helper_constructors() {
    let err = ExitReason::error("failed");
    assert_eq!(err, ExitReason::Error("failed".to_string()));

    let shut = ExitReason::shutdown("maintenance");
    assert_eq!(shut, ExitReason::ShutdownReason("maintenance".to_string()));
    assert_eq!(ExitReason::default(), ExitReason::Normal);
}

#[test]
fn test_node_id_local() {
    let local = NodeId::local();
    assert!(local.is_local());
    assert_eq!(local.as_u32(), 0);
}

#[test]
fn test_node_id_remote() {
    let remote = NodeId::new(5);
    assert!(!remote.is_local());
    assert_eq!(remote.as_u32(), 5);
}

#[test]
fn node_id_as_text() {
    assert_eq!(NodeId::from(7).display(), "7");
    assert_eq!(NodeId::new(120).debug(), "NodeId(120)");
    assert_eq!(u32::from(NodeId::new(9)), 9);
}

#[test]
fn test_node_name_parsing() {
    let name = NodeName::new("mynode@example.com");
    assert_eq!(name.short_name(), "mynode");
    assert_eq!(name.host(), "example.com");
}

#[test]
fn test_node_name_no_at() {
    let name = NodeName::new("standalone");
    assert_eq!(name.short_name(), "standalone");
    assert_eq!(name.host(), "");
}

#[test]
fn node_name_with_two_ats() {
    let name = NodeName::from("a@b@c");
    assert_eq!(name.short_name(), "a");
    assert_eq!(name.host(), "b");
    assert_eq!(name.as_str(), "a@b@c");
    assert_eq!(name.display(), "a@b@c");
    assert_eq!(name.debug(), "NodeName(\"a@b@c\")");
    assert_eq!(NodeName::from("@x".to_string()).short_name(), "");
    assert_eq!(name.clone(), name);
}

#[test]
fn test_node_id_serialization() {
    let id = NodeId::new(42);
    let bytes = encode(&id);
    assert_eq!(bytes, postcard::to_allocvec(&42u32).unwrap());
    let decoded: NodeId = decode(&bytes).unwrap();
    assert_eq!(id, decoded);
}

#[test]
fn node_info_holds_its_parts() {
    let addr = NodeAddr::V4 { ip: [1, 2, 3, 4], port: 5 };
    let info = NodeInfo::new(NodeName::new("n@h"), NodeId::new(3), Some(addr), 7);
    assert_eq!(info.name.as_str(), "n@h");
    assert_eq!(info.id, NodeId::new(3));
    assert_eq!(info.addr, Some(addr));
    assert_eq!(info.creation, 7);
}

#[test]
fn identity_is_set_once() {
    let mut node = LocalNode::new();
    assert!(!is_distributed(&node));
    assert!(node_name(&node).is_none());
    assert_eq!(node_creation(&node), 0);
    assert_eq!(node_name_atom(&node).as_str(&node.atoms), "");

    assert!(init_node(&mut node, NodeName::new("one@host"), 4).is_ok());
    assert!(is_distributed(&node));
    assert_eq!(node_name(&node).unwrap().as_str(), "one@host");
    assert_eq!(node_creation(&node), 4);
    assert_eq!(node_name_atom(&node).as_str(&node.atoms), "one@host");

    let refused = init_node(&mut node, NodeName::new("two@host"), 9).unwrap_err();
    assert_eq!(refused.name.as_str(), "two@host");
    assert_eq!(refused.creation, 9);
    assert_eq!(node_name(&node).unwrap().as_str(), "one@host");
}

#[test]
fn test_pid_uniqueness() {
    let mut node = LocalNode::new();
    let pid1 = Pid::new(&mut node);
    let pid2 = Pid::new(&mut node);
    assert_ne!(pid1, pid2);
}

#[test]
fn test_pid_local() {
    let mut node = LocalNode::new();
    let pid = Pid::new(&mut node);
    assert!(pid.is_local(&node));
}

#[test]
fn test_pid_remote() {
    let mut node = LocalNode::new();
    let pid = Pid::remote(&mut node.atoms, "node2@localhost", 100, 2);
    assert_eq!(pid.node_name(&node.atoms), "node2@localhost");
    assert_eq!(pid.id(), 100);
    assert_eq!(pid.creation(), 2);
    assert!(!pid.is_local(&node));
}

#[test]
fn test_pid_from_parts_atom() {
    let mut node = LocalNode::new();
    let atom = Atom::new(&mut node.atoms, "test@host");
    let pid = Pid::from_parts_atom(atom, 42, 1);
    assert_eq!(pid.node(), atom);
    assert_eq!(pid.id(), 42);
    assert_eq!(pid.creation(), 1);
}

#[test]
fn test_pid_display_local() {
    let mut node = LocalNode::new();
    let pid = Pid::new(&mut node);
    let display = pid.display(&node);
    assert!(display.starts_with("<0."), "expected local display format, got: {}", display);
    let parts: Vec<&str> =
        display.trim_matches(|c| c == '<' || c == '>').split('.').collect();
    assert_eq!(parts.len(), 3, "expected 3 parts in PID display");
    assert_eq!(parts[0], "0", "expected node 0 for local PID");
    assert_eq!(display, "<0.0.0>");
}

#[test]
fn test_pid_display_remote() {
    let mut node = LocalNode::new();
    let pid = Pid::remote(&mut node.atoms, "node2@host", 42, 0);
    assert_eq!(pid.display(&node), "<node2@host.42.0>");
    assert_eq!(pid.debug(&node), "Pid<node2@host.42.0>");
}

#[test]
fn test_pid_serialization() {
    let mut node = LocalNode::new();
    let pid = Pid::remote(&mut node.atoms, "node1@localhost", 123, 5);
    let bytes = pid.encode(&node.atoms);
    assert_eq!(bytes, postcard::to_allocvec(&("node1@localhost", 123u64, 5u32)).unwrap());
    let decoded = Pid::decode(&mut node.atoms, &bytes).unwrap();
    assert_eq!(pid, decoded);
    assert_eq!(decoded.node_name(&node.atoms), "node1@localhost");
}

#[test]
fn pid_read_on_another_node() {
    let mut here = LocalNode::new();
    let mut there = LocalNode::new();
    let pid = Pid::remote(&mut here.atoms, "far@host", u64::MAX, u32::MAX);
    let read = Pid::decode(&mut there.atoms, &pid.encode(&here.atoms)).unwrap();
    assert_eq!(read.node_name(&there.atoms), "far@host");
    assert_eq!((read.id(), read.creation()), (u64::MAX, u32::MAX));
    assert_eq!(Pid::decode(&mut there.atoms, &[1, b'a', 7]), None);
}

#[test]
fn test_pid_hash() {
    let mut node = LocalNode::new();
    let mut set = HashSet::new();
    let pid1 = Pid::new(&mut node);
    let pid2 = Pid::new(&mut node);

    set.insert(pid1);
    set.insert(pid2);
    set.insert(pid1);

    assert_eq!(set.len(), 2);
}

#[test]
fn test_creation_distinguishes_pids() {
    let mut node = LocalNode::new();
    let atom = Atom::new(&mut node.atoms, "test@host");
    let pid1 = Pid::from_parts_atom(atom, 42, 0);
    let pid2 = Pid::from_parts_atom(atom, 42, 1);
    assert_ne!(pid1, pid2);
}

#[test]
fn test_increment_creation() {
    let mut node = LocalNode::new();
    let before = current_creation(&node);
    let new_creation = increment_creation(&mut node);
    assert_eq!(new_creation, before + 1);
    assert_eq!(current_creation(&node), new_creation);
    assert_eq!(Pid::new(&mut node).creation(), 1);
}

#[test]
fn pid_counter_wraps() {
    let mut node = LocalNode::new();
    node.next_pid = u64::MAX;
    assert_eq!(Pid::new(&mut node).id(), u64::MAX);
    assert_eq!(Pid::new(&mut node).id(), 0);
}

#[test]
fn test_ref_uniqueness() {
    let mut node = LocalNode::new();
    let r1 = Ref::new(&mut node);
    let r2 = Ref::new(&mut node);
    assert_ne!(r1, r2);
}

#[test]
fn test_ref_from_raw() {
    let r = Ref::from_raw(42);
    assert_eq!(r.as_raw(), 42);
}

#[test]
fn test_ref_display() {
    let r = Ref::from_raw(123);
    assert_eq!(r.display(), "#123");
    assert_eq!(r.debug(), "Ref(123)");
}

#[test]
fn test_ref_serialization() {
    let r = Ref::from_raw(999);
    let bytes = encode(&r);
    assert_eq!(bytes, postcard::to_allocvec(&999u64).unwrap());
    let decoded: Ref = decode(&bytes).unwrap();
    assert_eq!(r, decoded);
}

#[test]
fn test_ref_hash() {
    let mut node = LocalNode::new();
    let mut map = HashMap::new();
    let r1 = Ref::new(&mut node);
    let r2 = Ref::new(&mut node);

    map.insert(r1, "first");
    map.insert(r2, "second");

    assert_eq!(map.get(&r1), Some(&"first"));
    assert_eq!(map.get(&r2), Some(&"second"));
}

#[test]
fn test_prelude_imports() {
    let _pid: Option<Pid> = None;
    let _ref: Option<Ref> = None;
    let _reason = ExitReason::Normal;
}
