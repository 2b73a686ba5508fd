use starlang::base::exit_reason::ExitReason;
use starlang::base::message::SystemMessage;
use starlang::base::node::LocalNode;
use starlang::base::pid::Pid;
use starlang::runtime::context::Context;
use starlang::runtime::exit::process_exited;
use starlang::runtime::process::{ProcessRegistry, ProcessState};
use starlang::registry::{Registry, RegistryError};

fn two() -> (Pid, Pid) {
    let mut node = LocalNode::new();
    (Pid::new(&mut node), Pid::new(&mut node))
}

#[test]
fn test_unique_registry() {
    let mut registry: Registry<String, i32> = Registry::new_unique("test");
    let (pid1, pid2) = two();

    assert!(registry.register("key1".to_string(), pid1, 100).is_ok());
    assert_eq!(
        registry.register("key1".to_string(), pid2, 200),
        Err(RegistryError::AlreadyRegistered)
    );
    let result = registry.lookup_one(&"key1".to_string());
    assert_eq!(result, Some((pid1, 100)));
}

#[test]
fn test_duplicate_registry() {
    let mut registry: Registry<String, &str> = Registry::new_duplicate("test");
    let (pid1, pid2) = two();

    assert!(registry.register("topic".to_string(), pid1, "alice").is_ok());
    assert!(registry.register("topic".to_string(), pid2, "bob").is_ok());

    let entries = registry.lookup(&"topic".to_string());
    assert_eq!(entries.len(), 2);
    assert!(entries.contains(&(pid1, "alice")));
    assert!(entries.contains(&(pid2, "bob")));
}

#[test]
fn test_unregister() {
    let mut registry: Registry<String, ()> = Registry::new_duplicate("test");
    let (pid1, pid2) = two();

    registry.register("topic".to_string(), pid1, ()).unwrap();
    registry.register("topic".to_string(), pid2, ()).unwrap();

    registry.unregister(&"topic".to_string(), pid1);

    let entries = registry.lookup(&"topic".to_string());
    assert_eq!(entries.len(), 1);
    assert_eq!(entries[0].0, pid2);
}

#[test]
fn test_unregister_all() {
    let mut registry: Registry<String, ()> = Registry::new_duplicate("test");
    let (pid1, _) = two();

    registry.register("topic1".to_string(), pid1, ()).unwrap();
    registry.register("topic2".to_string(), pid1, ()).unwrap();

    registry.unregister_all(pid1);

    assert_eq!(registry.count(&"topic1".to_string()), 0);
    assert_eq!(registry.count(&"topic2".to_string()), 0);
}

#[test]
fn test_dispatch() {
    let mut registry: Registry<String, i32> = Registry::new_duplicate("test");
    let (pid1, pid2) = two();

    registry.register("topic".to_string(), pid1, 1).unwrap();
    registry.register("topic".to_string(), pid2, 2).unwrap();

    let mut collected = Vec::new();
    registry.dispatch(&"topic".to_string(), |entries| {
        for (pid, value) in entries {
            collected.push((*pid, *value));
        }
    });

    assert_eq!(collected.len(), 2);
    assert_eq!(collected, vec![(pid1, 1), (pid2, 2)]);
    assert_eq!(registry.dispatch(&"none".to_string(), |_| 1), None);
    let others = registry.dispatch_filter(&"topic".to_string(), |entries| {
        entries.iter().map(|e| e.0).filter(|p| *p != pid1).collect()
    });
    assert_eq!(others, Some(vec![pid2]));
}

#[test]
fn test_keys() {
    let mut registry: Registry<String, ()> = Registry::new_duplicate("test");
    let (pid, _) = two();

    registry.register("topic1".to_string(), pid, ()).unwrap();
    registry.register("topic2".to_string(), pid, ()).unwrap();

    let keys = registry.keys(pid);
    assert_eq!(keys.len(), 2);
    assert!(keys.contains(&"topic1".to_string()));
    assert!(keys.contains(&"topic2".to_string()));
}

#[test]
fn counts_and_keys() {
    let mut registry: Registry<u64, i32> = Registry::new_duplicate("test");
    let (a, b) = two();
    registry.register(1, a, 1).unwrap();
    registry.register(1, b, 2).unwrap();
    registry.register(2, a, 3).unwrap();
    assert_eq!(registry.count(&1), 2);
    assert_eq!(registry.count_all(), 3);
    assert!(registry.has_key(&2));
    let mut keys = registry.all_keys();
    keys.sort();
    assert_eq!(keys, vec![1, 2]);
    registry.unregister(&2, a);
    assert!(!registry.has_key(&2));
    assert_eq!(registry.keys(a), vec![1]);
    registry.unregister(&1, a);
    assert!(registry.keys(a).is_empty());
    assert_eq!(registry.update_value(&1, b, 9), None);
}

#[test]
fn values_change_in_unique_registries() {
    let mut registry: Registry<String, i32> = Registry::new_unique("test");
    let (a, b) = two();
    let key = "k".to_string();
    registry.register(key.clone(), a, 1).unwrap();
    assert_eq!(registry.update_value(&key, a, 5), Some(1));
    assert_eq!(registry.lookup_one(&key), Some((a, 5)));
    assert_eq!(registry.update_value(&key, b, 6), None);
    assert_eq!(registry.update_value(&"none".to_string(), a, 6), None);
    registry.unregister(&key, b);
    assert!(registry.has_key(&key));
    registry.unregister(&key, a);
    assert!(registry.register(key, b, 2).is_ok());
}

#[test]
fn byte_keys_resolve_names() {
    let mut registry: Registry<Vec<u8>, u64> = Registry::new_unique("names");
    let (a, b) = two();
    assert!(registry.register_term(vec![1, 2], a));
    assert!(!registry.register_term(vec![1, 2], b));
    assert_eq!(registry.whereis_term(&vec![1, 2]), Some(a));
    assert_eq!(registry.whereis_term(&vec![1]), None);
    registry.unregister_term(&vec![1, 2]);
    assert_eq!(registry.whereis_term(&vec![1, 2]), None);
    assert!(registry.keys(a).is_empty());
}

#[test]
fn many_keys_come_and_go() {
    let mut registry: Registry<String, u64> = Registry::new_unique("many");
    let (a, _) = two();
    for i in 0..300u64 {
        registry.register(format!("key{i}"), a, i).unwrap();
    }
    for i in (0..300u64).step_by(2) {
        registry.unregister(&format!("key{i}"), a);
    }
    for i in 0..300u64 {
        let found = registry.lookup_one(&format!("key{i}"));
        assert_eq!(found, if i % 2 == 0 { None } else { Some((a, i)) });
    }
    assert_eq!(registry.count_all(), 150);
    registry.unregister_all(a);
    assert_eq!(registry.count_all(), 0);
}

#[test]
fn registry_errors_as_text() {
    assert_eq!(RegistryError::AlreadyRegistered.display(), "key already registered");
    assert_eq!(RegistryError::NotFound.display(), "key not found");
}

#[test]
fn registrations_end_with_their_process() {
    let mut node = LocalNode::new();
    let mut processes = ProcessRegistry::new();
    let owner = Context::new(Pid::new(&mut node));
    let pid = Pid::new(&mut node);
    let other = Pid::new(&mut node);
    for p in [owner.pid(), pid, other] {
        processes.register(p, ProcessState::new());
    }
    let mut registry: Registry<String, i32> = Registry::new_duplicate("test");
    registry.register("a".to_string(), pid, 1).unwrap();
    registry.register("b".to_string(), pid, 2).unwrap();
    assert_eq!(registry.to_monitor(), vec![pid]);
    assert!(registry.monitor(pid, &owner, &mut processes, &mut node).is_some());
    assert!(registry.monitor(pid, &owner, &mut processes, &mut node).is_none());
    registry.register("a".to_string(), other, 3).unwrap();
    assert_eq!(registry.to_monitor(), vec![other]);

    process_exited(&mut processes, &node, pid, ExitReason::Normal);
    let data = owner.try_recv(&mut processes).unwrap();
    assert!(owner.try_recv(&mut processes).is_none());
    registry.handle_info(&mut node.atoms, &data);

    assert_eq!(registry.lookup(&"a".to_string()), vec![(other, 3)]);
    assert!(!registry.has_key(&"b".to_string()));
    assert!(registry.keys(pid).is_empty());
    assert_eq!(registry.count_all(), 1);

    registry.process_down(&SystemMessage::Exit { from: other, reason: ExitReason::Normal });
    registry.handle_info(&mut node.atoms, &[9]);
    assert_eq!(registry.count_all(), 1);
}

#[test]
fn registrations_of_missing_processes_end_at_once() {
    let mut node = LocalNode::new();
    let mut processes = ProcessRegistry::new();
    let owner = Context::new(Pid::new(&mut node));
    processes.register(owner.pid(), ProcessState::new());
    let gone = Pid::new(&mut node);
    let mut registry: Registry<String, i32> = Registry::new_unique("test");
    registry.register("c".to_string(), gone, 4).unwrap();
    assert!(registry.monitor(gone, &owner, &mut processes, &mut node).is_some());
    let data = owner.try_recv(&mut processes).unwrap();
    registry.handle_info(&mut node.atoms, &data);
    assert!(!registry.has_key(&"c".to_string()));
    assert!(registry.to_monitor().is_empty());
}
