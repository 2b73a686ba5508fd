use starlang::atom::Atom;
use starlang::base::node::{init_node, LocalNode, NodeName};
use starlang::base::pid::Pid;
use starlang::data::Data;
use starlang::presence::server::{
    broadcast_delta, forward_targets, Presence, PresenceCall, PresenceCast, PresenceConfig,
    PresenceReply, PresenceServerState,
};
use starlang::presence::tracker::{recipients, PresenceAction, PresenceTracker};
use starlang::presence::types::{
    Moment, PresenceDiff, PresenceMessage, PresenceMeta, PresenceRef, PresenceState,
};
use starlang::table::Table;

const NOW: Moment = Moment { micros: 1_000_000, secs: 1 };

fn status(s: &str) -> Vec<u8> {
    postcard::to_allocvec(s).unwrap()
}

fn decoded(meta: &PresenceMeta) -> String {
    postcard::from_bytes(&meta.meta).unwrap()
}

struct World {
    node: LocalNode,
    tracker: PresenceTracker,
    counter: u64,
}

impl World {
    fn new() -> Self {
        World { node: LocalNode::new(), tracker: PresenceTracker::new(), counter: 0 }
    }

    fn track(&mut self, topic: &str, key: &str, pid: Pid, s: &str) -> Vec<PresenceAction> {
        self.tracker.track(&self.node, NOW, &mut self.counter, topic, key, pid, status(s)).1
    }
}

#[test]
fn test_track_and_list() {
    let mut w = World::new();
    let pid = Pid::new(&mut w.node);
    w.track("room:test", "user:1", pid, "online");

    let presences = w.tracker.list("room:test");
    assert_eq!(presences.len(), 1);
    assert!(presences.contains_key(&"user:1".to_string()));

    let state = presences.get(&"user:1".to_string()).unwrap();
    assert_eq!(state.metas.len(), 1);
    assert_eq!(decoded(&state.metas[0]), "online");
    assert_eq!(state.metas[0].updated_at, 1);
}

#[test]
fn test_untrack() {
    let mut w = World::new();
    let pid = Pid::new(&mut w.node);
    w.track("room:test", "user:1", pid, "online");
    assert_eq!(w.tracker.count("room:test"), 1);

    w.tracker.untrack("room:test", "user:1", pid);
    assert_eq!(w.tracker.count("room:test"), 0);
}

#[test]
fn untrack_keeps_entries_of_others() {
    let mut w = World::new();
    let a = Pid::new(&mut w.node);
    let b = Pid::new(&mut w.node);
    w.track("t", "k", a, "one");
    w.track("t", "k", b, "two");
    let actions = w.tracker.untrack("t", "k", a);
    match &actions[..] {
        [PresenceAction::Broadcast { group, message: PresenceMessage::Delta { topic, diff } }] => {
            assert_eq!((group.as_str(), topic.as_str()), ("presence:t", "t"));
            assert!(diff.joins.is_empty());
            let gone = diff.leaves.get(&"k".to_string()).unwrap();
            assert_eq!(gone.metas.len(), 1);
            assert_eq!(gone.metas[0].pid, a);
        }
        _ => panic!("one broadcast expected"),
    }
    let left = w.tracker.get("t", "k").unwrap();
    assert_eq!(left.metas.len(), 1);
    assert_eq!(left.metas[0].pid, b);
    assert!(w.tracker.untrack("t", "k", a).is_empty());
    assert!(w.tracker.untrack("none", "k", a).is_empty());
}

#[test]
fn test_update() {
    let mut w = World::new();
    let pid = Pid::new(&mut w.node);
    w.track("room:test", "user:1", pid, "online");
    let (new_ref, actions) = w.tracker.update(
        &w.node,
        NOW,
        &mut w.counter,
        "room:test",
        "user:1",
        pid,
        status("away"),
    );
    assert_eq!(new_ref.unwrap().as_str(), ":1000000:1");
    assert_eq!(actions.len(), 1);

    let state = w.tracker.get("room:test", "user:1").unwrap();
    assert_eq!(decoded(&state.metas[0]), "away");
    assert!(state.metas[0].phx_ref_prev.is_some());
    assert_eq!(state.metas[0].phx_ref_prev.as_ref().unwrap().as_str(), ":1000000:0");
}

#[test]
fn update_without_entry_does_nothing() {
    let mut w = World::new();
    let a = Pid::new(&mut w.node);
    let b = Pid::new(&mut w.node);
    w.track("t", "k", a, "online");
    let (new_ref, actions) =
        w.tracker.update(&w.node, NOW, &mut w.counter, "t", "k", b, status("away"));
    assert!(new_ref.is_none());
    assert!(actions.is_empty());
    assert_eq!(w.counter, 2);
}

#[test]
fn test_multiple_presences() {
    let mut w = World::new();
    let pid1 = Pid::new(&mut w.node);
    let pid2 = Pid::new(&mut w.node);
    w.track("room:test", "user:1", pid1, "online");
    w.track("room:test", "user:1", pid2, "online");

    let state = w.tracker.get("room:test", "user:1").unwrap();
    assert_eq!(state.metas.len(), 2);
}

#[test]
fn test_untrack_all() {
    let mut w = World::new();
    let pid = Pid::new(&mut w.node);

    w.track("room:1", "user:1", pid, "online");
    w.track("room:2", "user:1", pid, "online");

    w.tracker.untrack_all(pid);

    assert_eq!(w.tracker.count("room:1"), 0);
    assert_eq!(w.tracker.count("room:2"), 0);
}

#[test]
fn untrack_all_spares_others() {
    let mut w = World::new();
    let pid = Pid::new(&mut w.node);
    let other = Pid::new(&mut w.node);
    w.track("room:1", "user:1", pid, "online");
    w.track("room:2", "user:1", pid, "online");
    w.track("room:2", "user:2", other, "online");

    let mut groups: Vec<String> = w
        .tracker
        .untrack_all(pid)
        .into_iter()
        .map(|a| match a {
            PresenceAction::Broadcast { group, .. } => group,
            _ => panic!("broadcast expected"),
        })
        .collect();
    groups.sort();
    assert_eq!(groups, vec!["presence:room:1", "presence:room:2"]);

    assert_eq!(w.tracker.count("room:1"), 0);
    assert_eq!(w.tracker.count("room:2"), 1);
    assert!(w.tracker.untrack_all(pid).is_empty());
}

fn entry(node: &LocalNode, counter: &mut u64, pid: Pid, s: &str) -> PresenceMeta {
    PresenceMeta::new(node, NOW, counter, pid, status(s))
}

fn diff_of(key: &str, m: PresenceMeta) -> PresenceDiff {
    let mut joins = Table::new();
    joins.insert(key.to_string(), PresenceState { metas: vec![m] });
    PresenceDiff { joins, leaves: Table::new() }
}

#[test]
fn test_presence_diff() {
    let mut w = World::new();
    let pid = Pid::new(&mut w.node);
    let m = entry(&w.node, &mut w.counter, pid, "online");
    let actions = w.tracker.apply_delta("room:test", diff_of("user:remote", m));

    assert_eq!(w.tracker.count("room:test"), 1);
    assert!(w.tracker.get("room:test", "user:remote").is_some());
    assert!(matches!(&actions[..],
        [PresenceAction::Broadcast { message: PresenceMessage::SyncResponse { topic, .. }, .. }]
        if topic == "room:test"));
}

#[test]
fn same_delta_twice_counts_once() {
    let mut w = World::new();
    let pid = Pid::new(&mut w.node);
    let m = entry(&w.node, &mut w.counter, pid, "online");
    w.tracker.apply_delta("t", diff_of("k", m.duplicate()));
    w.tracker.apply_delta("t", diff_of("k", m.duplicate()));
    assert_eq!(w.tracker.count("t"), 1);

    let mut leaves = Table::new();
    leaves.insert("k".to_string(), PresenceState { metas: vec![m] });
    let actions = w.tracker.apply_delta("t", PresenceDiff { joins: Table::new(), leaves });
    assert!(actions.is_empty());
    assert_eq!(w.tracker.count("t"), 0);
    assert!(w.tracker.get("t", "k").is_none());
}

#[test]
fn delta_replaces_previous_entry() {
    let mut w = World::new();
    let pid = Pid::new(&mut w.node);
    let old = entry(&w.node, &mut w.counter, pid, "online");
    let mut new = entry(&w.node, &mut w.counter, pid, "away");
    new.phx_ref_prev = Some(old.phx_ref.clone());
    w.tracker.apply_delta("t", diff_of("k", old));
    w.tracker.apply_delta("t", diff_of("k", new));
    let state = w.tracker.get("t", "k").unwrap();
    assert_eq!(state.metas.len(), 1);
    assert_eq!(decoded(&state.metas[0]), "away");
}

#[test]
fn whole_change_decides_references() {
    let mut w = World::new();
    let pid = Pid::new(&mut w.node);
    let stays = entry(&w.node, &mut w.counter, pid, "stays");
    let leaves = entry(&w.node, &mut w.counter, pid, "leaves");
    let replaced = entry(&w.node, &mut w.counter, pid, "replaced");
    let mut joins = entry(&w.node, &mut w.counter, pid, "joins");
    joins.phx_ref_prev = Some(replaced.phx_ref.clone());
    let again = entry(&w.node, &mut w.counter, pid, "again");
    for m in [&stays, &leaves, &replaced, &again] {
        w.tracker.apply_delta("t", diff_of("k", m.duplicate()));
    }
    w.tracker.apply_delta("t", diff_of("other", stays.duplicate()));
    for _ in 0..2 {
        let mut diff = PresenceDiff { joins: Table::new(), leaves: Table::new() };
        diff.leaves.insert(
            "k".to_string(),
            PresenceState { metas: vec![leaves.duplicate(), again.duplicate()] },
        );
        diff.joins.insert(
            "k".to_string(),
            PresenceState { metas: vec![joins.duplicate(), again.duplicate()] },
        );
        w.tracker.apply_delta("t", diff);
        let state = w.tracker.get("t", "k").unwrap();
        let mut found: Vec<String> = state.metas.iter().map(decoded).collect();
        found.sort();
        assert_eq!(found, vec!["again", "joins", "stays"]);
        assert_eq!(w.tracker.get("t", "other").unwrap().metas.len(), 1);
    }
}

#[test]
fn trackers_converge() {
    let mut here = World::new();
    let mut there = World::new();
    init_node(&mut there.node, NodeName::new("there@h"), 0).ok();
    let a = Pid::new(&mut here.node);
    let b = Pid::new(&mut here.node);
    here.track("t", "k", a, "here");
    there.track("t", "k", b, "there");
    let x = here.tracker.list("t");
    let y = there.tracker.list("t");
    here.tracker.merge_state("t", &y);
    here.tracker.merge_state("t", &y);
    there.tracker.merge_state("t", &x);
    assert_eq!(here.tracker.count("t"), 2);
    assert_eq!(there.tracker.count("t"), 2);
}

#[test]
fn track_replays_on_another_node() {
    let mut w = World::new();
    let pid = Pid::new(&mut w.node);
    let mut copy = PresenceTracker::new();
    for action in w.track("t", "k", pid, "online") {
        match action {
            PresenceAction::Join { group, pid: p } => assert_eq!((group, p), ("presence:t".into(), pid)),
            PresenceAction::Broadcast { message, .. } => {
                copy.handle_message(message, w.node.nameless, 0);
            }
            _ => panic!("unexpected"),
        }
    }
    assert!(copy.list("t").same(&w.tracker.list("t")));
}

#[test]
fn messages_are_handled() {
    let mut w = World::new();
    let pid = Pid::new(&mut w.node);
    let asker = Atom::new(&mut w.node.atoms, "asker@h");
    w.track("t", "k", pid, "online");
    let actions =
        w.tracker.handle_message(PresenceMessage::SyncRequest { topic: "t".into() }, asker, 5);
    match &actions[..] {
        [PresenceAction::Respond { node, message: PresenceMessage::SyncResponse { topic, state } }] => {
            assert_eq!(*node, asker);
            assert_eq!(topic, "t");
            assert_eq!(state.len(), 1);
        }
        _ => panic!("one response expected"),
    }
    let beat = PresenceMessage::Heartbeat { node: "asker@h".into(), clock: 9 };
    assert!(w.tracker.handle_message(beat, asker, 6).is_empty());
    let mut state = Table::new();
    let m = entry(&w.node, &mut w.counter, pid, "more");
    state.insert("k2".to_string(), PresenceState { metas: vec![m] });
    let sync = PresenceMessage::SyncResponse { topic: "t".into(), state };
    assert!(w.tracker.handle_message(sync, asker, 7).is_empty());
    let mut keys = w.tracker.keys("t");
    keys.sort();
    assert_eq!(keys, vec!["k", "k2"]);
    assert!(w.tracker.keys("none").is_empty());
    assert_eq!(w.tracker.count("none"), 0);
}

#[test]
fn groups_are_joined_and_left() {
    let mut w = World::new();
    let pid = Pid::new(&mut w.node);
    assert!(matches!(w.tracker.join_group("t", pid),
        PresenceAction::Join { group, .. } if group == "presence:t"));
    assert!(matches!(w.tracker.leave_group("t", pid),
        PresenceAction::Leave { group, .. } if group == "presence:t"));
}

#[test]
fn broadcasts_go_to_other_nodes() {
    let mut node = LocalNode::new();
    let mine = Pid::new(&mut node);
    let far = Pid::remote(&mut node.atoms, "far@h", 1, 0);
    assert_eq!(recipients(&vec![mine, far], node.nameless), vec![far]);
    assert_eq!(forward_targets(&vec![mine, far], mine, node.nameless), vec![far]);
    assert!(forward_targets(&vec![mine, far], far, node.nameless).is_empty());
}

#[test]
fn refs_name_their_node() {
    let mut node = LocalNode::new();
    init_node(&mut node, NodeName::new("n1@host"), 0).ok();
    let mut counter = 41;
    let r = PresenceRef::new(&node, 123, &mut counter);
    assert_eq!(r.as_str(), "n1@host:123:41");
    assert_eq!(r.node(), "n1@host");
    assert_eq!(counter, 42);
    assert_ne!(r, PresenceRef::new(&node, 123, &mut counter));
    assert_eq!(PresenceRef::from_text("plain".into()).node(), "plain");
}

#[test]
fn test_presence_config() {
    let config = PresenceConfig::new("test", "pubsub");
    assert_eq!(config.name, "test");
    assert_eq!(config.pubsub, "pubsub");
}

#[test]
fn test_presence_diff_empty() {
    let diff = PresenceDiff::default();
    assert!(diff.is_empty());
    assert!(broadcast_delta("p", "n", "t", diff).is_none());
}

#[test]
fn server_serves() {
    let mut node = LocalNode::new();
    let pid = Pid::new(&mut node);
    let me = Pid::new(&mut node);
    let mut counter = 0;
    let mut s = PresenceServerState::init(PresenceConfig::new("chat", "bus"));
    assert_eq!(s.pg_group, "presence:chat");
    let a = s.handle_continue(me);
    assert_eq!((a.name.as_str(), a.pg_group.as_str(), a.pid), ("chat", "presence:chat", me));
    assert_eq!(s.self_pid, Some(me));

    let call = PresenceCall::Track {
        topic: "t".into(),
        key: "k".into(),
        pid,
        meta: status("online"),
    };
    let (reply, sent) = s.handle_call(call, &node, NOW, &mut counter);
    let phx_ref = Presence::track_outcome(Ok(reply)).unwrap();
    assert_eq!(phx_ref.as_str(), ":1000000:0");
    assert_eq!(sent.len(), 1);
    assert_eq!(sent[0].pubsub, "bus");
    assert_eq!(sent[0].presence_topic, "presence:t");
    assert_eq!(sent[0].pg_group, "presence:chat");

    let list = |s: &mut PresenceServerState, counter: &mut u64| {
        let (reply, sent) =
            s.handle_call(PresenceCall::List { topic: "t".into() }, &node, NOW, counter);
        assert!(sent.is_empty());
        Presence::list_outcome(Ok(reply)).ok().unwrap()
    };
    assert_eq!(list(&mut s, &mut counter).len(), 1);

    let call = PresenceCall::Update {
        topic: "t".into(),
        key: "k".into(),
        pid: me,
        meta: status("away"),
    };
    let (reply, sent) = s.handle_call(call, &node, NOW, &mut counter);
    assert!(Presence::update_outcome(Ok(reply)).unwrap().is_none());
    assert!(sent.is_empty());
    assert_eq!(counter, 1);

    let call = PresenceCall::Update {
        topic: "t".into(),
        key: "k".into(),
        pid,
        meta: status("away"),
    };
    let (reply, sent) = s.handle_call(call, &node, NOW, &mut counter);
    assert!(Presence::update_outcome(Ok(reply)).unwrap().is_some());
    assert_eq!(sent.len(), 1);

    let (reply, _) = s.handle_call(
        PresenceCall::Get { topic: "t".into(), key: "k".into() },
        &node,
        NOW,
        &mut counter,
    );
    let state = Presence::get_outcome(Ok(reply)).ok().unwrap().unwrap();
    assert_eq!(decoded(&state.metas[0]), "away");

    let (reply, sent) = s.handle_call(
        PresenceCall::Untrack { topic: "t".into(), key: "k".into(), pid },
        &node,
        NOW,
        &mut counter,
    );
    assert!(Presence::untrack_outcome(Ok(reply)).is_ok());
    assert_eq!(sent.len(), 1);
    assert_eq!(list(&mut s, &mut counter).len(), 0);

    for topic in ["t", "u"] {
        let call =
            PresenceCall::Track { topic: topic.into(), key: "k".into(), pid, meta: vec![] };
        s.handle_call(call, &node, NOW, &mut counter);
    }
    let (reply, sent) =
        s.handle_call(PresenceCall::UntrackAll { pid }, &node, NOW, &mut counter);
    assert!(Presence::untrack_all_outcome(Ok(reply)).is_ok());
    assert_eq!(sent.len(), 2);
    assert_eq!(list(&mut s, &mut counter).len(), 0);

    let m = entry(&node, &mut counter, pid, "far");
    s.handle_cast(PresenceCast::ApplyDelta {
        topic: "t".into(),
        diff: diff_of("k", m.duplicate()),
    });
    assert_eq!(list(&mut s, &mut counter).len(), 1);
    let mut state = Table::new();
    state.insert("z".to_string(), PresenceState { metas: vec![m.duplicate()] });
    s.handle_cast(PresenceCast::SyncState { topic: "t".into(), state });
    assert_eq!(list(&mut s, &mut counter).len(), 2);
    let msg = PresenceMessage::Delta { topic: "t".into(), diff: diff_of("y", m.duplicate()) };
    let bytes = msg.encode(&node.atoms);
    s.handle_message(msg);
    assert_eq!(list(&mut s, &mut counter).len(), 3);
    s.handle_message(PresenceMessage::SyncRequest { topic: "t".into() });
    assert_eq!(list(&mut s, &mut counter).len(), 3);

    let mut fresh = PresenceServerState::init(PresenceConfig::new("chat", "bus"));
    let mut atoms = LocalNode::new().atoms;
    fresh.handle_info(&mut atoms, &bytes);
    let seen = fresh.store.get("t", "y").unwrap();
    assert_eq!(seen.metas.len(), 1);
    assert_eq!(seen.metas[0].phx_ref.as_str(), m.phx_ref.as_str());
    fresh.handle_info(&mut atoms, &[9, 9, 9]);
    assert_eq!(fresh.store.keys("t").len(), 1);
}

#[test]
fn clients_read_replies() {
    let e = Presence::track_outcome(Ok(PresenceReply::Done(None))).unwrap_err();
    assert_eq!(e, "unexpected reply");
    assert_eq!(Presence::track_outcome(Err("Timeout".into())).unwrap_err(), "track failed: Timeout");
    assert_eq!(Presence::untrack_outcome(Err("x".into())).unwrap_err(), "untrack failed: x");
    assert_eq!(
        Presence::untrack_all_outcome(Err("x".into())).unwrap_err(),
        "untrack_all failed: x"
    );
    assert_eq!(Presence::update_outcome(Err("x".into())).unwrap_err(), "update failed: x");
    let wrong = || Ok(PresenceReply::List(Table::new()));
    assert_eq!(Presence::update_outcome(wrong()).unwrap_err(), "unexpected reply");
    assert!(Presence::list_outcome(Err("x".into())).err().unwrap() == "list failed: x");
    assert!(Presence::list_outcome(Ok(PresenceReply::Get(None))).is_err());
    assert!(Presence::get_outcome(Err("x".into())).err().unwrap() == "get failed: x");
    assert!(Presence::get_outcome(wrong()).err().unwrap() == "unexpected reply");
}

#[test]
fn presence_messages_as_bytes() {
    let mut node = LocalNode::new();
    let pid = Pid::remote(&mut node.atoms, "far@h", 7, 2);
    let mut counter = 0;
    let m = entry(&node, &mut counter, pid, "on");
    let msg = PresenceMessage::Delta { topic: "t".into(), diff: diff_of("k", m) };
    let bytes = msg.encode(&node.atoms);
    let meta = (":1000000:0", None::<String>, ("far@h", 7u64, 2u32), status("on"), 1u64);
    let expected = postcard::to_allocvec(&(
        2u32,
        "t",
        vec![("k", vec![meta])],
        Vec::<(String, Vec<u8>)>::new(),
    ))
    .unwrap();
    assert_eq!(bytes, expected);

    let mut other = LocalNode::new();
    match PresenceMessage::decode(&mut other.atoms, &bytes) {
        Some(PresenceMessage::Delta { topic, diff }) => {
            assert_eq!(topic, "t");
            let state = diff.joins.get(&"k".to_string()).unwrap();
            assert_eq!(state.metas[0].pid.node_name(&other.atoms), "far@h");
            assert_eq!(decoded(&state.metas[0]), "on");
            assert!(diff.leaves.is_empty());
        }
        _ => panic!("a delta expected"),
    }
    let beat = PresenceMessage::Heartbeat { node: "n".into(), clock: 300 };
    let bytes = beat.encode(&node.atoms);
    assert_eq!(bytes, postcard::to_allocvec(&(3u32, "n", 300u64)).unwrap());
    assert!(matches!(PresenceMessage::decode(&mut other.atoms, &bytes),
        Some(PresenceMessage::Heartbeat { node, clock: 300 }) if node == "n"));
    let ask = PresenceMessage::SyncRequest { topic: "t".into() }.encode(&node.atoms);
    assert_eq!(ask, postcard::to_allocvec(&(0u32, "t")).unwrap());
    assert!(PresenceMessage::decode(&mut other.atoms, &bytes[..2]).is_none());
    assert!(PresenceMessage::decode(&mut other.atoms, &[9]).is_none());
}

#[test]
fn clients_make_calls() {
    let mut node = LocalNode::new();
    let (server, pid) = (Pid::new(&mut node), Pid::new(&mut node));
    let missing = "Presence 'chat' not found";
    let Ok((to, PresenceCall::Track { topic, key, pid: of, meta })) =
        Presence::track_pid(Some(server), "chat", "t", "k", pid, Ok(vec![7]))
    else {
        panic!("no call");
    };
    assert_eq!((to, topic.as_str(), key.as_str(), of, meta), (server, "t", "k", pid, vec![7]));
    let e = Presence::track_pid(None, "chat", "t", "k", pid, Ok(vec![7])).err().unwrap();
    assert_eq!(e, missing);
    let e = Presence::track_pid(Some(server), "chat", "t", "k", pid, Err("x".into()));
    assert_eq!(e.err().unwrap(), "serialize failed: x");
    let Ok((_, PresenceCall::Update { meta, .. })) =
        Presence::update_pid(Some(server), "chat", "t", "k", pid, Ok(vec![8]))
    else {
        panic!("no call");
    };
    assert_eq!(meta, vec![8]);
    let e = Presence::update_pid(Some(server), "chat", "t", "k", pid, Err("y".into()));
    assert_eq!(e.err().unwrap(), "serialize failed: y");
    let Ok((_, PresenceCall::Untrack { topic, key, pid: of })) =
        Presence::untrack_pid(Some(server), "chat", "t", "k", pid)
    else {
        panic!("no call");
    };
    assert_eq!((topic.as_str(), key.as_str(), of), ("t", "k", pid));
    let all = Presence::untrack_all(Some(server), "chat", pid);
    assert!(matches!(all, Ok((_, PresenceCall::UntrackAll { pid: of })) if of == pid));
    let list = Presence::list(Some(server), "chat", "t");
    assert!(matches!(list, Ok((_, PresenceCall::List { topic })) if topic == "t"));
    let got = Presence::get(Some(server), "chat", "t", "k");
    assert!(matches!(got, Ok((_, PresenceCall::Get { topic, key })) if topic == "t" && key == "k"));
    assert_eq!(Presence::untrack_pid(None, "chat", "t", "k", pid).err().unwrap(), missing);
    assert_eq!(Presence::untrack_all(None, "chat", pid).err().unwrap(), missing);
    assert_eq!(Presence::list(None, "chat", "t").err().unwrap(), missing);
    assert_eq!(Presence::get(None, "chat", "t", "k").err().unwrap(), missing);
}
