use starlang::atom::AtomTable;
use starlang::base::node::{LocalNode, NodeAddr, NodeId, NodeInfo, NodeName};
use starlang::base::pid::Pid;
use starlang::base::reference::Ref;
use starlang::channel::types::{ChannelMessage, Message};
use starlang::data::Data;
use starlang::gen_fsm::types;
use starlang::presence::server::{PresenceCall, PresenceCast, PresenceConfig, PresenceReply};
use starlang::presence::types::{
    Moment, PresenceDiff, PresenceMessage, PresenceMeta, PresenceState,
};
use starlang::supervisor::types::{ChildType, RestartType, ShutdownType, Strategy};
use starlang::table::Table;
use starlang::time::Duration;
use starlang::wire::primitive::{decode, encode};

#[test]
fn setups_of_supervisors_are_numbers() {
    for (i, x) in [Strategy::OneForOne, Strategy::OneForAll, Strategy::RestForOne]
        .into_iter()
        .enumerate()
    {
        assert_eq!(encode(&x), vec![i as u8]);
        assert_eq!(decode::<Strategy>(&[i as u8]), Some(x));
    }
    for (i, x) in [RestartType::Permanent, RestartType::Transient, RestartType::Temporary]
        .into_iter()
        .enumerate()
    {
        assert_eq!(encode(&x), vec![i as u8]);
        assert_eq!(decode::<RestartType>(&[i as u8]), Some(x));
    }
    for (i, x) in [ChildType::Worker, ChildType::Supervisor].into_iter().enumerate() {
        assert_eq!(encode(&x), vec![i as u8]);
        assert_eq!(decode::<ChildType>(&[i as u8]), Some(x));
    }
    assert_eq!(decode::<ChildType>(&[2]), None);
    assert_eq!(decode::<Strategy>(&[3]), None);
    assert_eq!(decode::<RestartType>(&[3]), None);
}

#[test]
fn times_are_seconds_and_nanoseconds() {
    for millis in [0u64, 1, 1500, 300_000] {
        let bytes = encode(&Duration::from_millis(millis));
        let std = std::time::Duration::from_millis(millis);
        assert_eq!(bytes, postcard::to_allocvec(&std).unwrap());
        assert_eq!(decode::<Duration>(&bytes), Some(Duration::from_millis(millis)));
    }
    let carried = postcard::to_allocvec(&(1u64, 1_500_000_000u32)).unwrap();
    assert_eq!(decode::<Duration>(&carried), Some(Duration::from_millis(2500)));
    let too_long = postcard::to_allocvec(&(u64::MAX, 1_000_000_000u32)).unwrap();
    assert_eq!(decode::<Duration>(&too_long), None);
    assert!(postcard::from_bytes::<std::time::Duration>(&too_long).is_err());

    assert_eq!(encode(&ShutdownType::BrutalKill), vec![0]);
    assert_eq!(encode(&ShutdownType::Timeout(Duration::from_secs(5))), vec![1, 5, 0]);
    assert_eq!(encode(&ShutdownType::Infinity), vec![2]);
    for x in [
        ShutdownType::BrutalKill,
        ShutdownType::Timeout(Duration::from_millis(1500)),
        ShutdownType::Infinity,
    ] {
        assert_eq!(decode::<ShutdownType>(&encode(&x)), Some(x));
    }
    assert_eq!(decode::<ShutdownType>(&[3]), None);
}

#[test]
fn nodes_are_written_field_by_field() {
    let name = NodeName::new("n@h");
    assert_eq!(encode(&name), postcard::to_allocvec("n@h").unwrap());
    assert_eq!(decode::<NodeName>(&encode(&name)), Some(name.clone()));

    let v4 = NodeAddr::V4 { ip: [1, 2, 3, 4], port: 300 };
    let info = NodeInfo::new(name.clone(), NodeId::new(3), Some(v4), 7);
    let bytes = encode(&info);
    assert_eq!(bytes, vec![3, b'n', b'@', b'h', 3, 1, 0, 1, 2, 3, 4, 0xac, 2, 7]);
    let read: NodeInfo = decode(&bytes).unwrap();
    assert_eq!(read.name, name);
    assert_eq!(read.id, NodeId::new(3));
    assert_eq!(read.addr, Some(v4));
    assert_eq!(read.creation, 7);

    let ip = [0, 1, 2, 3, 4, 5, 6, 7, 8, 9, 10, 11, 12, 13, 14, 15];
    let v6 = NodeAddr::V6 { ip, port: 65535, flowinfo: 8, scope_id: 9 };
    let bytes = encode(&v6);
    assert_eq!(bytes[0], 1);
    assert_eq!(bytes[1..17], ip);
    assert_eq!(bytes[17..], [0xff, 0xff, 3]);
    let plain = NodeAddr::V6 { ip, port: 65535, flowinfo: 0, scope_id: 0 };
    assert_eq!(decode::<NodeAddr>(&bytes), Some(plain));
    assert_eq!(decode::<NodeAddr>(&bytes[..16]), None);
    assert_eq!(decode::<NodeAddr>(&[0, 1, 2, 3, 4, 0xff, 0xff, 4]), None);
    assert_eq!(decode::<NodeAddr>(&[2, 1, 2, 3, 4, 1]), None);
}

#[test]
fn channel_messages_survive_the_wire() {
    let mut node = LocalNode::new();
    let pid = Pid::remote(&mut node.atoms, "n@h", 5, 0);
    let join = ChannelMessage::Join {
        topic: "t".into(),
        payload: vec![9],
        client_pid: pid,
        msg_ref: "r".into(),
    };
    let bytes = join.encode(&node.atoms);
    assert_eq!(
        bytes,
        postcard::to_allocvec(&(0u32, "t", [9u8].as_slice(), ("n@h", 5u64, 0u32), "r")).unwrap()
    );
    let mut atoms = AtomTable::new();
    match ChannelMessage::decode(&mut atoms, &bytes) {
        Some(ChannelMessage::Join { topic, payload, client_pid, msg_ref }) => {
            assert_eq!((topic.as_str(), payload, msg_ref.as_str()), ("t", vec![9], "r"));
            assert_eq!(client_pid.node_name(&atoms), "n@h");
            assert_eq!(client_pid.id(), 5);
        }
        _ => panic!("a join expected"),
    }
    let others = [
        ChannelMessage::Event {
            topic: "t".into(),
            event: "e".into(),
            payload: vec![1],
            msg_ref: "r".into(),
        },
        ChannelMessage::Leave { topic: "t".into() },
        ChannelMessage::Broadcast { topic: "t".into(), event: "e".into(), payload: vec![1] },
    ];
    for (i, m) in others.into_iter().enumerate() {
        let bytes = m.encode(&node.atoms);
        assert_eq!(bytes[0] as usize, i + 1);
        let read = ChannelMessage::decode(&mut atoms, &bytes).unwrap();
        assert_eq!(format!("{:?}", read), format!("{:?}", m));
    }
    assert!(ChannelMessage::decode(&mut atoms, &[4]).is_none());

    let message = Message::new("t", "e", vec![1, 2]);
    let bytes = encode(&message);
    assert_eq!(bytes, vec![1, b't', 1, b'e', 2, 1, 2, 0, 0]);
    assert_eq!(decode::<Message>(&bytes).unwrap().payload, vec![1, 2]);
}

#[test]
fn calls_of_machines_survive_the_wire() {
    let mut node = LocalNode::new();
    let from = types::From::new(Pid::remote(&mut node.atoms, "n@h", 5, 0), Ref(8));
    let bytes = from.encode(&node.atoms);
    assert_eq!(bytes, vec![3, b'n', b'@', b'h', 5, 0, 8]);
    assert_eq!(types::From::decode(&mut node.atoms, &bytes), Some(from));
    assert_eq!(types::From::decode(&mut node.atoms, &bytes[..3]), None);
}

fn state(node: &LocalNode, pid: Pid) -> PresenceState {
    let now = Moment { micros: 1, secs: 2 };
    PresenceState { metas: vec![PresenceMeta::new(node, now, &mut 0, pid, vec![7])] }
}

#[test]
fn presence_servers_survive_the_wire() {
    let mut node = LocalNode::new();
    let pid = Pid::remote(&mut node.atoms, "n@h", 5, 0);
    let atoms = &mut node.atoms;

    let config = PresenceConfig::new("p", "q");
    assert_eq!(encode(&config), vec![1, b'p', 1, b'q']);
    assert_eq!(decode::<PresenceConfig>(&encode(&config)).unwrap().pubsub, "q");

    let call = PresenceCall::Track { topic: "t".into(), key: "k".into(), pid, meta: vec![3] };
    let bytes = call.encode(atoms);
    assert_eq!(bytes, vec![0, 1, b't', 1, b'k', 3, b'n', b'@', b'h', 5, 0, 1, 3]);
    assert!(matches!(PresenceCall::decode(atoms, &bytes),
        Some(PresenceCall::Track { topic, key, pid: p, meta })
        if topic == "t" && key == "k" && p == pid && meta == vec![3]));
    let bytes = PresenceCall::UntrackAll { pid }.encode(atoms);
    assert_eq!(bytes[0], 2);
    assert!(matches!(PresenceCall::decode(atoms, &bytes),
        Some(PresenceCall::UntrackAll { pid: p }) if p == pid));
    let bytes = PresenceCall::Get { topic: "t".into(), key: "k".into() }.encode(atoms);
    assert_eq!(bytes, vec![5, 1, b't', 1, b'k']);
    assert!(PresenceCall::decode(atoms, &[6]).is_none());

    let mut joins = Table::new();
    joins.insert("k".to_string(), state(&node, pid));
    let diff = PresenceDiff { joins: joins.duplicate(), leaves: Table::new() };
    let cast = PresenceCast::ApplyDelta { topic: "t".into(), diff };
    let bytes = cast.encode(&node.atoms);
    match PresenceCast::decode(&mut node.atoms, &bytes) {
        Some(PresenceCast::ApplyDelta { topic, diff }) => {
            assert_eq!(topic, "t");
            assert_eq!(diff.joins.get(&"k".to_string()).unwrap().metas[0].pid, pid);
            assert!(diff.leaves.is_empty());
        }
        _ => panic!("a change expected"),
    }
    let cast = PresenceCast::SyncState { topic: "t".into(), state: joins.duplicate() };
    let bytes = cast.encode(&node.atoms);
    assert!(matches!(PresenceCast::decode(&mut node.atoms, &bytes),
        Some(PresenceCast::SyncState { state, .. }) if state.len() == 1));

    let reply = PresenceReply::List(joins);
    let bytes = reply.encode(&node.atoms);
    assert!(matches!(PresenceReply::decode(&mut node.atoms, &bytes),
        Some(PresenceReply::List(presences)) if presences.len() == 1));
    let reply = PresenceReply::Get(Some(state(&node, pid)));
    let bytes = reply.encode(&node.atoms);
    assert!(matches!(PresenceReply::decode(&mut node.atoms, &bytes),
        Some(PresenceReply::Get(Some(s))) if s.metas[0].pid == pid && s.metas[0].meta == vec![7]));
    assert_eq!(PresenceReply::Get(None).encode(&node.atoms), vec![2, 0]);
    assert_eq!(PresenceReply::Done(None).encode(&node.atoms), vec![0, 0]);
    assert!(matches!(PresenceReply::decode(&mut node.atoms, &[0, 1, 1, b'x']),
        Some(PresenceReply::Done(Some(r))) if r.as_str() == "x"));
}

#[test]
fn reading_presences_adds_new_names_once() {
    let mut there = LocalNode::new();
    let a = Pid::remote(&mut there.atoms, "a@h", 1, 0);
    let b = Pid::remote(&mut there.atoms, "b@h", 2, 0);
    let mut joins = Table::new();
    let mut metas = state(&there, a).metas;
    metas.push(state(&there, b).metas.remove(0));
    metas.push(state(&there, a).metas.remove(0));
    joins.insert("k".to_string(), PresenceState { metas });
    let mut leaves = Table::new();
    leaves.insert("k".to_string(), state(&there, b));
    let message =
        PresenceMessage::Delta { topic: "t".into(), diff: PresenceDiff { joins, leaves } };
    assert!(message.is_known(&there.atoms));
    assert!(!message.is_known(&AtomTable::new()));

    let mut here = LocalNode::new();
    Pid::remote(&mut here.atoms, "b@h", 9, 0);
    let bytes = message.encode(&there.atoms);
    let read = PresenceMessage::decode(&mut here.atoms, &bytes).unwrap();
    assert!(read.is_known(&here.atoms));
    for (i, name) in ["", "b@h", "a@h"].into_iter().enumerate() {
        let pid = Pid::remote(&mut here.atoms, name, 0, 0);
        assert_eq!(pid.node().index() as usize, i);
    }
    let request = PresenceMessage::SyncRequest { topic: "new".into() };
    PresenceMessage::decode(&mut here.atoms, &request.encode(&there.atoms)).unwrap();
    assert!(!here.atoms.contains(&"new".to_string()));
}
