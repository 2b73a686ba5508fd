use starlang::atom::Atom;
use starlang::base::node::LocalNode;
use starlang::base::pid::Pid;
use starlang::channel::handler::{
    erase_join, finish, invalid_payload, prepare, transcoded, ChannelHandler, TypedChannelHandler,
};
use starlang::channel::server::{ChannelServer, ChannelServerBuilder, JoinStep};
use starlang::channel::socket::{uuid_simple, Socket};
use starlang::channel::types::{
    broadcast, broadcast_from, broadcast_to_topic, broadcast_to_topic_from, push, topic_matches,
    topic_wildcard, ChannelReply, HandleResult, JoinError, JoinResult, Message, PayloadFormat,
    ReplyStatus, TerminateReason,
};
use starlang::table::Table;
use starlang::wire::primitive::{decode, encode};

fn pids(n: u64) -> Vec<Pid> {
    let mut node = LocalNode::new();
    let atom = Atom::new(&mut node.atoms, "n@h");
    (0..n).map(|i| Pid::from_parts_atom(atom, i, 0)).collect()
}

#[test]
fn test_topic_matches_exact() {
    assert!(topic_matches("room:lobby", "room:lobby"));
    assert!(!topic_matches("room:lobby", "room:other"));
}

#[test]
fn test_topic_matches_wildcard() {
    assert!(topic_matches("room:*", "room:lobby"));
    assert!(topic_matches("room:*", "room:123"));
    assert!(topic_matches("room:*", "room:"));
    assert!(!topic_matches("room:*", "user:123"));
}

#[test]
fn topic_matches_edges() {
    assert!(topic_matches("*", ""));
    assert!(topic_matches("*", "anything"));
    assert!(topic_matches("", ""));
    assert!(!topic_matches("", "x"));
    assert!(topic_matches("é*", "éa"));
    assert!(!topic_matches("room:*", "room"));
    assert!(topic_matches("a**", "a*b"));
    assert!(!topic_matches("a*b", "aXb"));
}

#[test]
fn test_topic_wildcard_extraction() {
    assert_eq!(topic_wildcard("room:*", "room:lobby"), Some("lobby"));
    assert_eq!(topic_wildcard("room:*", "room:123"), Some("123"));
    assert_eq!(topic_wildcard("room:lobby", "room:lobby"), None);
    assert_eq!(topic_wildcard("room:*", "user:1"), None);
}

#[test]
fn test_socket_assign() {
    let mut counter = 0;
    let socket = Socket::with_pid(pids(1)[0], "room:lobby", 5, &mut counter);
    assert_eq!(socket.assigns, ());

    let socket = socket.assign(42i32);
    assert_eq!(socket.assigns, 42);
    assert_eq!(socket.topic, "room:lobby");
    assert_eq!(socket.join_ref, "5-0");
    let mut socket = socket;
    socket.update_assigns(|a| *a += 1);
    assert_eq!(socket.assigns, 43);
}

#[test]
fn join_refs_are_hexadecimal() {
    let mut counter = 254;
    assert_eq!(uuid_simple(0xdead_beef, &mut counter), "deadbeef-fe");
    assert_eq!(uuid_simple(16, &mut counter), "10-ff");
    assert_eq!(uuid_simple(0, &mut counter), "0-100");
    let t = 1_700_000_000_123_456_789u64;
    assert_eq!(uuid_simple(t, &mut counter), format!("{:x}-{:x}", t, 257));
}

#[test]
fn test_join_error() {
    let err = JoinError::new("unauthorized");
    assert_eq!(err.reason, "unauthorized");
    assert!(err.details.is_none());

    let mut details = Table::new();
    details.insert("code".to_string(), "403".to_string());
    let err = err.with_details(details);
    assert!(err.details.is_some());
    assert_eq!(err.details.unwrap().get(&"code".to_string()), Some(&"403".to_string()));
}

#[test]
fn message_builder() {
    let m = Message::new("t", "e", vec![1]).with_ref("r".into()).with_join_ref("j".into());
    assert_eq!((m.topic.as_str(), m.event.as_str()), ("t", "e"));
    assert_eq!(m.payload, vec![1]);
    assert_eq!(m.msg_ref.as_deref(), Some("r"));
    assert_eq!(m.join_ref.as_deref(), Some("j"));
}

#[test]
fn broadcasts_reach_whom_they_should() {
    let p = pids(3);
    let mut counter = 0;
    let socket = Socket::with_pid(p[1], "room:1", 0, &mut counter);

    let (to, reply) = push(&socket, "hi", vec![7]);
    assert_eq!(to, p[1]);
    assert!(matches!(reply, ChannelReply::Push { topic, event, payload }
        if topic == "room:1" && event == "hi" && payload == vec![7]));

    let all = broadcast(&socket, "hi", vec![]);
    assert_eq!(all.group, "channel:room:1");
    assert_eq!(all.recipients(&p), p);
    assert_eq!(broadcast_to_topic("x", "e", vec![]).group, "channel:x");

    let others = broadcast_from(&socket, "hi", vec![]);
    assert_eq!(others.recipients(&p), vec![p[0], p[2]]);
    let others = broadcast_to_topic_from("x", p[0], "e", vec![]);
    assert_eq!(others.recipients(&p), vec![p[1], p[2]]);
}

type Server = ChannelServer<TypedChannelHandler<u8>>;

fn server(client: Pid) -> Server {
    ChannelServerBuilder::new()
        .channel(TypedChannelHandler::new("room:*", 1))
        .channel(TypedChannelHandler::new("room:lobby", 2))
        .channel(TypedChannelHandler::new("user:7", 3))
        .build(client)
}

fn join(s: &mut Server, topic: &str, assigns: Vec<u8>) {
    let mut counter = 0;
    match s.handle_join(&topic.to_string(), "m".into(), 0, &mut counter) {
        JoinStep::Ask { socket, .. } => {
            let (reply, group) = s.join_finished(
                topic.to_string(),
                "m".into(),
                Ok((socket.assign(assigns), Some(vec![9]))),
            );
            assert!(matches!(reply, ChannelReply::JoinOk { msg_ref, payload }
                if msg_ref == "m" && payload == Some(vec![9])));
            assert_eq!(group, Some(format!("channel:{topic}")));
        }
        JoinStep::Answer(_) => panic!("refused"),
    }
}

#[test]
fn first_matching_handler_wins() {
    let s = server(pids(1)[0]);
    assert_eq!(s.find_handler("room:lobby"), Some(0));
    assert_eq!(s.handler(0).channel, 1);
    assert_eq!(s.find_handler("user:7"), Some(2));
    assert_eq!(s.find_handler("user:8"), None);
    assert!(s.handler(2).matches("user:7"));
    assert_eq!(s.handler(0).topic_pattern(), "room:*");
}

#[test]
fn join_is_refused_twice_and_without_handler() {
    let client = pids(1)[0];
    let mut s = server(client);
    let mut counter = 3;
    match s.handle_join(&"room:a".to_string(), "1".into(), 255, &mut counter) {
        JoinStep::Ask { handler, socket } => {
            assert_eq!(handler, 0);
            assert_eq!(socket.pid, client);
            assert_eq!(socket.topic, "room:a");
            assert_eq!(socket.join_ref, "ff-3");
        }
        JoinStep::Answer(_) => panic!("refused"),
    }
    assert_eq!(counter, 4);
    join(&mut s, "room:a", vec![1]);
    assert!(s.is_joined("room:a"));
    match s.handle_join(&"room:a".to_string(), "2".into(), 0, &mut counter) {
        JoinStep::Answer(ChannelReply::JoinError { msg_ref, reason }) => {
            assert_eq!((msg_ref.as_str(), reason.as_str()), ("2", "already joined"));
        }
        _ => panic!("not refused"),
    }
    match s.handle_join(&"other".to_string(), "3".into(), 0, &mut counter) {
        JoinStep::Answer(ChannelReply::JoinError { reason, .. }) => {
            assert_eq!(reason, "no handler for topic: other");
        }
        _ => panic!("not refused"),
    }
    let (reply, group) =
        s.join_finished("room:b".into(), "4".into(), Err(JoinError::new("banned")));
    assert!(matches!(reply, ChannelReply::JoinError { msg_ref, reason }
        if msg_ref == "4" && reason == "banned"));
    assert!(group.is_none());
    assert!(!s.is_joined("room:b"));
    assert_eq!(s.joined_topics(), vec!["room:a".to_string()]);
}

#[test]
fn events_are_answered() {
    let client = pids(1)[0];
    let mut s = server(client);
    assert!(s.route(&"room:a".to_string()).is_none());
    join(&mut s, "room:a", vec![1]);
    let (i, socket) = s.route(&"room:a".to_string()).unwrap();
    assert_eq!((i, socket.assigns.clone()), (0, vec![1]));

    let run = |s: &mut Server, result: HandleResult<Vec<u8>>| {
        let (_, mut socket) = s.route(&"room:a".to_string()).unwrap();
        socket.assigns.push(2);
        s.handle_event("room:a".into(), "r".into(), socket, result)
    };
    let o = run(&mut s, HandleResult::NoReply);
    assert!(o.reply.is_none() && o.broadcast.is_none() && o.left.is_none());
    let o = run(&mut s, HandleResult::Reply { status: ReplyStatus::Okay, payload: vec![3] });
    assert!(matches!(o.reply, Some(ChannelReply::Reply { msg_ref, status, payload })
        if msg_ref == "r" && status == "ok" && payload == vec![3]));
    let o = run(&mut s, HandleResult::ReplyRaw { status: ReplyStatus::Error, payload: vec![] });
    assert!(matches!(o.reply, Some(ChannelReply::Reply { status, .. }) if status == "error"));
    let o = run(&mut s, HandleResult::Push { event: "e".into(), payload: vec![4] });
    assert!(matches!(o.reply, Some(ChannelReply::Push { topic, event, payload })
        if topic == "room:a" && event == "e" && payload == vec![4]));
    let o = run(&mut s, HandleResult::PushRaw { event: "e".into(), payload: vec![4] });
    assert!(matches!(o.reply, Some(ChannelReply::Push { .. })));
    let o = run(&mut s, HandleResult::Broadcast { event: "e".into(), payload: vec![5] });
    assert!(o.broadcast.unwrap().except.is_none());
    let o = run(&mut s, HandleResult::BroadcastFrom { event: "e".into(), payload: vec![5] });
    assert_eq!(o.broadcast.unwrap().except, Some(client));
    assert_eq!(s.route(&"room:a".to_string()).unwrap().1.assigns, vec![1, 2, 2, 2, 2, 2, 2, 2]);
    let o = run(&mut s, HandleResult::Stop { reason: "bye".into() });
    let left = o.left.unwrap();
    assert_eq!(left.handler, Some(0));
    assert_eq!(left.group, "channel:room:a");
    assert!(matches!(left.reason, TerminateReason::Left));
    assert!(!s.is_joined("room:a"));
}

#[test]
fn leave_and_terminate() {
    let client = pids(1)[0];
    let mut s = server(client);
    join(&mut s, "room:a", vec![1]);
    join(&mut s, "room:b", vec![2]);
    join(&mut s, "user:7", vec![3]);
    let left = s.handle_leave(&"room:b".to_string()).unwrap();
    assert_eq!(left.socket.assigns, vec![2]);
    assert!(s.handle_leave(&"room:b".to_string()).is_none());

    let mut socket = s.route(&"room:a".to_string()).unwrap().1;
    socket.assigns = vec![8];
    s.keep_socket(&"room:a".to_string(), socket);

    let mut gone = s.terminate(TerminateReason::Closed);
    gone.sort_by_key(|l| l.group.clone());
    assert_eq!(gone.len(), 2);
    assert_eq!(gone[0].group, "channel:room:a");
    assert_eq!(gone[0].socket.assigns, vec![8]);
    assert_eq!(gone[1].handler, Some(2));
    assert!(matches!(gone[1].reason, TerminateReason::Closed));
    assert!(s.joined_topics().is_empty());
}

#[test]
fn handlers_added_later() {
    let mut s: Server = ChannelServer::new(pids(1)[0]);
    assert_eq!(s.find_handler("a"), None);
    s.add_handler(TypedChannelHandler::new("a", 1));
    assert_eq!(s.find_handler("a"), Some(0));
}

#[test]
fn typed_handlers_are_erased() {
    let mut counter = 0;
    let typed = || Socket::with_pid(pids(1)[0], "t", 0, &mut 0);
    let (socket, reply) =
        erase_join(JoinResult::Okay(typed().assign(Ok(vec![1])))).ok().unwrap();
    assert_eq!((socket.assigns, reply), (vec![1], None));
    let (_, reply) =
        erase_join(JoinResult::OkReply(typed().assign(Ok(vec![1])), vec![2])).ok().unwrap();
    assert_eq!(reply, Some(vec![2]));
    let e = erase_join(JoinResult::Okay(typed().assign(Err("full".to_string())))).err().unwrap();
    assert_eq!(e.reason, "failed to serialize assigns: full");
    let e = erase_join(JoinResult::Error(JoinError::new("no"))).err().unwrap();
    assert_eq!(e.reason, "no");
    assert_eq!(invalid_payload("bad").reason, "invalid payload: bad");

    let mut socket = Socket::with_pid(pids(1)[0], "t", 0, &mut counter).assign(vec![1u8]);
    assert!(prepare::<u8, u8>(None, Some(1), &socket).is_none());
    assert!(prepare::<u8, u8>(Some(1), None, &socket).is_none());
    let (event, ready) = prepare(Some(5u8), Some("state"), &socket).unwrap();
    assert_eq!((event, ready.assigns, ready.topic.as_str()), (5, "state", "t"));

    let r = finish(
        &mut socket,
        Some(vec![2]),
        HandleResult::Reply { status: ReplyStatus::Okay, payload: Some(vec![3]) },
    );
    assert!(matches!(r, HandleResult::ReplyRaw { payload, .. } if payload == vec![3]));
    assert_eq!(socket.assigns, vec![2]);
    let r = finish(
        &mut socket,
        None,
        HandleResult::Push { event: "e".into(), payload: None },
    );
    assert!(matches!(r, HandleResult::NoReply));
    assert_eq!(socket.assigns, vec![2]);
    let r = finish(
        &mut socket,
        None,
        HandleResult::Push { event: "e".into(), payload: Some(vec![4]) },
    );
    assert!(matches!(r, HandleResult::PushRaw { .. }));
    let r = finish(
        &mut socket,
        None,
        HandleResult::BroadcastFrom { event: "e".into(), payload: Some(vec![4]) },
    );
    assert!(matches!(r, HandleResult::BroadcastFrom { .. }));

    assert_eq!(transcoded(Some(vec![1]), Some(vec![2]), PayloadFormat::Postcard), Some(vec![1]));
    assert_eq!(transcoded(Some(vec![1]), Some(vec![2]), PayloadFormat::Json), Some(vec![2]));
    assert_eq!(transcoded(Some(vec![1]), None, PayloadFormat::Json), None);
}

#[test]
fn channel_replies_as_bytes() {
    let reply = ChannelReply::Push { topic: "t".into(), event: "e".into(), payload: vec![1, 2] };
    let bytes = encode(&reply);
    assert_eq!(bytes, postcard::to_allocvec(&(3u32, "t", "e", vec![1u8, 2])).unwrap());
    assert!(matches!(decode(&bytes), Some(ChannelReply::Push { topic, event, payload })
        if topic == "t" && event == "e" && payload == vec![1, 2]));

    let reply = ChannelReply::JoinOk { msg_ref: "1".into(), payload: Some(vec![5]) };
    assert_eq!(encode(&reply), postcard::to_allocvec(&(0u32, "1", Some(vec![5u8]))).unwrap());
    let reply = ChannelReply::JoinOk { msg_ref: "1".into(), payload: None };
    assert_eq!(encode(&reply), postcard::to_allocvec(&(0u32, "1", None::<Vec<u8>>)).unwrap());
    let reply = ChannelReply::JoinError { msg_ref: "1".into(), reason: "x".into() };
    assert_eq!(encode(&reply), postcard::to_allocvec(&(1u32, "1", "x")).unwrap());
    assert!(decode::<ChannelReply>(&[4]).is_none());
    assert!(decode::<ChannelReply>(&[0, 1, b'1', 2]).is_none());
}
