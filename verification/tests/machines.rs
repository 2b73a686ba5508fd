use starlang::atom::AtomTable;
use starlang::base::exit_reason::ExitReason;
use starlang::base::node::LocalNode;
use starlang::base::pid::Pid;
use starlang::base::reference::Ref;
use starlang::gen_fsm::error::{CallError, SendEventError, StartError};
use starlang::gen_fsm::protocol::FsmMessage;
use starlang::gen_fsm::server::{
    call_outcome, call_request, dispatch, read_reply, read_task, send_event, send_event_outcome,
    send_reply, Fsm, FsmEffect, FsmTask, Received, TimeoutEvent,
};
use starlang::gen_fsm::types::{self, CallResult, EventResult, InitResult, StateAction};
use starlang::runtime::error::SendError;
use starlang::time::Duration;

#[derive(Clone, Copy, Debug, PartialEq)]
enum Light {
    Red,
    Yellow,
    Green,
}

type Effects = Vec<FsmEffect<Light, u32>>;

fn red() -> Fsm<Light> {
    let init: InitResult<Light, ()> = InitResult::ok(Light::Red, ());
    let (fsm, _, effects): (Fsm<Light>, (), Effects) = Fsm::start(init).unwrap();
    assert!(matches!(effects[..], [FsmEffect::Enter]));
    fsm
}

fn caller() -> types::From {
    let mut node = LocalNode::new();
    types::From::new(Pid::new(&mut node), Ref::from_raw(5))
}

fn second() -> Duration {
    Duration::from_secs(1)
}

#[test]
fn start_outcomes() {
    let init: InitResult<Light, u8> = InitResult::ok_timeout(Light::Red, 7, second());
    let (fsm, data, effects): (Fsm<Light>, u8, Effects) = Fsm::start(init).unwrap();
    assert_eq!((fsm.state, data), (Light::Red, 7));
    assert!(matches!(effects[..],
        [FsmEffect::StartTimer { id: 0, event: TimeoutEvent::State, .. }, FsmEffect::Enter]));
    let r: Result<(Fsm<Light>, u8, Effects), _> = Fsm::start(InitResult::ignore());
    assert!(matches!(r, Err(StartError::Ignore)));
    let r: Result<(Fsm<Light>, u8, Effects), _> =
        Fsm::start(InitResult::stop(ExitReason::error("no")));
    assert!(matches!(r, Err(StartError::Stop(ExitReason::Error(e))) if e == "no"));
}

#[test]
fn transitions() {
    let mut fsm = red();
    let e: Effects = fsm.handle_event_result(EventResult::next_state(Light::Green), &vec![]);
    assert_eq!(fsm.state, Light::Green);
    assert!(matches!(e[..], [FsmEffect::Exit(Light::Red), FsmEffect::Enter]));

    let e: Effects =
        fsm.handle_event_result(EventResult::next_state_timeout(Light::Yellow, second()), &vec![]);
    assert!(matches!(e[..],
        [FsmEffect::Exit(Light::Green), FsmEffect::Enter, FsmEffect::StartTimer { id: 0, .. }]));

    let e: Effects = fsm.handle_event_result(EventResult::keep_state_timeout(second()), &vec![]);
    assert!(matches!(e[..], [FsmEffect::CancelTimer(0), FsmEffect::StartTimer { id: 1, .. }]));

    let e: Effects = fsm.handle_event_result(EventResult::keep_state(), &vec![]);
    assert!(matches!(e[..], [FsmEffect::CancelTimer(1)]));
    let e: Effects = fsm.handle_event_result(EventResult::keep_state(), &vec![]);
    assert!(e.is_empty());
    assert_eq!(fsm.state, Light::Yellow);
    assert!(!fsm.is_stopped());
}

#[test]
fn actions_are_taken_in_order() {
    let mut fsm = red();
    let from = caller();
    let e: Effects = fsm.handle_event_result(
        EventResult::keep_state_actions(vec![
            StateAction::NoAction,
            StateAction::Reply(from, 9),
            StateAction::GenericTimeout("a".into(), second()),
            StateAction::GenericTimeout("b".into(), second()),
            StateAction::GenericTimeout("a".into(), second()),
            StateAction::CancelTimeout("b".into()),
            StateAction::CancelTimeout("zzz".into()),
            StateAction::StateTimeout(second()),
        ]),
        &vec![],
    );
    assert!(matches!(&e[..], [
        FsmEffect::Reply(f, 9),
        FsmEffect::StartTimer { id: 0, event: TimeoutEvent::Generic(a), .. },
        FsmEffect::StartTimer { id: 1, .. },
        FsmEffect::CancelTimer(0),
        FsmEffect::StartTimer { id: 2, .. },
        FsmEffect::CancelTimer(1),
        FsmEffect::StartTimer { id: 3, event: TimeoutEvent::State, .. },
    ] if *f == from && a == "a"));
    let e: Effects = fsm.handle_event_result(EventResult::next_state(Light::Green), &vec![]);
    assert!(matches!(e[..], [
        FsmEffect::CancelTimer(3),
        FsmEffect::CancelTimer(2),
        FsmEffect::Exit(Light::Red),
        FsmEffect::Enter,
    ]));
}

#[test]
fn postponed_events_wait_for_the_next_state() {
    let mut fsm = red();
    let put_off = || EventResult::<Light, u32>::keep_state_actions(vec![StateAction::Postpone]);
    fsm.handle_event_result(put_off(), &vec![1]);
    fsm.handle_event_result(put_off(), &vec![2]);
    assert_eq!(fsm.take_retry(), None);
    let _: Effects = fsm.handle_event_result(
        EventResult::next_state_actions(Light::Green, vec![StateAction::Postpone]),
        &vec![3],
    );
    let mut fired = vec![TimeoutEvent::State, TimeoutEvent::Generic("g".into())];
    assert_eq!(fsm.next_input(&mut fired), Some(vec![1]));
    assert_eq!(fsm.next_input(&mut fired), Some(vec![2]));
    assert_eq!(fsm.next_input(&mut fired), Some(vec![3]));
    assert_eq!(fsm.next_input(&mut fired), Some(vec![3]));
    assert_eq!(fsm.next_input(&mut fired), Some(vec![4, 1, b'g']));
    assert_eq!(fsm.next_input(&mut fired), None);
}

#[test]
fn stop_ends_the_machine() {
    let mut fsm = red();
    let e: Effects = fsm.handle_event_result(EventResult::stop(ExitReason::Shutdown), &vec![]);
    assert!(matches!(e[..], [FsmEffect::Terminate(ExitReason::Shutdown)]));
    assert!(fsm.is_stopped());
    assert!(fsm.finish::<u32>().is_none());

    let mut fsm = red();
    assert!(matches!(fsm.finish::<u32>(), Some(FsmEffect::Terminate(ExitReason::Normal))));
    let e: Effects = fsm
        .handle_event_result(EventResult::stop_reply(ExitReason::Normal, caller(), 1), &vec![]);
    assert!(matches!(e[..],
        [FsmEffect::Reply(_, 1), FsmEffect::Terminate(ExitReason::Normal)]));
    assert!(fsm.is_stopped());
}

#[test]
fn calls_are_answered() {
    let from = caller();
    let mut fsm = red();
    let e: Effects = fsm.handle_call_result(CallResult::reply(4, Light::Green), from);
    assert!(matches!(e[..],
        [FsmEffect::Reply(_, 4), FsmEffect::Exit(Light::Red), FsmEffect::Enter]));
    let e: Effects =
        fsm.handle_call_result(CallResult::reply_timeout(4, Light::Red, second()), from);
    assert!(matches!(e[..], [FsmEffect::Reply(_, 4), FsmEffect::Exit(Light::Green),
        FsmEffect::Enter, FsmEffect::StartTimer { .. }]));
    let e: Effects = fsm.handle_call_result(CallResult::noreply(Light::Yellow), from);
    assert!(matches!(e[..],
        [FsmEffect::CancelTimer(0), FsmEffect::Exit(Light::Red), FsmEffect::Enter]));
    let e: Effects =
        fsm.handle_call_result(CallResult::NoReplyTimeout(Light::Yellow, second()), from);
    assert!(matches!(e[..],
        [FsmEffect::Exit(_), FsmEffect::Enter, FsmEffect::StartTimer { .. }]));
    let e: Effects = fsm.handle_call_result(CallResult::keep_state_reply(5), from);
    assert!(matches!(e[..], [FsmEffect::Reply(_, 5)]));
    let e: Effects = fsm.handle_call_result(CallResult::keep_state(), from);
    assert!(e.is_empty());
    let e: Effects =
        fsm.handle_call_result(CallResult::stop_noreply(ExitReason::Killed, Light::Red), from);
    assert!(matches!(e[..], [FsmEffect::Terminate(ExitReason::Killed)]));
    assert!(fsm.is_stopped());
    assert!(fsm.finish::<u32>().is_none());
    assert_eq!(fsm.next_input(&mut vec![TimeoutEvent::State]), None);
    let mut fsm = red();
    let e: Effects =
        fsm.handle_call_result(CallResult::stop(ExitReason::Normal, 6, Light::Green), from);
    assert!(matches!(e[..], [FsmEffect::Reply(_, 6), FsmEffect::Terminate(_)]));
    assert_eq!(fsm.state, Light::Green);
}

#[test]
fn messages_become_tasks() {
    assert!(matches!(dispatch(FsmMessage::Event(vec![1])),
        FsmTask::HandleEvent(d) if d == vec![1]));
    let from = caller();
    let call =
        FsmMessage::Call { from: from.caller, reference: from.reference, request: vec![2] };
    assert!(matches!(dispatch(call), FsmTask::HandleCall(f, r) if f == from && r == vec![2]));
    let reply = FsmMessage::Reply { reference: from.reference, reply: vec![] };
    assert!(matches!(dispatch(reply), FsmTask::Nothing));
    assert!(matches!(dispatch(FsmMessage::StateTimeout),
        FsmTask::SendSelf(FsmMessage::Event(d)) if d == b"state_timeout"));
    assert!(matches!(dispatch(FsmMessage::GenericTimeout("né".into())),
        FsmTask::SendSelf(FsmMessage::Event(d)) if d == "né".as_bytes()));

    let mut atoms = AtomTable::new();
    assert!(matches!(read_task(&mut atoms, &vec![9, 9]), FsmTask::Nothing));
    assert!(matches!(read_task(&mut atoms, &send_event(vec![8])),
        FsmTask::HandleEvent(d) if d == vec![8]));
}

#[test]
fn messages_as_bytes() {
    let mut node = LocalNode::new();
    let pid = Pid::remote(&mut node.atoms, "a@b", 300, 1);
    let bytes = call_request(&node.atoms, pid, Ref::from_raw(128), vec![7, 7]);
    assert_eq!(
        bytes,
        postcard::to_allocvec(&(1u32, ("a@b", 300u64, 1u32), 128u64, vec![7u8, 7])).unwrap()
    );
    match FsmMessage::decode(&mut node.atoms, &bytes) {
        Some(FsmMessage::Call { from, reference, request }) => {
            assert_eq!((from, reference, request), (pid, Ref::from_raw(128), vec![7, 7]));
        }
        _ => panic!("a call expected"),
    }
    let from = types::From::new(pid, Ref::from_raw(1));
    assert_eq!(
        send_reply(from, vec![5]),
        postcard::to_allocvec(&(2u32, 1u64, vec![5u8])).unwrap()
    );
    assert_eq!(FsmMessage::StateTimeout.encode(&node.atoms), vec![3]);
    assert!(FsmMessage::decode(&mut node.atoms, &[5]).is_none());
}

#[test]
fn callers_read_replies() {
    let reply = FsmMessage::Reply { reference: Ref::from_raw(1), reply: vec![3] };
    assert_eq!(call_outcome(Received::Message(Some(reply))).unwrap(), vec![3]);
    assert!(matches!(call_outcome(Received::Message(None)),
        Err(CallError::DecodeError(e)) if e == "unexpected message type"));
    assert!(matches!(call_outcome(Received::Message(Some(FsmMessage::StateTimeout))),
        Err(CallError::DecodeError(_))));
    assert!(matches!(call_outcome(Received::Closed),
        Err(CallError::Stopped(ExitReason::Normal))));
    assert!(matches!(call_outcome(Received::TimedOut), Err(CallError::Timeout)));
    let mut atoms = AtomTable::new();
    let from = types::From::new(caller().caller, Ref::from_raw(1));
    assert_eq!(read_reply(&mut atoms, &send_reply(from, vec![3, 4])).unwrap(), vec![3, 4]);
    assert!(matches!(read_reply(&mut atoms, &send_event(vec![3])),
        Err(CallError::DecodeError(e)) if e == "unexpected message type"));
    assert!(matches!(read_reply(&mut atoms, &vec![9]), Err(CallError::DecodeError(_))));
    let pid = caller().caller;
    assert!(send_event_outcome(pid, Ok(())).is_ok());
    assert!(matches!(send_event_outcome(pid, Err(SendError::MailboxFull)),
        Err(SendEventError::ProcessNotFound(p)) if p == pid));
}

#[test]
fn machine_errors_as_text() {
    let mut node = LocalNode::new();
    let pid = Pid::new(&mut node);
    assert_eq!(StartError::Stop(ExitReason::error("x")).display(), "init stopped: error: x");
    assert_eq!(StartError::Ignore.display(), "init ignored");
    assert_eq!(StartError::SpawnFailed.display(), "spawn failed");
    assert_eq!(CallError::ProcessNotFound(pid).display(&node), "process not found: Pid<0.0.0>");
    assert_eq!(CallError::Timeout.display(&node), "timeout");
    assert_eq!(CallError::Stopped(ExitReason::Killed).display(&node), "fsm stopped: killed");
    assert_eq!(CallError::DecodeError("d".into()).display(&node), "decode error: d");
    assert_eq!(CallError::InvalidState.display(&node), "invalid state");
    assert_eq!(
        SendEventError::ProcessNotFound(pid).display(&node),
        "process not found: Pid<0.0.0>"
    );
    assert_eq!(SendEventError::EncodeError.display(&node), "encode error");
}

#[test]
fn traffic_light_cycle() {
    let mut fsm = red();
    let mut cycles = 0;
    for _ in 0..3 {
        let next = match fsm.state {
            Light::Red => Light::Green,
            Light::Green => Light::Yellow,
            Light::Yellow => {
                cycles += 1;
                Light::Red
            }
        };
        let _: Effects = fsm.handle_event_result(EventResult::next_state(next), &vec![]);
    }
    assert_eq!((fsm.state, cycles), (Light::Red, 1));
}
