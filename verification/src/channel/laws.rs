//! What holds of channels across requests.
use crate::base::pid::Pid;
use crate::channel::handler::{erased, ChannelHandler};
use crate::channel::server::{
    first_handler, handler_place, has_handler, is_left, Channels, LeftChannel,
};
use crate::channel::socket::{uuid_text, Socket, SocketModel};
use crate::channel::types::{
    is_broadcast, not_except, pattern_matches, wildcard_part, ChannelReply, ChannelReplyModel,
    GroupMessage, HandleResult, ReplyStatus, TerminateReason,
};
use crate::text::numeral;
use vstd::prelude::*;

verus! {

/// To leave a topic undoes a join, and touches no other topic.
pub proof fn leave_undoes_join(
    channels: Channels,
    topic: Seq<char>,
    socket: SocketModel<Seq<u8>>,
    other: Seq<char>,
)
    requires
        !channels.contains_key(topic),
        other != topic,
    ensures
        channels.insert(topic, socket).contains_key(topic),
        channels.insert(topic, socket).remove(topic) == channels,
        channels.insert(topic, socket).contains_key(other) == channels.contains_key(other),
        channels.remove(topic).contains_key(other) == channels.contains_key(other),
{
    assert(channels.insert(topic, socket).remove(topic) =~= channels);
}

/// A topic has one handler at most: the first of those that accept it.
pub proof fn handler_is_first<H: ChannelHandler>(handlers: Seq<H>, topic: Seq<char>, i: int)
    requires
        first_handler(handlers, topic, i),
    ensures
        handler_place(handlers, topic) == Some(i),
{
    assert(has_handler(handlers, topic));
    let k = choose|k: int| first_handler(handlers, topic, k);
    assert(first_handler(handlers, topic, k));
    assert(k == i);
}

/// A message for all members but one reaches each member except that one.
pub proof fn broadcast_leaves_out_one(members: Seq<Pid>, except: Option<Pid>, pid: Pid)
    ensures
        members.filter(not_except(except)).contains(pid) <==> members.contains(pid) && except
            != Some(pid),
{
    let some = members.filter(not_except(except));
    if some.contains(pid) {
        let i = choose|i: int| 0 <= i < some.len() && some[i] == pid;
        members.lemma_filter_pred(not_except(except), i);
        members.lemma_filter_contains_rev(not_except(except), pid);
    }
    if members.contains(pid) && except != Some(pid) {
        let i = choose|i: int| 0 <= i < members.len() && members[i] == pid;
        members.lemma_filter_contains(not_except(except), i);
    }
}

/// A pattern without a `*` at its end is matched by itself alone, and the
/// pattern `*` by every topic.
pub proof fn pattern_edges(pattern: Seq<char>, topic: Seq<char>)
    ensures
        pattern.len() == 0 || pattern.last() != '*' ==> (pattern_matches(pattern, topic)
            <==> pattern == topic),
        pattern_matches(seq!['*'], topic),
        pattern_matches(pattern.push('*'), pattern + topic),
{
    assert(seq!['*'].drop_last() =~= Seq::empty());
    assert(pattern.push('*').drop_last() =~= pattern);
    assert((pattern + topic).subrange(0, pattern.len() as int) =~= pattern);
}

/// A broadcast is a push to the group of the topic, with the topic, the event and
/// the very payload that were given.
pub proof fn broadcast_carries_payload(
    msg: GroupMessage,
    topic: Seq<char>,
    except: Option<Pid>,
    event: Seq<char>,
    payload: Seq<u8>,
)
    ensures
        is_broadcast(msg, topic, except, event, payload) <==> {
            &&& msg.group@ == "channel:"@ + topic
            &&& msg.except == except
            &&& msg.message matches ChannelReply::Push { topic: t, event: e, payload: p }
            &&& t@ == topic
            &&& e@ == event
            &&& p@ == payload
        },
{
}

/// Broadcasts that differ in topic, event, payload or who is left out are different
/// messages.
pub proof fn different_broadcasts_differ(
    a: GroupMessage,
    b: GroupMessage,
    topic: Seq<char>,
    except: Option<Pid>,
    event: Seq<char>,
    payload: Seq<u8>,
    other_topic: Seq<char>,
    other_except: Option<Pid>,
    other_event: Seq<char>,
    other_payload: Seq<u8>,
)
    requires
        is_broadcast(a, topic, except, event, payload),
        is_broadcast(b, other_topic, other_except, other_event, other_payload),
        topic != other_topic || except != other_except || event != other_event || payload
            != other_payload,
    ensures
        a != b,
{
}

/// What a reply says is what is in it, every part of it.
pub proof fn replies_are_read_whole(reply: ChannelReply, model: ChannelReplyModel)
    ensures
        reply.deep_view() == model <==> match (reply, model) {
            (
                ChannelReply::JoinOk { msg_ref, payload },
                ChannelReplyModel::JoinOk { msg_ref: r, payload: p },
            ) => {
                &&& msg_ref@ == r
                &&& payload is Some == p is Some
                &&& payload is Some ==> payload->Some_0@ == p->Some_0
            },
            (
                ChannelReply::JoinError { msg_ref, reason },
                ChannelReplyModel::JoinError { msg_ref: r, reason: e },
            ) => msg_ref@ == r && reason@ == e,
            (
                ChannelReply::Reply { msg_ref, status, payload },
                ChannelReplyModel::Reply { msg_ref: r, status: s, payload: p },
            ) => msg_ref@ == r && status@ == s && payload@ == p,
            (
                ChannelReply::Push { topic, event, payload },
                ChannelReplyModel::Push { topic: t, event: e, payload: p },
            ) => topic@ == t && event@ == e && payload@ == p,
            _ => false,
        },
{
}

/// What a connection is, is what is in it, every part of it.
pub proof fn connections_are_read_whole<A: DeepView>(a: Socket<A>, b: Socket<A>)
    requires
        a.deep_view() == b.deep_view(),
    ensures
        a.pid == b.pid,
        a.topic@ == b.topic@,
        a.join_ref@ == b.join_ref@,
        a.assigns.deep_view() == b.assigns.deep_view(),
{
}

/// The handler of a topic accepts it, and none before it does. There is none
/// exactly where none accepts it.
pub proof fn handler_accepts_topic<H: ChannelHandler>(
    handlers: Seq<H>,
    topic: Seq<char>,
    i: int,
)
    ensures
        handler_place(handlers, topic) == Some(i) <==> 0 <= i < handlers.len()
            && handlers[i].accepts(topic) && (forall|j: int|
            0 <= j < i ==> !(#[trigger] handlers[j]).accepts(topic)),
        handler_place(handlers, topic) is None <==> (forall|j: int|
            0 <= j < handlers.len() ==> !(#[trigger] handlers[j]).accepts(topic)),
{
    if has_handler(handlers, topic) {
        let k = choose|k: int| 0 <= k < handlers.len() && (#[trigger] handlers[k]).accepts(topic);
        lemma_has_first(handlers, topic, k);
        let f = choose|f: int| first_handler(handlers, topic, f);
        assert(first_handler(handlers, topic, f));
        assert(handlers[f].accepts(topic));
    }
}

proof fn lemma_has_first<H: ChannelHandler>(handlers: Seq<H>, topic: Seq<char>, k: int)
    requires
        0 <= k < handlers.len(),
        handlers[k].accepts(topic),
    ensures
        exists|i: int| first_handler(handlers, topic, i),
    decreases k,
{
    if exists|j: int| 0 <= j < k && (#[trigger] handlers[j]).accepts(topic) {
        let j = choose|j: int| 0 <= j < k && (#[trigger] handlers[j]).accepts(topic);
        lemma_has_first(handlers, topic, j);
    } else {
        assert(first_handler(handlers, topic, k));
    }
}

/// A channel that ended is told with its handler, its connection, the reason, and
/// the group of its topic.
pub proof fn left_channel_is_told_whole<H: ChannelHandler>(
    left: LeftChannel,
    handlers: Seq<H>,
    topic: Seq<char>,
    socket: SocketModel<Seq<u8>>,
    reason: TerminateReason,
)
    ensures
        is_left(left, handlers, topic, socket, reason) <==> {
            &&& left.handler is Some ==> handler_place(handlers, topic) == Some(
                left.handler->Some_0 as int,
            )
            &&& left.handler is None ==> handler_place(handlers, topic) is None
            &&& left.socket.pid == socket.pid
            &&& left.socket.topic@ == socket.topic
            &&& left.socket.join_ref@ == socket.join_ref
            &&& left.socket.assigns@ == socket.assigns
            &&& left.reason == reason
            &&& left.group@ == "channel:"@ + topic
        },
{
    assert(left.socket.assigns.deep_view() =~= left.socket.assigns@);
}

/// A pattern that ends in `*` is matched by exactly the topics that start with
/// what stands before the `*`, and what follows in the topic stands for it.
pub proof fn pattern_matches_prefix(pattern: Seq<char>, topic: Seq<char>)
    requires
        pattern.len() > 0,
        pattern[pattern.len() - 1] == '*',
    ensures
        pattern_matches(pattern, topic) <==> topic.len() >= pattern.len() - 1 && (forall|i: int|
            0 <= i < pattern.len() - 1 ==> #[trigger] topic[i] == pattern[i]),
        wildcard_part(pattern, topic) is Some <==> pattern_matches(pattern, topic),
        pattern_matches(pattern, topic) ==> topic == pattern.subrange(0, pattern.len() - 1)
            + wildcard_part(pattern, topic)->Some_0,
{
    let prefix = pattern.drop_last();
    if pattern_matches(pattern, topic) {
        assert forall|i: int| 0 <= i < pattern.len() - 1 implies #[trigger] topic[i]
            == pattern[i] by {
            assert(prefix[i] == topic.subrange(0, prefix.len() as int)[i]);
        }
        assert(topic =~= pattern.subrange(0, pattern.len() - 1) + topic.skip(pattern.len() - 1));
    }
    if topic.len() >= pattern.len() - 1 && (forall|i: int|
        0 <= i < pattern.len() - 1 ==> #[trigger] topic[i] == pattern[i]) {
        assert(prefix =~= topic.subrange(0, prefix.len() as int));
    }
}

/// A pattern without a `*` at its end leaves nothing for one.
pub proof fn plain_pattern_has_no_wildcard(pattern: Seq<char>, topic: Seq<char>)
    requires
        pattern.len() == 0 || pattern[pattern.len() - 1] != '*',
    ensures
        wildcard_part(pattern, topic) is None,
{
}

/// The texts of the statuses.
pub proof fn status_texts()
    ensures
        ReplyStatus::Okay.text() == "ok"@,
        ReplyStatus::Error.text() == "error"@,
{
}

/// The text of an identifier has the time and the running number.
pub proof fn uuid_has_time_and_number(timestamp: u64, count: u64)
    ensures
        uuid_text(timestamp, count) == numeral(timestamp as nat, 16) + "-"@ + numeral(
            count as nat,
            16,
        ),
{
}

/// What a handler says goes out with the payload, the event and the status that it
/// gave, to those that it named. Where its payload could not be encoded, nothing
/// goes out.
pub proof fn handler_results_go_out_whole(result: HandleResult<Option<Vec<u8>>>)
    ensures
        match result {
            HandleResult::NoReply => erased(result) is NoReply,
            HandleResult::Reply { status: s, payload: Some(bytes) } => erased(
                result,
            ) matches HandleResult::ReplyRaw { status, payload } && status == s && payload
                == bytes,
            HandleResult::ReplyRaw { status: s, payload: bytes } => erased(
                result,
            ) matches HandleResult::ReplyRaw { status, payload } && status == s && payload
                == bytes,
            HandleResult::Broadcast { event: e, payload: Some(bytes) } => erased(
                result,
            ) matches HandleResult::Broadcast { event, payload } && event == e && payload == bytes,
            HandleResult::BroadcastFrom { event: e, payload: Some(bytes) } => erased(
                result,
            ) matches HandleResult::BroadcastFrom { event, payload } && event == e && payload
                == bytes,
            HandleResult::Push { event: e, payload: Some(bytes) } => erased(
                result,
            ) matches HandleResult::PushRaw { event, payload } && event == e && payload == bytes,
            HandleResult::PushRaw { event: e, payload: bytes } => erased(
                result,
            ) matches HandleResult::PushRaw { event, payload } && event == e && payload == bytes,
            HandleResult::Stop { reason: why } => erased(result) matches HandleResult::Stop {
                reason,
            } && reason == why,
            _ => erased(result) is NoReply,
        },
{
}

} // verus!
