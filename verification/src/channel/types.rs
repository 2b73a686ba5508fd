//! What channel handlers and clients say to each other.
use crate::base::pid::Pid;
use crate::channel::socket::Socket;
use crate::table::Table;
use crate::text::{join2, same_text, strip_last, strip_prefix};
use vstd::prelude::*;

verus! {

/// How an attempt to join went.
pub enum JoinResult<A> {
    /// It succeeded.
    Okay(Socket<A>),
    /// It succeeded, and something is to be said back.
    OkReply(Socket<A>, Vec<u8>),
    /// It was denied.
    Error(JoinError),
}

/// Why a join was denied.
pub struct JoinError {
    /// The reason.
    pub reason: String,
    /// More on it, by name.
    pub details: Option<Table<String, String>>,
}

impl JoinError {
    /// An error with a reason.
    pub fn new(reason: &str) -> (r: Self)
        ensures
            r.reason@ == reason@,
            r.details is None,
    {
        JoinError { reason: reason.to_owned(), details: None }
    }

    /// The error with details.
    pub fn with_details(self, details: Table<String, String>) -> (r: Self)
        ensures
            r.reason == self.reason,
            r.details == Some(details),
    {
        JoinError { reason: self.reason, details: Some(details) }
    }
}

/// What is to be done about a message of a client.
#[derive(Debug)]
#[allow(inconsistent_fields)]
pub enum HandleResult<O> {
    /// Nothing.
    NoReply,
    /// Reply to the client.
    Reply {
        /// How it went.
        status: ReplyStatus,
        /// The reply.
        payload: O,
    },
    /// Reply to the client with what is encoded already.
    ReplyRaw {
        /// How it went.
        status: ReplyStatus,
        /// The reply.
        payload: Vec<u8>,
    },
    /// Tell all subscribers of the topic.
    Broadcast {
        /// The event.
        event: String,
        /// What is told.
        payload: O,
    },
    /// Tell all subscribers of the topic but the client.
    BroadcastFrom {
        /// The event.
        event: String,
        /// What is told.
        payload: O,
    },
    /// Tell the client.
    Push {
        /// The event.
        event: String,
        /// What is told.
        payload: O,
    },
    /// Tell the client what is encoded already.
    PushRaw {
        /// The event.
        event: String,
        /// What is told.
        payload: Vec<u8>,
    },
    /// End the channel.
    Stop {
        /// Why.
        reason: String,
    },
}

/// How a request went.
#[derive(Clone, Copy, Debug, PartialEq, Eq, Structural)]
pub enum ReplyStatus {
    /// Well.
    Okay,
    /// Not well.
    Error,
}

impl ReplyStatus {
    /// The status as text.
    pub open spec fn text(self) -> Seq<char> {
        match self {
            ReplyStatus::Okay => "ok"@,
            ReplyStatus::Error => "error"@,
        }
    }

    /// The status as text.
    pub fn display(&self) -> (r: String)
        ensures
            r@ == self.text(),
    {
        match self {
            ReplyStatus::Okay => "ok".to_owned(),
            ReplyStatus::Error => "error".to_owned(),
        }
    }
}

/// A message of a channel.
#[derive(Debug)]
pub struct Message {
    /// The topic.
    pub topic: String,
    /// The event.
    pub event: String,
    /// What is said, encoded.
    pub payload: Vec<u8>,
    /// The reference by which a reply is matched.
    pub msg_ref: Option<String>,
    /// The reference of the join.
    pub join_ref: Option<String>,
}

impl Message {
    /// A message without references.
    pub fn new(topic: &str, event: &str, payload: Vec<u8>) -> (r: Self)
        ensures
            r.topic@ == topic@,
            r.event@ == event@,
            r.payload == payload,
            r.msg_ref is None,
            r.join_ref is None,
    {
        Message {
            topic: topic.to_owned(),
            event: event.to_owned(),
            payload,
            msg_ref: None,
            join_ref: None,
        }
    }

    /// The message with the reference by which a reply is matched.
    pub fn with_ref(self, msg_ref: String) -> (r: Self)
        ensures
            r == (Message { msg_ref: Some(msg_ref), ..self }),
    {
        Message { msg_ref: Some(msg_ref), ..self }
    }

    /// The message with the reference of the join.
    pub fn with_join_ref(self, join_ref: String) -> (r: Self)
        ensures
            r == (Message { join_ref: Some(join_ref), ..self }),
    {
        Message { join_ref: Some(join_ref), ..self }
    }
}

/// Why a channel ends.
#[derive(Debug)]
pub enum TerminateReason {
    /// A normal shutdown.
    Normal,
    /// The client left.
    Left,
    /// The connection was closed.
    Closed,
    /// A shutdown with a reason.
    Shutdown(String),
    /// An error.
    Error(String),
}

impl Clone for TerminateReason {
    fn clone(&self) -> (r: Self)
        ensures
            r == *self,
    {
        match self {
            TerminateReason::Normal => TerminateReason::Normal,
            TerminateReason::Left => TerminateReason::Left,
            TerminateReason::Closed => TerminateReason::Closed,
            TerminateReason::Shutdown(reason) => TerminateReason::Shutdown(reason.clone()),
            TerminateReason::Error(reason) => TerminateReason::Error(reason.clone()),
        }
    }
}

/// Whether a topic matches a pattern: a pattern that ends in `*` is matched by
/// every topic that starts with the rest of it, any other by itself alone.
pub open spec fn pattern_matches(pattern: Seq<char>, topic: Seq<char>) -> bool {
    if pattern.len() > 0 && pattern.last() == '*' {
        pattern.drop_last().is_prefix_of(topic)
    } else {
        pattern == topic
    }
}

/// Whether a topic matches a pattern.
pub fn topic_matches(pattern: &str, topic: &str) -> (r: bool)
    ensures
        r == pattern_matches(pattern@, topic@),
{
    match strip_last(pattern, '*') {
        Some(prefix) => {
            assert(pattern@.drop_last() =~= prefix@);
            match strip_prefix(topic, prefix) {
                Some(rest) => {
                    assert(prefix@ =~= topic@.subrange(0, prefix@.len() as int));
                    true
                },
                None => false,
            }
        },
        None => same_text(pattern, topic),
    }
}

/// What of a topic stands for the `*` of a pattern.
pub open spec fn wildcard_part(pattern: Seq<char>, topic: Seq<char>) -> Option<Seq<char>> {
    if pattern.len() > 0 && pattern.last() == '*' && pattern_matches(pattern, topic) {
        Some(topic.skip(pattern.len() - 1))
    } else {
        None
    }
}

/// What of a topic stands for the `*` of a pattern, where the pattern has one
/// and the topic matches it.
pub fn topic_wildcard<'a>(pattern: &str, topic: &'a str) -> (r: Option<&'a str>)
    ensures
        match r {
            Some(part) => wildcard_part(pattern@, topic@) == Some(part@),
            None => wildcard_part(pattern@, topic@) is None,
        },
{
    match strip_last(pattern, '*') {
        Some(prefix) => {
            assert(pattern@.drop_last() =~= prefix@);
            let part = strip_prefix(topic, prefix);
            proof {
                if let Some(rest) = part {
                    assert(prefix@ =~= topic@.subrange(0, prefix@.len() as int));
                    assert(topic@.skip(prefix@.len() as int) =~= rest@);
                }
            }
            part
        },
        None => None,
    }
}

/// A topic that matches a pattern with a `*` is the pattern with its part in
/// place of the `*`.
pub proof fn wildcard_completes_pattern(pattern: Seq<char>, topic: Seq<char>)
    requires
        wildcard_part(pattern, topic) is Some,
    ensures
        topic == pattern.drop_last() + wildcard_part(pattern, topic)->Some_0,
{
    assert(topic =~= pattern.drop_last() + topic.skip(pattern.len() - 1));
}

/// A payload's encoding.
#[derive(Clone, Copy, Debug, PartialEq, Eq, Structural)]
pub enum PayloadFormat {
    /// Text for web transports.
    Json,
    /// The compact binary form.
    Postcard,
}

/// What a client's connection is told to do.
#[derive(Debug)]
pub enum ChannelMessage {
    /// Join a topic.
    Join {
        /// The topic.
        topic: String,
        /// What the handler is to know, encoded.
        payload: Vec<u8>,
        /// The client.
        client_pid: Pid,
        /// The reference by which the reply is matched.
        msg_ref: String,
    },
    /// Take an event.
    Event {
        /// The topic.
        topic: String,
        /// The event.
        event: String,
        /// What the event carries, encoded.
        payload: Vec<u8>,
        /// The reference by which the reply is matched.
        msg_ref: String,
    },
    /// Leave a topic.
    Leave {
        /// The topic.
        topic: String,
    },
    /// Tell all subscribers of a topic.
    Broadcast {
        /// The topic.
        topic: String,
        /// The event.
        event: String,
        /// What is told, encoded.
        payload: Vec<u8>,
    },
}

/// What a client is told.
#[derive(Debug)]
#[allow(inconsistent_fields)]
pub enum ChannelReply {
    /// The join succeeded.
    JoinOk {
        /// The reference of the request.
        msg_ref: String,
        /// What the handler says, if anything.
        payload: Option<Vec<u8>>,
    },
    /// The join failed.
    JoinError {
        /// The reference of the request.
        msg_ref: String,
        /// Why.
        reason: String,
    },
    /// The reply to an event.
    Reply {
        /// The reference of the request.
        msg_ref: String,
        /// How it went: `ok` or `error`.
        status: String,
        /// The reply.
        payload: Vec<u8>,
    },
    /// Something that was not asked for.
    Push {
        /// The topic.
        topic: String,
        /// The event.
        event: String,
        /// What is told.
        payload: Vec<u8>,
    },
}

/// What a reply says.
#[allow(inconsistent_fields)]
pub enum ChannelReplyModel {
    JoinOk { msg_ref: Seq<char>, payload: Option<Seq<u8>> },
    JoinError { msg_ref: Seq<char>, reason: Seq<char> },
    Reply { msg_ref: Seq<char>, status: Seq<char>, payload: Seq<u8> },
    Push { topic: Seq<char>, event: Seq<char>, payload: Seq<u8> },
}

/// Bytes, where there are some.
pub open spec fn bytes_of(payload: Option<Vec<u8>>) -> Option<Seq<u8>> {
    match payload {
        Some(bytes) => Some(bytes@),
        None => None,
    }
}

impl DeepView for ChannelReply {
    type V = ChannelReplyModel;

    open spec fn deep_view(&self) -> ChannelReplyModel {
        match self {
            ChannelReply::JoinOk { msg_ref, payload } => ChannelReplyModel::JoinOk {
                msg_ref: msg_ref@,
                payload: bytes_of(*payload),
            },
            ChannelReply::JoinError { msg_ref, reason } => ChannelReplyModel::JoinError {
                msg_ref: msg_ref@,
                reason: reason@,
            },
            ChannelReply::Reply { msg_ref, status, payload } => ChannelReplyModel::Reply {
                msg_ref: msg_ref@,
                status: status@,
                payload: payload@,
            },
            ChannelReply::Push { topic, event, payload } => ChannelReplyModel::Push {
                topic: topic@,
                event: event@,
                payload: payload@,
            },
        }
    }
}

/// A message for the members of a process group, but one if so said.
#[derive(Debug)]
pub struct GroupMessage {
    /// The group.
    pub group: String,
    /// The member that is left out.
    pub except: Option<Pid>,
    /// The message.
    pub message: ChannelReply,
}

/// The group of the subscribers of a topic.
pub open spec fn channel_group_text(topic: Seq<char>) -> Seq<char> {
    "channel:"@ + topic
}

/// The group of the subscribers of a topic.
pub fn channel_group(topic: &str) -> (r: String)
    ensures
        r@ == channel_group_text(topic@),
{
    join2("channel:", topic)
}

/// What the subscribers of a topic are told.
pub open spec fn is_broadcast(
    msg: GroupMessage,
    topic: Seq<char>,
    except: Option<Pid>,
    event: Seq<char>,
    payload: Seq<u8>,
) -> bool {
    &&& msg.group@ == channel_group_text(topic)
    &&& msg.except == except
    &&& msg.message.deep_view() == (ChannelReplyModel::Push { topic, event, payload })
}

/// Selects all members but one, if so said.
pub open spec fn not_except(except: Option<Pid>) -> spec_fn(Pid) -> bool {
    |pid: Pid| except != Some(pid)
}

impl GroupMessage {
    /// The members of the group that the message goes to.
    pub fn recipients(&self, members: &Vec<Pid>) -> (r: Vec<Pid>)
        ensures
            r@ == members@.filter(not_except(self.except)),
    {
        let ghost wanted = not_except(self.except);
        let mut r: Vec<Pid> = Vec::new();
        let mut i: usize = 0;
        proof {
            reveal(Seq::filter);
            assert(r@ =~= members@.take(0).filter(wanted));
        }
        while i < members.len()
            invariant
                i <= members.len(),
                wanted == not_except(self.except),
                r@ == members@.take(i as int).filter(wanted),
            decreases members.len() - i,
        {
            proof {
                assert(members@.take(i + 1) =~= members@.take(i as int).push(members@[i as int]));
                members@.take(i as int).lemma_filter_push(members@[i as int], wanted);
            }
            let left_out = match self.except {
                Some(pid) => pid == members[i],
                None => false,
            };
            if !left_out {
                r.push(members[i]);
            }
            i += 1;
        }
        assert(members@.take(members@.len() as int) =~= members@);
        r
    }
}

fn push_reply(topic: &str, event: &str, payload: Vec<u8>) -> (r: ChannelReply)
    ensures
        r.deep_view() == (ChannelReplyModel::Push {
            topic: topic@,
            event: event@,
            payload: payload@,
        }),
{
    ChannelReply::Push { topic: topic.to_owned(), event: event.to_owned(), payload }
}

/// Tells the client of a connection: the process, and what it is told.
pub fn push<A>(socket: &Socket<A>, event: &str, payload: Vec<u8>) -> (r: (Pid, ChannelReply))
    ensures
        r.0 == socket.pid,
        r.1.deep_view() == (ChannelReplyModel::Push {
            topic: socket.topic@,
            event: event@,
            payload: payload@,
        }),
{
    (socket.pid, push_reply(socket.topic.as_str(), event, payload))
}

/// Tells all subscribers of the topic of a connection.
pub fn broadcast<A>(socket: &Socket<A>, event: &str, payload: Vec<u8>) -> (r: GroupMessage)
    ensures
        is_broadcast(r, socket.topic@, None, event@, payload@),
        r.group@ == "channel:"@ + socket.topic@,
        r.except == None::<Pid>,
        r.message matches ChannelReply::Push { topic: t, event: e, payload: p } && t@ == socket.topic@
            && e@ == event@ && p@ == payload@,
{
    broadcast_to_topic(socket.topic.as_str(), event, payload)
}

/// Tells all subscribers of the topic of a connection but its client.
pub fn broadcast_from<A>(socket: &Socket<A>, event: &str, payload: Vec<u8>) -> (r: GroupMessage)
    ensures
        is_broadcast(r, socket.topic@, Some(socket.pid), event@, payload@),
        r.group@ == "channel:"@ + socket.topic@,
        r.except == Some(socket.pid),
        r.message matches ChannelReply::Push { topic: t, event: e, payload: p } && t@ == socket.topic@
            && e@ == event@ && p@ == payload@,
{
    broadcast_to_topic_from(socket.topic.as_str(), socket.pid, event, payload)
}

/// Tells all subscribers of a topic.
pub fn broadcast_to_topic(topic: &str, event: &str, payload: Vec<u8>) -> (r: GroupMessage)
    ensures
        is_broadcast(r, topic@, None, event@, payload@),
        r.group@ == "channel:"@ + topic@,
        r.except == None::<Pid>,
        r.message matches ChannelReply::Push { topic: t, event: e, payload: p } && t@ == topic@
            && e@ == event@ && p@ == payload@,
{
    GroupMessage {
        group: channel_group(topic),
        except: None,
        message: push_reply(topic, event, payload),
    }
}

/// Tells all subscribers of a topic but one process.
pub fn broadcast_to_topic_from(topic: &str, from_pid: Pid, event: &str, payload: Vec<u8>) -> (r:
    GroupMessage)
    ensures
        is_broadcast(r, topic@, Some(from_pid), event@, payload@),
        r.group@ == "channel:"@ + topic@,
        r.except == Some(from_pid),
        r.message matches ChannelReply::Push { topic: t, event: e, payload: p } && t@ == topic@
            && e@ == event@ && p@ == payload@,
{
    GroupMessage {
        group: channel_group(topic),
        except: Some(from_pid),
        message: push_reply(topic, event, payload),
    }
}

} // verus!
