//! Handlers of topics, with the types of their payloads put aside.
use crate::channel::socket::Socket;
use crate::channel::types::{
    pattern_matches, topic_matches, HandleResult, JoinError, JoinResult, PayloadFormat,
};
use crate::text::join2;
use vstd::prelude::*;

verus! {

/// A handler of topics.
pub trait ChannelHandler {
    /// Whether the handler is one for the topic.
    spec fn accepts(&self, topic: Seq<char>) -> bool;

    /// Whether the handler is one for the topic.
    fn matches(&self, topic: &str) -> (r: bool)
        ensures
            r == self.accepts(topic@),
    ;
}

/// A handler of the topics that match a pattern. `C` does the handling.
#[derive(Debug)]
pub struct TypedChannelHandler<C> {
    /// The pattern.
    pub pattern: String,
    /// What does the handling.
    pub channel: C,
}

impl<C> TypedChannelHandler<C> {
    /// A handler of the topics that match the pattern.
    pub fn new(pattern: &str, channel: C) -> (r: Self)
        ensures
            r.pattern@ == pattern@,
            r.channel == channel,
    {
        TypedChannelHandler { pattern: pattern.to_owned(), channel }
    }

    /// The pattern.
    pub fn topic_pattern(&self) -> (r: &str)
        ensures
            r@ == self.pattern@,
    {
        self.pattern.as_str()
    }
}

impl<C> ChannelHandler for TypedChannelHandler<C> {
    open spec fn accepts(&self, topic: Seq<char>) -> bool {
        pattern_matches(self.pattern@, topic)
    }

    fn matches(&self, topic: &str) -> (r: bool) {
        topic_matches(self.pattern.as_str(), topic)
    }
}

/// A join denied since its payload could not be read.
pub fn invalid_payload(failure: &str) -> (r: JoinError)
    ensures
        r.reason@ == "invalid payload: "@ + failure@,
        r.details is None,
{
    JoinError::new(join2("invalid payload: ", failure).as_str())
}

/// A connection with its encoded state, if the state could be encoded.
fn erased_socket(socket: Socket<Result<Vec<u8>, String>>) -> (r: Result<
    Socket<Vec<u8>>,
    JoinError,
>)
    ensures
        match socket.assigns {
            Ok(assigns) => r == Ok::<Socket<Vec<u8>>, JoinError>(
                Socket {
                    pid: socket.pid,
                    topic: socket.topic,
                    join_ref: socket.join_ref,
                    assigns,
                },
            ),
            Err(failure) => r matches Err(e) && e.reason@ == "failed to serialize assigns: "@
                + failure@ && e.details is None,
        },
{
    match socket.assigns {
        Ok(assigns) => Ok(
            Socket { pid: socket.pid, topic: socket.topic, join_ref: socket.join_ref, assigns },
        ),
        Err(failure) => Err(
            JoinError::new(join2("failed to serialize assigns: ", failure.as_str()).as_str()),
        ),
    }
}

/// What a join comes to, where the state is the outcome of encoding it.
pub fn erase_join(result: JoinResult<Result<Vec<u8>, String>>) -> (r: Result<
    (Socket<Vec<u8>>, Option<Vec<u8>>),
    JoinError,
>)
    ensures
        match result {
            JoinResult::Okay(socket) => match socket.assigns {
                Ok(assigns) => {
                    &&& r matches Ok((erased, reply))
                    &&& erased == (Socket {
                        pid: socket.pid,
                        topic: socket.topic,
                        join_ref: socket.join_ref,
                        assigns,
                    })
                    &&& reply is None
                },
                Err(failure) => r matches Err(e) && e.reason@ == "failed to serialize assigns: "@
                    + failure@ && e.details is None,
            },
            JoinResult::OkReply(socket, said) => match socket.assigns {
                Ok(assigns) => {
                    &&& r matches Ok((erased, reply))
                    &&& erased == (Socket {
                        pid: socket.pid,
                        topic: socket.topic,
                        join_ref: socket.join_ref,
                        assigns,
                    })
                    &&& reply == Some(said)
                },
                Err(failure) => r matches Err(e) && e.reason@ == "failed to serialize assigns: "@
                    + failure@ && e.details is None,
            },
            JoinResult::Error(e) => r == Err::<(Socket<Vec<u8>>, Option<Vec<u8>>), JoinError>(e),
        },
{
    match result {
        JoinResult::Okay(socket) => match erased_socket(socket) {
            Ok(erased) => Ok((erased, None)),
            Err(e) => Err(e),
        },
        JoinResult::OkReply(socket, said) => match erased_socket(socket) {
            Ok(erased) => Ok((erased, Some(said))),
            Err(e) => Err(e),
        },
        JoinResult::Error(e) => Err(e),
    }
}

/// What a handler is called with: what came, and the connection with its state,
/// where both could be read. Otherwise the handler is not called.
pub fn prepare<E, A>(came: Option<E>, assigns: Option<A>, socket: &Socket<Vec<u8>>) -> (r: Option<
    (E, Socket<A>),
>)
    ensures
        match (came, assigns) {
            (Some(e), Some(a)) => r == Some(
                (
                    e,
                    Socket {
                        pid: socket.pid,
                        topic: socket.topic,
                        join_ref: socket.join_ref,
                        assigns: a,
                    },
                ),
            ),
            _ => r is None,
        },
{
    match (came, assigns) {
        (Some(e), Some(a)) => Some((e, socket.retyped(a))),
        _ => None,
    }
}

/// What a handler's result comes to, where each payload is the outcome of
/// encoding it. One that could not be encoded comes to nothing.
pub open spec fn erased(result: HandleResult<Option<Vec<u8>>>) -> HandleResult<Vec<u8>> {
    match result {
        HandleResult::NoReply => HandleResult::NoReply,
        HandleResult::Reply { status, payload } => match payload {
            Some(payload) => HandleResult::ReplyRaw { status, payload },
            None => HandleResult::NoReply,
        },
        HandleResult::ReplyRaw { status, payload } => HandleResult::ReplyRaw { status, payload },
        HandleResult::Broadcast { event, payload } => match payload {
            Some(payload) => HandleResult::Broadcast { event, payload },
            None => HandleResult::NoReply,
        },
        HandleResult::BroadcastFrom { event, payload } => match payload {
            Some(payload) => HandleResult::BroadcastFrom { event, payload },
            None => HandleResult::NoReply,
        },
        HandleResult::Push { event, payload } => match payload {
            Some(payload) => HandleResult::PushRaw { event, payload },
            None => HandleResult::NoReply,
        },
        HandleResult::PushRaw { event, payload } => HandleResult::PushRaw { event, payload },
        HandleResult::Stop { reason } => HandleResult::Stop { reason },
    }
}

/// Takes in what a handler did: the connection gets the new state, where it
/// could be encoded, and the result is returned with its payload encoded.
pub fn finish(
    socket: &mut Socket<Vec<u8>>,
    new_assigns: Option<Vec<u8>>,
    result: HandleResult<Option<Vec<u8>>>,
) -> (r: HandleResult<Vec<u8>>)
    ensures
        r == erased(result),
        final(socket).pid == old(socket).pid,
        final(socket).topic == old(socket).topic,
        final(socket).join_ref == old(socket).join_ref,
        final(socket).assigns == (match new_assigns {
            Some(assigns) => assigns,
            None => old(socket).assigns,
        }),
{
    if let Some(assigns) = new_assigns {
        socket.assigns = assigns;
    }
    match result {
        HandleResult::NoReply => HandleResult::NoReply,
        HandleResult::Reply { status, payload } => match payload {
            Some(payload) => HandleResult::ReplyRaw { status, payload },
            None => HandleResult::NoReply,
        },
        HandleResult::ReplyRaw { status, payload } => HandleResult::ReplyRaw { status, payload },
        HandleResult::Broadcast { event, payload } => match payload {
            Some(payload) => HandleResult::Broadcast { event, payload },
            None => HandleResult::NoReply,
        },
        HandleResult::BroadcastFrom { event, payload } => match payload {
            Some(payload) => HandleResult::BroadcastFrom { event, payload },
            None => HandleResult::NoReply,
        },
        HandleResult::Push { event, payload } => match payload {
            Some(payload) => HandleResult::PushRaw { event, payload },
            None => HandleResult::NoReply,
        },
        HandleResult::PushRaw { event, payload } => HandleResult::PushRaw { event, payload },
        HandleResult::Stop { reason } => HandleResult::Stop { reason },
    }
}

/// A payload in the format asked for, from what came of encoding it in each. An
/// encoding that failed, or that is not at hand, is `None`.
pub fn transcoded(
    postcard: Option<Vec<u8>>,
    json: Option<Vec<u8>>,
    format: PayloadFormat,
) -> (r: Option<Vec<u8>>)
    ensures
        r == (match format {
            PayloadFormat::Postcard => postcard,
            PayloadFormat::Json => json,
        }),
{
    match format {
        PayloadFormat::Postcard => postcard,
        PayloadFormat::Json => json,
    }
}

} // verus!
