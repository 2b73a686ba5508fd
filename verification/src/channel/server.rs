//! The channels of one client.
use crate::base::pid::Pid;
use crate::channel::handler::ChannelHandler;
use crate::channel::socket::{uuid_text, Socket, SocketModel};
use crate::channel::types::{
    broadcast_to_topic, broadcast_to_topic_from, bytes_of, channel_group, channel_group_text,
    is_broadcast, ChannelReply, ChannelReplyModel, GroupMessage, HandleResult, JoinError,
    TerminateReason,
};
use crate::data::{next_number, Data};
use crate::table::Table;
use crate::text::join2;
use vstd::prelude::*;

verus! {

/// Whether the handler at the place is the first one for the topic.
pub open spec fn first_handler<H: ChannelHandler>(
    handlers: Seq<H>,
    topic: Seq<char>,
    i: int,
) -> bool {
    &&& 0 <= i < handlers.len()
    &&& handlers[i].accepts(topic)
    &&& forall|j: int| 0 <= j < i ==> !(#[trigger] handlers[j]).accepts(topic)
}

/// Whether there is a handler for the topic.
pub open spec fn has_handler<H: ChannelHandler>(handlers: Seq<H>, topic: Seq<char>) -> bool {
    exists|i: int| 0 <= i < handlers.len() && (#[trigger] handlers[i]).accepts(topic)
}

/// The place of the first handler for the topic, if there is one.
pub open spec fn handler_place<H: ChannelHandler>(handlers: Seq<H>, topic: Seq<char>) -> Option<
    int,
> {
    if has_handler(handlers, topic) {
        Some(choose|i: int| first_handler(handlers, topic, i))
    } else {
        None
    }
}

/// What follows a request to join.
pub enum JoinStep {
    /// It is answered.
    Answer(ChannelReply),
    /// The handler is asked, with a new connection.
    Ask {
        /// The place of the handler.
        handler: usize,
        /// The connection.
        socket: Socket<()>,
    },
}

/// A channel that ended. Its handler, if there is one, runs its terminate hook,
/// and the client leaves the group.
pub struct LeftChannel {
    /// The place of the handler.
    pub handler: Option<usize>,
    /// The connection.
    pub socket: Socket<Vec<u8>>,
    /// Why the channel ended.
    pub reason: TerminateReason,
    /// The group that the client leaves.
    pub group: String,
}

/// What follows an event.
pub struct EventOutcome {
    /// What the client is told.
    pub reply: Option<ChannelReply>,
    /// What the subscribers of the topic are told.
    pub broadcast: Option<GroupMessage>,
    /// The channel that ended.
    pub left: Option<LeftChannel>,
}

/// The connections of a client, by topic.
pub type Channels = Map<Seq<char>, SocketModel<Seq<u8>>>;

/// The channels of one client: the handlers, and the connections by topic.
pub struct ChannelServer<H: ChannelHandler> {
    client_pid: Pid,
    handlers: Vec<H>,
    channels: Table<String, Socket<Vec<u8>>>,
}

/// Whether a channel ended as said.
pub open spec fn is_left<H: ChannelHandler>(
    left: LeftChannel,
    handlers: Seq<H>,
    topic: Seq<char>,
    socket: SocketModel<Seq<u8>>,
    reason: TerminateReason,
) -> bool {
    &&& match left.handler {
        Some(i) => handler_place(handlers, topic) == Some(i as int),
        None => handler_place(handlers, topic) is None,
    }
    &&& left.socket.deep_view() == socket
    &&& left.reason == reason
    &&& left.group@ == channel_group_text(topic)
}

impl<H: ChannelHandler> ChannelServer<H> {
    /// The client.
    pub closed spec fn client(&self) -> Pid {
        self.client_pid
    }

    /// The handlers, in the order in which they were added.
    pub closed spec fn known_handlers(&self) -> Seq<H> {
        self.handlers@
    }

    /// The connections, by topic.
    pub closed spec fn joined(&self) -> Channels {
        self.channels.deep_view()
    }

    /// The channels of a client without handlers and connections.
    pub fn new(client_pid: Pid) -> (r: Self)
        ensures
            r.client() == client_pid,
            r.known_handlers() == Seq::<H>::empty(),
            r.joined() == Map::<Seq<char>, SocketModel<Seq<u8>>>::empty(),
    {
        ChannelServer { client_pid, handlers: Vec::new(), channels: Table::new() }
    }

    /// Adds a handler.
    pub fn add_handler(&mut self, handler: H)
        ensures
            final(self).client() == old(self).client(),
            final(self).known_handlers() == old(self).known_handlers().push(handler),
            final(self).joined() == old(self).joined(),
    {
        self.handlers.push(handler);
    }

    /// The place of the first handler for a topic, if there is one.
    pub fn find_handler(&self, topic: &str) -> (r: Option<usize>)
        ensures
            match r {
                Some(i) => {
                    &&& handler_place(self.known_handlers(), topic@) == Some(i as int)
                    &&& first_handler(self.known_handlers(), topic@, i as int)
                },
                None => handler_place(self.known_handlers(), topic@) is None,
            },
    {
        let mut i: usize = 0;
        while i < self.handlers.len()
            invariant
                i <= self.handlers.len(),
                forall|j: int| 0 <= j < i ==> !(#[trigger] self.handlers@[j]).accepts(topic@),
            decreases self.handlers.len() - i,
        {
            if self.handlers[i].matches(topic) {
                proof {
                    assert(first_handler(self.handlers@, topic@, i as int));
                    let k = choose|k: int| first_handler(self.handlers@, topic@, k);
                    assert(k == i);
                }
                return Some(i);
            }
            i += 1;
        }
        None
    }

    /// The handler at a place.
    pub fn handler(&self, i: usize) -> (r: &H)
        requires
            i < self.known_handlers().len(),
        ensures
            *r == self.known_handlers()[i as int],
    {
        &self.handlers[i]
    }

    /// Handles a request to join a topic, made at `timestamp` nanoseconds since
    /// the epoch. It is refused where the client has joined already, or where
    /// there is no handler for the topic. Otherwise the handler is asked.
    pub fn handle_join(&self, topic: &String, msg_ref: String, timestamp: u64, counter: &mut u64)
        -> (r: JoinStep)
        ensures
            if self.joined().contains_key(topic@) {
                &&& r matches JoinStep::Answer(reply)
                &&& reply.deep_view() == (ChannelReplyModel::JoinError {
                    msg_ref: msg_ref@,
                    reason: "already joined"@,
                })
                &&& *final(counter) == *old(counter)
            } else {
                match handler_place(self.known_handlers(), topic@) {
                    None => {
                        &&& r matches JoinStep::Answer(reply)
                        &&& reply.deep_view() == (ChannelReplyModel::JoinError {
                            msg_ref: msg_ref@,
                            reason: "no handler for topic: "@ + topic@,
                        })
                        &&& *final(counter) == *old(counter)
                    },
                    Some(place) => {
                        &&& r matches JoinStep::Ask { handler, socket }
                        &&& handler == place
                        &&& socket.pid == self.client()
                        &&& socket.topic@ == topic@
                        &&& socket.join_ref@ == uuid_text(timestamp, *old(counter))
                        &&& *final(counter) == next_number(*old(counter))
                    },
                }
            },
    {
        if self.channels.contains_key(topic) {
            return JoinStep::Answer(
                ChannelReply::JoinError { msg_ref, reason: "already joined".to_owned() },
            );
        }
        match self.find_handler(topic.as_str()) {
            Some(handler) => {
                let socket = Socket::with_pid(
                    self.client_pid,
                    topic.as_str(),
                    timestamp,
                    counter,
                );
                JoinStep::Ask { handler, socket }
            },
            None => JoinStep::Answer(
                ChannelReply::JoinError {
                    msg_ref,
                    reason: join2("no handler for topic: ", topic.as_str()),
                },
            ),
        }
    }

    /// Takes in what the handler said to a request to join. Where it agreed,
    /// the connection is kept, and the client joins the group that is returned.
    pub fn join_finished(
        &mut self,
        topic: String,
        msg_ref: String,
        outcome: Result<(Socket<Vec<u8>>, Option<Vec<u8>>), JoinError>,
    ) -> (r: (ChannelReply, Option<String>))
        ensures
            final(self).client() == old(self).client(),
            final(self).known_handlers() == old(self).known_handlers(),
            match outcome {
                Ok((socket, payload)) => {
                    &&& final(self).joined() == old(self).joined().insert(
                        topic@,
                        socket.deep_view(),
                    )
                    &&& r.0.deep_view() == (ChannelReplyModel::JoinOk {
                        msg_ref: msg_ref@,
                        payload: bytes_of(payload),
                    })
                    &&& r.1 matches Some(group)
                    &&& group@ == channel_group_text(topic@)
                },
                Err(e) => {
                    &&& final(self).joined() == old(self).joined()
                    &&& r.0.deep_view() == (ChannelReplyModel::JoinError {
                        msg_ref: msg_ref@,
                        reason: e.reason@,
                    })
                    &&& r.1 is None
                },
            },
    {
        match outcome {
            Ok((socket, payload)) => {
                let group = channel_group(topic.as_str());
                self.channels.insert(topic, socket);
                (ChannelReply::JoinOk { msg_ref, payload }, Some(group))
            },
            Err(e) => (ChannelReply::JoinError { msg_ref, reason: e.reason }, None),
        }
    }

    /// Where an event or a message for a topic goes: the place of the handler,
    /// and the connection. Nowhere where there is no handler for the topic, or
    /// where the client has not joined it.
    pub fn route(&self, topic: &String) -> (r: Option<(usize, Socket<Vec<u8>>)>)
        ensures
            match r {
                Some((i, socket)) => {
                    &&& handler_place(self.known_handlers(), topic@) == Some(i as int)
                    &&& i < self.known_handlers().len()
                    &&& self.joined().contains_key(topic@)
                    &&& socket.deep_view() == self.joined()[topic@]
                },
                None => handler_place(self.known_handlers(), topic@) is None
                    || !self.joined().contains_key(topic@),
            },
    {
        match self.find_handler(topic.as_str()) {
            Some(i) => match self.channels.get(topic) {
                Some(socket) => Some((i, socket.duplicate())),
                None => None,
            },
            None => None,
        }
    }

    /// Keeps a connection as its handler left it.
    pub fn keep_socket(&mut self, topic: &String, socket: Socket<Vec<u8>>)
        ensures
            final(self).client() == old(self).client(),
            final(self).known_handlers() == old(self).known_handlers(),
            final(self).joined() == (if old(self).joined().contains_key(topic@) {
                old(self).joined().insert(topic@, socket.deep_view())
            } else {
                old(self).joined()
            }),
    {
        if self.channels.contains_key(topic) {
            self.channels.insert(topic.clone(), socket);
        }
    }

    /// Takes in what a handler made of an event for a topic that the client has
    /// joined: the connection as the handler left it, and its result.
    pub fn handle_event(
        &mut self,
        topic: String,
        msg_ref: String,
        socket: Socket<Vec<u8>>,
        result: HandleResult<Vec<u8>>,
    ) -> (r: EventOutcome)
        requires
            old(self).joined().contains_key(topic@),
        ensures
            final(self).client() == old(self).client(),
            final(self).known_handlers() == old(self).known_handlers(),
            final(self).joined() == (if result is Stop {
                old(self).joined().remove(topic@)
            } else {
                old(self).joined().insert(topic@, socket.deep_view())
            }),
            match result {
                HandleResult::Reply { status, payload } => {
                    &&& r.reply matches Some(reply)
                    &&& reply.deep_view() == (ChannelReplyModel::Reply {
                        msg_ref: msg_ref@,
                        status: status.text(),
                        payload: payload@,
                    })
                },
                HandleResult::ReplyRaw { status, payload } => {
                    &&& r.reply matches Some(reply)
                    &&& reply.deep_view() == (ChannelReplyModel::Reply {
                        msg_ref: msg_ref@,
                        status: status.text(),
                        payload: payload@,
                    })
                },
                HandleResult::Push { event, payload } => {
                    &&& r.reply matches Some(reply)
                    &&& reply.deep_view() == (ChannelReplyModel::Push {
                        topic: topic@,
                        event: event@,
                        payload: payload@,
                    })
                },
                HandleResult::PushRaw { event, payload } => {
                    &&& r.reply matches Some(reply)
                    &&& reply.deep_view() == (ChannelReplyModel::Push {
                        topic: topic@,
                        event: event@,
                        payload: payload@,
                    })
                },
                _ => r.reply is None,
            },
            match result {
                HandleResult::Broadcast { event, payload } => r.broadcast matches Some(msg)
                    && is_broadcast(msg, topic@, None, event@, payload@),
                HandleResult::BroadcastFrom { event, payload } => r.broadcast matches Some(msg)
                    && is_broadcast(msg, topic@, Some(old(self).client()), event@, payload@),
                _ => r.broadcast is None,
            },
            match result {
                HandleResult::Stop { reason } => r.left matches Some(left) && is_left(
                    left,
                    old(self).known_handlers(),
                    topic@,
                    socket.deep_view(),
                    TerminateReason::Left,
                ),
                _ => r.left is None,
            },
    {
        let ghost before = self.joined();
        self.channels.insert(topic.clone(), socket);
        match result {
            HandleResult::NoReply => EventOutcome { reply: None, broadcast: None, left: None },
            HandleResult::Reply { status, payload } => EventOutcome {
                reply: Some(ChannelReply::Reply { msg_ref, status: status.display(), payload }),
                broadcast: None,
                left: None,
            },
            HandleResult::ReplyRaw { status, payload } => EventOutcome {
                reply: Some(ChannelReply::Reply { msg_ref, status: status.display(), payload }),
                broadcast: None,
                left: None,
            },
            HandleResult::Broadcast { event, payload } => EventOutcome {
                reply: None,
                broadcast: Some(broadcast_to_topic(topic.as_str(), event.as_str(), payload)),
                left: None,
            },
            HandleResult::BroadcastFrom { event, payload } => EventOutcome {
                reply: None,
                broadcast: Some(
                    broadcast_to_topic_from(
                        topic.as_str(),
                        self.client_pid,
                        event.as_str(),
                        payload,
                    ),
                ),
                left: None,
            },
            HandleResult::Push { event, payload } => EventOutcome {
                reply: Some(ChannelReply::Push { topic, event, payload }),
                broadcast: None,
                left: None,
            },
            HandleResult::PushRaw { event, payload } => EventOutcome {
                reply: Some(ChannelReply::Push { topic, event, payload }),
                broadcast: None,
                left: None,
            },
            HandleResult::Stop { reason } => {
                let left = self.handle_leave(&topic);
                assert(self.joined() =~= before.remove(topic@));
                EventOutcome { reply: None, broadcast: None, left }
            },
        }
    }

    /// Ends the channel of a topic, if the client has joined it.
    pub fn handle_leave(&mut self, topic: &String) -> (r: Option<LeftChannel>)
        ensures
            final(self).client() == old(self).client(),
            final(self).known_handlers() == old(self).known_handlers(),
            final(self).joined() == old(self).joined().remove(topic@),
            match r {
                Some(left) => {
                    &&& old(self).joined().contains_key(topic@)
                    &&& is_left(
                        left,
                        old(self).known_handlers(),
                        topic@,
                        old(self).joined()[topic@],
                        TerminateReason::Left,
                    )
                },
                None => !old(self).joined().contains_key(topic@),
            },
    {
        self.end_channel(topic, TerminateReason::Left)
    }

    fn end_channel(&mut self, topic: &String, reason: TerminateReason) -> (r: Option<LeftChannel>)
        ensures
            final(self).client() == old(self).client(),
            final(self).known_handlers() == old(self).known_handlers(),
            final(self).joined() == old(self).joined().remove(topic@),
            match r {
                Some(left) => {
                    &&& old(self).joined().contains_key(topic@)
                    &&& is_left(
                        left,
                        old(self).known_handlers(),
                        topic@,
                        old(self).joined()[topic@],
                        reason,
                    )
                },
                None => !old(self).joined().contains_key(topic@),
            },
    {
        match self.channels.remove(topic) {
            Some(socket) => {
                let handler = self.find_handler(topic.as_str());
                Some(LeftChannel { handler, socket, reason, group: channel_group(topic.as_str()) })
            },
            None => None,
        }
    }

    /// Ends all channels, in no particular order.
    pub fn terminate(&mut self, reason: TerminateReason) -> (r: Vec<LeftChannel>)
        ensures
            final(self).client() == old(self).client(),
            final(self).known_handlers() == old(self).known_handlers(),
            final(self).joined() == Map::<Seq<char>, SocketModel<Seq<u8>>>::empty(),
            exists|order: Seq<Seq<char>>|
                {
                    &&& #[trigger] order.no_duplicates()
                    &&& order.to_set() == old(self).joined().dom()
                    &&& r@.len() == order.len()
                    &&& forall|i: int|
                        0 <= i < r@.len() ==> is_left(
                            #[trigger] r@[i],
                            old(self).known_handlers(),
                            order[i],
                            old(self).joined()[order[i]],
                            reason,
                        )
                },
    {
        let ghost before = self.joined();
        let ghost handlers = self.known_handlers();
        let topics = self.channels.keys();
        let ghost order = topics.deep_view();
        let mut r: Vec<LeftChannel> = Vec::new();
        let mut i: usize = 0;
        assert(before.remove_keys(order.take(0).to_set()) =~= before);
        while i < topics.len()
            invariant
                i <= topics.len(),
                order == topics.deep_view(),
                order.no_duplicates(),
                order.to_set() == before.dom(),
                self.client() == old(self).client(),
                self.known_handlers() == handlers,
                self.joined() == before.remove_keys(order.take(i as int).to_set()),
                r.len() == i,
                forall|j: int|
                    0 <= j < i ==> is_left(
                        #[trigger] r@[j],
                        handlers,
                        order[j],
                        before[order[j]],
                        reason,
                    ),
            decreases topics.len() - i,
        {
            proof {
                let topic = order[i as int];
                let done = order.take(i as int).to_set();
                assert(order.to_set().contains(topic));
                assert(!done.contains(topic)) by {
                    if done.contains(topic) {
                        let j = choose|j: int| 0 <= j < i && order.take(i as int)[j] == topic;
                        assert(order[j] == order[i as int]);
                    }
                }
                assert(order.take(i + 1) =~= order.take(i as int).push(topic));
                order.take(i as int).lemma_push_to_set_commute(topic);
                assert(before.remove_keys(order.take(i + 1).to_set()) =~= before.remove_keys(
                    done,
                ).remove(topic));
                assert(topics@[i as int]@ == topic);
            }
            if let Some(left) = self.end_channel(&topics[i], reason.clone()) {
                r.push(left);
            }
            i += 1;
        }
        proof {
            assert(order.take(order.len() as int) =~= order);
            assert(self.joined() =~= Map::empty());
            assert(order.no_duplicates());
        }
        r
    }

    /// The topics that the client has joined, each once.
    pub fn joined_topics(&self) -> (r: Vec<String>)
        ensures
            r.deep_view().no_duplicates(),
            r.deep_view().to_set() == self.joined().dom(),
    {
        self.channels.keys()
    }

    /// Whether the client has joined the topic.
    pub fn is_joined(&self, topic: &str) -> (r: bool)
        ensures
            r == self.joined().contains_key(topic@),
    {
        self.channels.contains_key(&topic.to_owned())
    }
}

/// Puts together the channels of a client.
pub struct ChannelServerBuilder<H: ChannelHandler> {
    handlers: Vec<H>,
}

impl<H: ChannelHandler> ChannelServerBuilder<H> {
    /// The handlers, in the order in which they were added.
    pub closed spec fn known_handlers(&self) -> Seq<H> {
        self.handlers@
    }

    /// Without handlers.
    pub fn new() -> (r: Self)
        ensures
            r.known_handlers() == Seq::<H>::empty(),
    {
        ChannelServerBuilder { handlers: Vec::new() }
    }

    /// With one handler more.
    pub fn channel(self, handler: H) -> (r: Self)
        ensures
            r.known_handlers() == self.known_handlers().push(handler),
    {
        let mut handlers = self.handlers;
        handlers.push(handler);
        ChannelServerBuilder { handlers }
    }

    /// The channels of a client with these handlers.
    pub fn build(self, client_pid: Pid) -> (r: ChannelServer<H>)
        ensures
            r.client() == client_pid,
            r.known_handlers() == self.known_handlers(),
            r.joined() == Map::<Seq<char>, SocketModel<Seq<u8>>>::empty(),
    {
        ChannelServer { client_pid, handlers: self.handlers, channels: Table::new() }
    }
}

} // verus!
