//! What channels and their clients say, as bytes.
use crate::atom::AtomTable;
use crate::channel::types::{ChannelMessage, ChannelReply, ChannelReplyModel, Message};
use crate::data::Data;
use crate::wire::identity::{interned, portable, PidModel, PortablePid};
use crate::wire::primitive::{decode, encode, lemma_tagged, Wire};
use vstd::prelude::*;

verus! {

impl Wire for ChannelReply {
    open spec fn bytes_of(model: ChannelReplyModel) -> Seq<u8> {
        match model {
            ChannelReplyModel::JoinOk { msg_ref, payload } => u32::bytes_of(0) + <(String, Option<Vec<u8>>)>::bytes_of(
                (msg_ref, payload),
            ),
            ChannelReplyModel::JoinError { msg_ref, reason } => u32::bytes_of(1) + <(String, String)>::bytes_of(
                (msg_ref, reason),
            ),
            ChannelReplyModel::Reply { msg_ref, status, payload } => u32::bytes_of(2) + <(String, (String, Vec<u8>))>::bytes_of(
                (msg_ref, (status, payload)),
            ),
            ChannelReplyModel::Push { topic, event, payload } => u32::bytes_of(3) + <(String, (String, Vec<u8>))>::bytes_of(
                (topic, (event, payload)),
            ),
        }
    }

    open spec fn read(b: Seq<u8>) -> Option<(ChannelReplyModel, Seq<u8>)> {
        match u32::read(b) {
            Some((tag, rest)) => if tag == 0 {
                match <(String, Option<Vec<u8>>)>::read(rest) {
                    Some(((msg_ref, payload), rest)) => Some(
                        (ChannelReplyModel::JoinOk { msg_ref, payload }, rest),
                    ),
                    None => None,
                }
            } else if tag == 1 {
                match <(String, String)>::read(rest) {
                    Some(((msg_ref, reason), rest)) => Some(
                        (ChannelReplyModel::JoinError { msg_ref, reason }, rest),
                    ),
                    None => None,
                }
            } else if tag == 2 {
                match <(String, (String, Vec<u8>))>::read(rest) {
                    Some(((msg_ref, (status, payload)), rest)) => Some(
                        (ChannelReplyModel::Reply { msg_ref, status, payload }, rest),
                    ),
                    None => None,
                }
            } else if tag == 3 {
                match <(String, (String, Vec<u8>))>::read(rest) {
                    Some(((topic, (event, payload)), rest)) => Some(
                        (ChannelReplyModel::Push { topic, event, payload }, rest),
                    ),
                    None => None,
                }
            } else {
                None
            },
            None => None,
        }
    }

    open spec fn fits(model: ChannelReplyModel) -> bool {
        match model {
            ChannelReplyModel::JoinOk { msg_ref, payload } => <(String, Option<Vec<u8>>)>::fits(
                (msg_ref, payload),
            ),
            ChannelReplyModel::JoinError { msg_ref, reason } => <(String, String)>::fits(
                (msg_ref, reason),
            ),
            ChannelReplyModel::Reply { msg_ref, status, payload } => <(String, (String, Vec<u8>))>::fits(
                (msg_ref, (status, payload)),
            ),
            ChannelReplyModel::Push { topic, event, payload } => <(String, (String, Vec<u8>))>::fits(
                (topic, (event, payload)),
            ),
        }
    }

    proof fn round_trip(model: ChannelReplyModel, rest: Seq<u8>) {
        match model {
            ChannelReplyModel::JoinOk { msg_ref, payload } => {
                lemma_tagged::<(String, Option<Vec<u8>>)>(0, (msg_ref, payload), rest);
            },
            ChannelReplyModel::JoinError { msg_ref, reason } => {
                lemma_tagged::<(String, String)>(1, (msg_ref, reason), rest);
            },
            ChannelReplyModel::Reply { msg_ref, status, payload } => {
                lemma_tagged::<(String, (String, Vec<u8>))>(2, (msg_ref, (status, payload)), rest);
            },
            ChannelReplyModel::Push { topic, event, payload } => {
                lemma_tagged::<(String, (String, Vec<u8>))>(3, (topic, (event, payload)), rest);
            },
        }
    }

    fn put(&self, out: &mut Vec<u8>) {
        let ghost before = out@;
        match self {
            ChannelReply::JoinOk { msg_ref, payload } => {
                0u32.put(out);
                msg_ref.put(out);
                proof {
                    if let Some(x) = payload {
                        assert(x.deep_view() =~= x@);
                    }
                }
                payload.put(out);
            },
            ChannelReply::JoinError { msg_ref, reason } => {
                1u32.put(out);
                msg_ref.put(out);
                reason.put(out);
            },
            ChannelReply::Reply { msg_ref, status, payload } => {
                2u32.put(out);
                msg_ref.put(out);
                status.put(out);
                assert(payload.deep_view() =~= payload@);
                payload.put(out);
            },
            ChannelReply::Push { topic, event, payload } => {
                3u32.put(out);
                topic.put(out);
                event.put(out);
                assert(payload.deep_view() =~= payload@);
                payload.put(out);
            },
        }
        assert(out@ =~= before + Self::bytes_of(self.deep_view()));
    }

    fn take<'a>(b: &'a [u8]) -> (r: Option<(Self, &'a [u8])>) {
        let (tag, rest) = match u32::take(b) {
            Some(x) => x,
            None => {
                return None;
            },
        };
        if tag == 0 {
            match <(String, Option<Vec<u8>>)>::take(rest) {
                Some(((msg_ref, payload), rest)) => {
                    proof {
                        if let Some(x) = &payload {
                            assert(x.deep_view() =~= x@);
                        }
                    }
                    Some((ChannelReply::JoinOk { msg_ref, payload }, rest))
                },
                None => None,
            }
        } else if tag == 1 {
            match <(String, String)>::take(rest) {
                Some(((msg_ref, reason), rest)) => Some(
                    (ChannelReply::JoinError { msg_ref, reason }, rest),
                ),
                None => None,
            }
        } else if tag == 2 {
            match <(String, (String, Vec<u8>))>::take(rest) {
                Some(((msg_ref, (status, payload)), rest)) => {
                    assert(payload.deep_view() =~= payload@);
                    Some((ChannelReply::Reply { msg_ref, status, payload }, rest))
                },
                None => None,
            }
        } else if tag == 3 {
            match <(String, (String, Vec<u8>))>::take(rest) {
                Some(((topic, (event, payload)), rest)) => {
                    assert(payload.deep_view() =~= payload@);
                    Some((ChannelReply::Push { topic, event, payload }, rest))
                },
                None => None,
            }
        } else {
            None
        }
    }
}

/// What a connection is told to do, for any node to read.
#[derive(Debug)]
#[allow(inconsistent_fields)]
pub enum PortableChannel {
    Join { topic: String, payload: Vec<u8>, client_pid: PortablePid, msg_ref: String },
    Event { topic: String, event: String, payload: Vec<u8>, msg_ref: String },
    Leave { topic: String },
    Broadcast { topic: String, event: String, payload: Vec<u8> },
}

/// What it says.
#[allow(inconsistent_fields)]
pub enum PortableChannelModel {
    Join { topic: Seq<char>, payload: Seq<u8>, client_pid: PidModel, msg_ref: Seq<char> },
    Event { topic: Seq<char>, event: Seq<char>, payload: Seq<u8>, msg_ref: Seq<char> },
    Leave { topic: Seq<char> },
    Broadcast { topic: Seq<char>, event: Seq<char>, payload: Seq<u8> },
}

impl DeepView for PortableChannel {
    type V = PortableChannelModel;

    open spec fn deep_view(&self) -> PortableChannelModel {
        match self {
            PortableChannel::Join { topic, payload, client_pid, msg_ref } => PortableChannelModel::Join {
                topic: topic.deep_view(),
                payload: payload.deep_view(),
                client_pid: client_pid.deep_view(),
                msg_ref: msg_ref.deep_view(),
            },
            PortableChannel::Event { topic, event, payload, msg_ref } => PortableChannelModel::Event {
                topic: topic.deep_view(),
                event: event.deep_view(),
                payload: payload.deep_view(),
                msg_ref: msg_ref.deep_view(),
            },
            PortableChannel::Leave { topic } => PortableChannelModel::Leave {
                topic: topic.deep_view(),
            },
            PortableChannel::Broadcast { topic, event, payload } => PortableChannelModel::Broadcast {
                topic: topic.deep_view(),
                event: event.deep_view(),
                payload: payload.deep_view(),
            },
        }
    }
}

impl Wire for PortableChannel {
    open spec fn bytes_of(model: PortableChannelModel) -> Seq<u8> {
        match model {
            PortableChannelModel::Join { topic, payload, client_pid, msg_ref } => u32::bytes_of(0)
                + <(String, (Vec<u8>, (PortablePid, String)))>::bytes_of((topic, (payload, (client_pid, msg_ref)))),
            PortableChannelModel::Event { topic, event, payload, msg_ref } => u32::bytes_of(1)
                + <(String, (String, (Vec<u8>, String)))>::bytes_of((topic, (event, (payload, msg_ref)))),
            PortableChannelModel::Leave { topic } => u32::bytes_of(2)
                + String::bytes_of(topic),
            PortableChannelModel::Broadcast { topic, event, payload } => u32::bytes_of(3)
                + <(String, (String, Vec<u8>))>::bytes_of((topic, (event, payload))),
        }
    }

    open spec fn read(b: Seq<u8>) -> Option<(PortableChannelModel, Seq<u8>)> {
        match u32::read(b) {
            Some((tag, rest)) => if tag == 0 {
                match <(String, (Vec<u8>, (PortablePid, String)))>::read(rest) {
                    Some(((topic, (payload, (client_pid, msg_ref))), rest)) => Some(
                        (PortableChannelModel::Join { topic, payload, client_pid, msg_ref }, rest),
                    ),
                    None => None,
                }
            } else if tag == 1 {
                match <(String, (String, (Vec<u8>, String)))>::read(rest) {
                    Some(((topic, (event, (payload, msg_ref))), rest)) => Some(
                        (PortableChannelModel::Event { topic, event, payload, msg_ref }, rest),
                    ),
                    None => None,
                }
            } else if tag == 2 {
                match String::read(rest) {
                    Some((topic, rest)) => Some(
                        (PortableChannelModel::Leave { topic }, rest),
                    ),
                    None => None,
                }
            } else if tag == 3 {
                match <(String, (String, Vec<u8>))>::read(rest) {
                    Some(((topic, (event, payload)), rest)) => Some(
                        (PortableChannelModel::Broadcast { topic, event, payload }, rest),
                    ),
                    None => None,
                }
            } else {
                None
            },
            None => None,
        }
    }

    open spec fn fits(model: PortableChannelModel) -> bool {
        match model {
            PortableChannelModel::Join { topic, payload, client_pid, msg_ref } => <(String, (Vec<u8>, (PortablePid, String)))>::fits(
                (topic, (payload, (client_pid, msg_ref))),
            ),
            PortableChannelModel::Event { topic, event, payload, msg_ref } => <(String, (String, (Vec<u8>, String)))>::fits(
                (topic, (event, (payload, msg_ref))),
            ),
            PortableChannelModel::Leave { topic } => String::fits(
                topic,
            ),
            PortableChannelModel::Broadcast { topic, event, payload } => <(String, (String, Vec<u8>))>::fits(
                (topic, (event, payload)),
            ),
        }
    }

    proof fn round_trip(model: PortableChannelModel, rest: Seq<u8>) {
        match model {
            PortableChannelModel::Join { topic, payload, client_pid, msg_ref } => {
                lemma_tagged::<(String, (Vec<u8>, (PortablePid, String)))>(
                    0,
                    (topic, (payload, (client_pid, msg_ref))),
                    rest,
                );
            },
            PortableChannelModel::Event { topic, event, payload, msg_ref } => {
                lemma_tagged::<(String, (String, (Vec<u8>, String)))>(
                    1,
                    (topic, (event, (payload, msg_ref))),
                    rest,
                );
            },
            PortableChannelModel::Leave { topic } => {
                lemma_tagged::<String>(
                    2,
                    topic,
                    rest,
                );
            },
            PortableChannelModel::Broadcast { topic, event, payload } => {
                lemma_tagged::<(String, (String, Vec<u8>))>(
                    3,
                    (topic, (event, payload)),
                    rest,
                );
            },
        }
    }

    fn put(&self, out: &mut Vec<u8>) {
        let ghost before = out@;
        match self {
            PortableChannel::Join { topic, payload, client_pid, msg_ref } => {
                0u32.put(out);
                topic.put(out);
                payload.put(out);
                client_pid.put(out);
                msg_ref.put(out);
            },
            PortableChannel::Event { topic, event, payload, msg_ref } => {
                1u32.put(out);
                topic.put(out);
                event.put(out);
                payload.put(out);
                msg_ref.put(out);
            },
            PortableChannel::Leave { topic } => {
                2u32.put(out);
                topic.put(out);
            },
            PortableChannel::Broadcast { topic, event, payload } => {
                3u32.put(out);
                topic.put(out);
                event.put(out);
                payload.put(out);
            },
        }
        assert(out@ =~= before + Self::bytes_of(self.deep_view()));
    }

    fn take<'a>(b: &'a [u8]) -> (r: Option<(Self, &'a [u8])>) {
        let (tag, rest) = match u32::take(b) {
            Some(x) => x,
            None => {
                return None;
            },
        };
        if tag == 0 {
            match <(String, (Vec<u8>, (PortablePid, String)))>::take(rest) {
                Some(((topic, (payload, (client_pid, msg_ref))), rest)) => Some(
                    (PortableChannel::Join { topic, payload, client_pid, msg_ref }, rest),
                ),
                None => None,
            }
        } else if tag == 1 {
            match <(String, (String, (Vec<u8>, String)))>::take(rest) {
                Some(((topic, (event, (payload, msg_ref))), rest)) => Some(
                    (PortableChannel::Event { topic, event, payload, msg_ref }, rest),
                ),
                None => None,
            }
        } else if tag == 2 {
            match String::take(rest) {
                Some((topic, rest)) => Some(
                    (PortableChannel::Leave { topic }, rest),
                ),
                None => None,
            }
        } else if tag == 3 {
            match <(String, (String, Vec<u8>))>::take(rest) {
                Some(((topic, (event, payload)), rest)) => Some(
                    (PortableChannel::Broadcast { topic, event, payload }, rest),
                ),
                None => None,
            }
        } else {
            None
        }
    }
}

/// What a message says to any node.
pub open spec fn portable_channel(atoms: &AtomTable, m: ChannelMessage) -> PortableChannelModel {
    match m {
        ChannelMessage::Join { topic, payload, client_pid, msg_ref } => PortableChannelModel::Join {
            topic: topic@,
            payload: payload@,
            client_pid: portable(atoms, client_pid),
            msg_ref: msg_ref@,
        },
        ChannelMessage::Event { topic, event, payload, msg_ref } => PortableChannelModel::Event {
            topic: topic@,
            event: event@,
            payload: payload@,
            msg_ref: msg_ref@,
        },
        ChannelMessage::Leave { topic } => PortableChannelModel::Leave { topic: topic@ },
        ChannelMessage::Broadcast { topic, event, payload } => PortableChannelModel::Broadcast {
            topic: topic@,
            event: event@,
            payload: payload@,
        },
    }
}

/// Whether the node of the process that a message names, if it names one, is known.
pub open spec fn knows_channel(atoms: &AtomTable, m: ChannelMessage) -> bool {
    match m {
        ChannelMessage::Join { topic, payload, client_pid, msg_ref } => atoms.knows(
            client_pid.spec_node(),
        ),
        _ => true,
    }
}

/// The strings of a table after a message was read.
pub open spec fn after_reading_channel(strings: Seq<Seq<char>>, m: PortableChannelModel) -> Seq<
    Seq<char>,
> {
    match m {
        PortableChannelModel::Join { topic, payload, client_pid, msg_ref } => interned(
            strings,
            client_pid.node,
        ),
        _ => strings,
    }
}

impl ChannelMessage {
    /// The message as bytes.
    pub fn encode(&self, atoms: &AtomTable) -> (r: Vec<u8>)
        requires
            knows_channel(atoms, *self),
        ensures
            r@ == PortableChannel::bytes_of(portable_channel(atoms, *self)),
    {
        let m = match self {
            ChannelMessage::Join { topic, payload, client_pid, msg_ref } => {
                assert(payload.deep_view() =~= payload@);
                PortableChannel::Join {
                    topic: topic.clone(),
                    payload: payload.duplicate(),
                    client_pid: PortablePid::of(atoms, *client_pid),
                    msg_ref: msg_ref.clone(),
                }
            },
            ChannelMessage::Event { topic, event, payload, msg_ref } => {
                assert(payload.deep_view() =~= payload@);
                PortableChannel::Event {
                    topic: topic.clone(),
                    event: event.clone(),
                    payload: payload.duplicate(),
                    msg_ref: msg_ref.clone(),
                }
            },
            ChannelMessage::Leave { topic } => PortableChannel::Leave { topic: topic.clone() },
            ChannelMessage::Broadcast { topic, event, payload } => {
                assert(payload.deep_view() =~= payload@);
                PortableChannel::Broadcast {
                    topic: topic.clone(),
                    event: event.clone(),
                    payload: payload.duplicate(),
                }
            },
        };
        encode(&m)
    }

    /// The message from bytes.
    pub fn decode(atoms: &mut AtomTable, b: &[u8]) -> (r: Option<ChannelMessage>)
        requires
            old(atoms).well_formed(),
            old(atoms).room_for(1),
        ensures
            final(atoms).well_formed(),
            match PortableChannel::read(b@) {
                Some((model, rest)) => {
                    &&& r matches Some(m)
                    &&& final(atoms)@ == after_reading_channel(old(atoms)@, model)
                    &&& knows_channel(final(atoms), m)
                    &&& portable_channel(final(atoms), m) == model
                },
                None => r is None && final(atoms)@ == old(atoms)@,
            },
    {
        match decode::<PortableChannel>(b) {
            Some(PortableChannel::Join { topic, payload, client_pid, msg_ref }) => {
                assert(payload.deep_view() =~= payload@);
                let client_pid = client_pid.localize(atoms);
                Some(ChannelMessage::Join { topic, payload, client_pid, msg_ref })
            },
            Some(PortableChannel::Event { topic, event, payload, msg_ref }) => {
                assert(payload.deep_view() =~= payload@);
                Some(ChannelMessage::Event { topic, event, payload, msg_ref })
            },
            Some(PortableChannel::Leave { topic }) => Some(ChannelMessage::Leave { topic }),
            Some(PortableChannel::Broadcast { topic, event, payload }) => {
                assert(payload.deep_view() =~= payload@);
                Some(ChannelMessage::Broadcast { topic, event, payload })
            },
            None => None,
        }
    }
}

/// What a message of a channel says.
pub struct MessageModel {
    pub topic: Seq<char>,
    pub event: Seq<char>,
    pub payload: Seq<u8>,
    pub msg_ref: Option<Seq<char>>,
    pub join_ref: Option<Seq<char>>,
}

impl DeepView for Message {
    type V = MessageModel;

    open spec fn deep_view(&self) -> MessageModel {
        MessageModel {
            topic: self.topic.deep_view(),
            event: self.event.deep_view(),
            payload: self.payload.deep_view(),
            msg_ref: self.msg_ref.deep_view(),
            join_ref: self.join_ref.deep_view(),
        }
    }
}

impl Wire for Message {
    open spec fn bytes_of(model: MessageModel) -> Seq<u8> {
        <(String, (String, (Vec<u8>, (Option<String>, Option<String>))))>::bytes_of(
            (model.topic, (model.event, (model.payload, (model.msg_ref, model.join_ref)))),
        )
    }

    open spec fn read(b: Seq<u8>) -> Option<(MessageModel, Seq<u8>)> {
        match <(String, (String, (Vec<u8>, (Option<String>, Option<String>))))>::read(b) {
            Some(((topic, (event, (payload, (msg_ref, join_ref)))), rest)) => Some(
                (MessageModel { topic, event, payload, msg_ref, join_ref }, rest),
            ),
            None => None,
        }
    }

    open spec fn fits(model: MessageModel) -> bool {
        <(String, (String, (Vec<u8>, (Option<String>, Option<String>))))>::fits(
            (model.topic, (model.event, (model.payload, (model.msg_ref, model.join_ref)))),
        )
    }

    proof fn round_trip(model: MessageModel, rest: Seq<u8>) {
        <(String, (String, (Vec<u8>, (Option<String>, Option<String>))))>::round_trip(
            (model.topic, (model.event, (model.payload, (model.msg_ref, model.join_ref)))),
            rest,
        );
    }

    fn put(&self, out: &mut Vec<u8>) {
        let ghost before = out@;
        self.topic.put(out);
        self.event.put(out);
        self.payload.put(out);
        self.msg_ref.put(out);
        self.join_ref.put(out);
        assert(out@ =~= before + Self::bytes_of(self.deep_view()));
    }

    fn take<'a>(b: &'a [u8]) -> (r: Option<(Self, &'a [u8])>) {
        match <(String, (String, (Vec<u8>, (Option<String>, Option<String>))))>::take(b) {
            Some(((topic, (event, (payload, (msg_ref, join_ref)))), rest)) => Some(
                (Message { topic, event, payload, msg_ref, join_ref }, rest),
            ),
            None => None,
        }
    }
}

} // verus!
