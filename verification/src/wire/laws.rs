//! How messages stand in bytes, and that they come back.
use crate::atom::AtomTable;
use crate::base::exit_reason::{ExitModel, ExitReason};
use crate::base::node::NodeInfo;
use crate::base::pid::Pid;
use crate::channel::types::{ChannelMessage, ChannelReply, ChannelReplyModel, Message};
use crate::presence::server::PresenceCall;
use crate::presence::types::{MetaModel, TopicModel};
use crate::supervisor::types::{ChildType, RestartType, ShutdownType, Strategy};
use crate::wire::channel::{
    knows_channel, portable_channel, MessageModel, PortableChannel, PortableChannelModel,
};
use crate::wire::fsm::{PortableFsm, PortableFsmModel};
use crate::wire::gen_server::{PortableServerMessage, PortableServerModel};
use crate::wire::identity::{interned, pid_survives_wire, portable, PidModel, PortablePid};
use crate::wire::list::{members_bytes, WireList};
use crate::wire::node::{AddrModel, NodeInfoModel};
use crate::wire::presence::{
    is_import, portable_meta, portable_metas, topic_from, PortableMeta, PortableMetaModel,
    PortablePresence, PortablePresenceModel, PortableRows,
};
use crate::wire::presence_server::{
    knows_call, portable_call, PortableCall, PortableCallModel, PortableCast, PortableCastModel,
    PortableReply, PortableReplyModel,
};
use crate::wire::primitive::{varint, Wire};
use crate::wire::system::{PortableSystem, PortableSystemModel};
use vstd::prelude::*;
use vstd::utf8::encode_utf8;

verus! {

/// Text as bytes: its length and its characters.
pub open spec fn text_bytes(s: Seq<char>) -> Seq<u8> {
    varint(encode_utf8(s).len()) + encode_utf8(s)
}

/// Data as bytes: its length and itself.
pub open spec fn data_bytes(b: Seq<u8>) -> Seq<u8> {
    varint(b.len()) + b
}

/// A process as bytes: the name of its node, its number and its creation number.
pub open spec fn pid_bytes(pid: PidModel) -> Seq<u8> {
    text_bytes(pid.node) + (varint(pid.id as nat) + varint(pid.creation as nat))
}

/// A reason as bytes: its number and its text, if it has one.
pub open spec fn reason_bytes(reason: ExitModel) -> Seq<u8> {
    match reason {
        ExitModel::Normal => varint(0),
        ExitModel::Shutdown => varint(1),
        ExitModel::ShutdownReason(text) => varint(2) + text_bytes(text),
        ExitModel::Killed => varint(3),
        ExitModel::Error(text) => varint(4) + text_bytes(text),
    }
}

/// What may be there as bytes: a one and itself, or a zero.
pub open spec fn maybe_bytes(b: Option<Seq<u8>>) -> Seq<u8> {
    match b {
        Some(b) => seq![1u8] + b,
        None => seq![0u8],
    }
}

/// Whether text has a length that a machine word can hold.
pub open spec fn text_fits(s: Seq<char>) -> bool {
    encode_utf8(s).len() <= usize::MAX
}

/// Whether data has a length that a machine word can hold.
pub open spec fn data_fits(b: Seq<u8>) -> bool {
    b.len() <= usize::MAX
}

/// Whether the text of a reason, if it has one, has a length that a machine word can
/// hold.
pub open spec fn reason_fits(reason: ExitModel) -> bool {
    match reason {
        ExitModel::ShutdownReason(text) => text_fits(text),
        ExitModel::Error(text) => text_fits(text),
        _ => true,
    }
}

/// Numbers go seven bits to a byte, lowest first, with the eighth bit set in all
/// but the last.
pub proof fn numbers_stand_in_sevens(n: nat)
    ensures
        n < 128 ==> varint(n) == seq![n as u8],
        n >= 128 ==> varint(n)[0] == (n % 128 + 128) as u8 && varint(n).skip(1) == varint(n / 128),
{
    if n >= 128 {
        assert(varint(n).skip(1) =~= varint(n / 128));
    }
}

/// A process stands in bytes with the name of its node, which any node can read,
/// its number and its creation number; and it comes back.
pub proof fn pid_layout(atoms: &AtomTable, pid: Pid, rest: Seq<u8>)
    requires
        text_fits(atoms@[pid.spec_node().spec_index() as int]),
    ensures
        portable(atoms, pid) == (PidModel {
            node: atoms@[pid.spec_node().spec_index() as int],
            id: pid.spec_id(),
            creation: pid.spec_creation(),
        }),
        PortablePid::bytes_of(portable(atoms, pid)) == pid_bytes(portable(atoms, pid)),
        PortablePid::read(pid_bytes(portable(atoms, pid)) + rest) == Some(
            (portable(atoms, pid), rest),
        ),
{
    PortablePid::round_trip(portable(atoms, pid), rest);
}

/// A string that is interned is in the table from then on, once, and those before it
/// keep their places.
pub proof fn interned_string_is_there(strings: Seq<Seq<char>>, s: Seq<char>)
    ensures
        interned(strings, s).contains(s),
        strings.contains(s) ==> interned(strings, s) == strings,
        !strings.contains(s) ==> interned(strings, s) == strings.push(s),
{
    if !strings.contains(s) {
        assert(strings.push(s)[strings.len() as int] == s);
    }
}

/// How what a client is told stands in bytes, and that it comes back.
pub proof fn channel_reply_layout(m: ChannelReplyModel, rest: Seq<u8>)
    ensures
        ChannelReply::bytes_of(m) == (match m {
            ChannelReplyModel::JoinOk { msg_ref, payload } => varint(0) + (text_bytes(msg_ref)
                + maybe_bytes(
                match payload {
                    Some(bytes) => Some(data_bytes(bytes)),
                    None => None,
                },
            )),
            ChannelReplyModel::JoinError { msg_ref, reason } => varint(1) + (text_bytes(msg_ref)
                + text_bytes(reason)),
            ChannelReplyModel::Reply { msg_ref, status, payload } => varint(2) + (text_bytes(
                msg_ref,
            ) + (text_bytes(status) + data_bytes(payload))),
            ChannelReplyModel::Push { topic, event, payload } => varint(3) + (text_bytes(topic) + (
            text_bytes(event) + data_bytes(payload))),
        }),
        (match m {
            ChannelReplyModel::JoinOk { msg_ref, payload } => text_fits(msg_ref) && (
            payload matches Some(bytes) ==> data_fits(bytes)),
            ChannelReplyModel::JoinError { msg_ref, reason } => text_fits(msg_ref) && text_fits(
                reason,
            ),
            ChannelReplyModel::Reply { msg_ref, status, payload } => text_fits(msg_ref)
                && text_fits(status) && data_fits(payload),
            ChannelReplyModel::Push { topic, event, payload } => text_fits(topic) && text_fits(
                event,
            ) && data_fits(payload),
        }) ==> ChannelReply::read(ChannelReply::bytes_of(m) + rest) == Some((m, rest)),
{
    if ChannelReply::fits(m) {
        ChannelReply::round_trip(m, rest);
    }
}

/// How what a connection is told to do stands in bytes, and that it comes back.
pub proof fn channel_message_layout(m: PortableChannelModel, rest: Seq<u8>)
    ensures
        PortableChannel::bytes_of(m) == (match m {
            PortableChannelModel::Join { topic, payload, client_pid, msg_ref } => varint(0) + (
            text_bytes(topic) + (data_bytes(payload) + (pid_bytes(client_pid) + text_bytes(
                msg_ref,
            )))),
            PortableChannelModel::Event { topic, event, payload, msg_ref } => varint(1) + (
            text_bytes(topic) + (text_bytes(event) + (data_bytes(payload) + text_bytes(msg_ref)))),
            PortableChannelModel::Leave { topic } => varint(2) + text_bytes(topic),
            PortableChannelModel::Broadcast { topic, event, payload } => varint(3) + (text_bytes(
                topic,
            ) + (text_bytes(event) + data_bytes(payload))),
        }),
        (match m {
            PortableChannelModel::Join { topic, payload, client_pid, msg_ref } => text_fits(topic)
                && data_fits(payload) && text_fits(client_pid.node) && text_fits(msg_ref),
            PortableChannelModel::Event { topic, event, payload, msg_ref } => text_fits(topic)
                && text_fits(event) && data_fits(payload) && text_fits(msg_ref),
            PortableChannelModel::Leave { topic } => text_fits(topic),
            PortableChannelModel::Broadcast { topic, event, payload } => text_fits(topic)
                && text_fits(event) && data_fits(payload),
        }) ==> PortableChannel::read(PortableChannel::bytes_of(m) + rest) == Some((m, rest)),
{
    if PortableChannel::fits(m) {
        PortableChannel::round_trip(m, rest);
    }
}

/// How a message of a channel stands in bytes, and that it comes back.
pub proof fn message_layout(m: MessageModel, rest: Seq<u8>)
    ensures
        Message::bytes_of(m) == text_bytes(m.topic) + (text_bytes(m.event) + (data_bytes(m.payload)
            + (maybe_bytes(
            match m.msg_ref {
                Some(s) => Some(text_bytes(s)),
                None => None,
            },
        ) + maybe_bytes(
            match m.join_ref {
                Some(s) => Some(text_bytes(s)),
                None => None,
            },
        )))),
        text_fits(m.topic) && text_fits(m.event) && data_fits(m.payload) && (
        m.msg_ref matches Some(s) ==> text_fits(s)) && (m.join_ref matches Some(s) ==> text_fits(s))
            ==> Message::read(Message::bytes_of(m) + rest) == Some((m, rest)),
{
    if Message::fits(m) {
        Message::round_trip(m, rest);
    }
}

/// How a message of the runtime stands in bytes, and that it comes back.
pub proof fn system_message_layout(m: PortableSystemModel, rest: Seq<u8>)
    ensures
        PortableSystem::bytes_of(m) == (match m {
            PortableSystemModel::Exit { from, reason } => varint(0) + (pid_bytes(from)
                + reason_bytes(reason)),
            PortableSystemModel::Down { monitor_ref, pid, reason } => varint(1) + (varint(
                monitor_ref.0 as nat,
            ) + (pid_bytes(pid) + reason_bytes(reason))),
        }),
        (match m {
            PortableSystemModel::Exit { from, reason } => text_fits(from.node) && reason_fits(
                reason,
            ),
            PortableSystemModel::Down { monitor_ref, pid, reason } => text_fits(pid.node)
                && reason_fits(reason),
        }) ==> PortableSystem::read(PortableSystem::bytes_of(m) + rest) == Some((m, rest)),
{
    if PortableSystem::fits(m) {
        PortableSystem::round_trip(m, rest);
    }
}

/// How a message of a state machine stands in bytes, and that it comes back.
pub proof fn fsm_message_layout(m: PortableFsmModel, rest: Seq<u8>)
    ensures
        PortableFsm::bytes_of(m) == (match m {
            PortableFsmModel::Event(data) => varint(0) + data_bytes(data),
            PortableFsmModel::Call { from, reference, request } => varint(1) + (pid_bytes(from) + (
            varint(reference.0 as nat) + data_bytes(request))),
            PortableFsmModel::Reply { reference, reply } => varint(2) + (varint(
                reference.0 as nat,
            ) + data_bytes(reply)),
            PortableFsmModel::StateTimeout => varint(3),
            PortableFsmModel::GenericTimeout(name) => varint(4) + text_bytes(name),
        }),
        (match m {
            PortableFsmModel::Event(data) => data_fits(data),
            PortableFsmModel::Call { from, reference, request } => text_fits(from.node)
                && data_fits(request),
            PortableFsmModel::Reply { reference, reply } => data_fits(reply),
            PortableFsmModel::StateTimeout => true,
            PortableFsmModel::GenericTimeout(name) => text_fits(name),
        }) ==> PortableFsm::read(PortableFsm::bytes_of(m) + rest) == Some((m, rest)),
{
    if PortableFsm::fits(m) {
        PortableFsm::round_trip(m, rest);
    }
}

/// How a message of a server stands in bytes, and that it comes back.
pub proof fn server_message_layout(m: PortableServerModel, rest: Seq<u8>)
    ensures
        PortableServerMessage::bytes_of(m) == (match m {
            PortableServerModel::Call { from, payload } => varint(0) + ((pid_bytes(from.caller)
                + varint(from.reference.0 as nat)) + data_bytes(payload)),
            PortableServerModel::Cast { payload } => varint(1) + data_bytes(payload),
            PortableServerModel::Reply { reference, payload } => varint(2) + (varint(
                reference.0 as nat,
            ) + data_bytes(payload)),
            PortableServerModel::Stop { reason, from } => varint(3) + (reason_bytes(reason)
                + maybe_bytes(
                match from {
                    Some(f) => Some(pid_bytes(f.caller) + varint(f.reference.0 as nat)),
                    None => None,
                },
            )),
            PortableServerModel::Timeout => varint(4),
            PortableServerModel::Continue { arg } => varint(5) + data_bytes(arg),
        }),
        (match m {
            PortableServerModel::Call { from, payload } => text_fits(from.caller.node) && data_fits(
                payload,
            ),
            PortableServerModel::Cast { payload } => data_fits(payload),
            PortableServerModel::Reply { reference, payload } => data_fits(payload),
            PortableServerModel::Stop { reason, from } => reason_fits(reason) && (
            from matches Some(f) ==> text_fits(f.caller.node)),
            PortableServerModel::Timeout => true,
            PortableServerModel::Continue { arg } => data_fits(arg),
        }) ==> PortableServerMessage::read(PortableServerMessage::bytes_of(m) + rest) == Some(
            (m, rest),
        ),
{
    if PortableServerMessage::fits(m) {
        PortableServerMessage::round_trip(m, rest);
    }
}

/// How what a presence server is asked stands in bytes, and that it comes back.
pub proof fn presence_call_layout(m: PortableCallModel, rest: Seq<u8>)
    ensures
        PortableCall::bytes_of(m) == (match m {
            PortableCallModel::Track { topic, key, pid, meta } => varint(0) + (text_bytes(topic) + (
            text_bytes(key) + (pid_bytes(pid) + data_bytes(meta)))),
            PortableCallModel::Untrack { topic, key, pid } => varint(1) + (text_bytes(topic) + (
            text_bytes(key) + pid_bytes(pid))),
            PortableCallModel::UntrackAll { pid } => varint(2) + pid_bytes(pid),
            PortableCallModel::Update { topic, key, pid, meta } => varint(3) + (text_bytes(topic)
                + (text_bytes(key) + (pid_bytes(pid) + data_bytes(meta)))),
            PortableCallModel::List { topic } => varint(4) + text_bytes(topic),
            PortableCallModel::Get { topic, key } => varint(5) + (text_bytes(topic) + text_bytes(
                key,
            )),
        }),
        (match m {
            PortableCallModel::Track { topic, key, pid, meta } => text_fits(topic) && text_fits(key)
                && text_fits(pid.node) && data_fits(meta),
            PortableCallModel::Untrack { topic, key, pid } => text_fits(topic) && text_fits(key)
                && text_fits(pid.node),
            PortableCallModel::UntrackAll { pid } => text_fits(pid.node),
            PortableCallModel::Update { topic, key, pid, meta } => text_fits(topic) && text_fits(
                key,
            ) && text_fits(pid.node) && data_fits(meta),
            PortableCallModel::List { topic } => text_fits(topic),
            PortableCallModel::Get { topic, key } => text_fits(topic) && text_fits(key),
        }) ==> PortableCall::read(PortableCall::bytes_of(m) + rest) == Some((m, rest)),
{
    if PortableCall::fits(m) {
        PortableCall::round_trip(m, rest);
    }
}

/// How a presence entry stands in bytes, every part of it, and that it comes back.
pub proof fn presence_entry_layout(atoms: &AtomTable, entry: MetaModel, rest: Seq<u8>)
    ensures
        ({
            let m = portable_meta(atoms, entry);
            let previous = match entry.phx_ref_prev {
                Some(s) => Some(text_bytes(s)),
                None => None,
            };
            &&& m.phx_ref == entry.phx_ref
            &&& m.phx_ref_prev == entry.phx_ref_prev
            &&& m.pid == portable(atoms, entry.pid)
            &&& m.meta == entry.meta
            &&& m.updated_at == entry.updated_at
            &&& PortableMeta::bytes_of(m) == text_bytes(entry.phx_ref) + (maybe_bytes(previous) + (
            pid_bytes(portable(atoms, entry.pid)) + (data_bytes(entry.meta) + varint(
                entry.updated_at as nat,
            ))))
            &&& text_fits(entry.phx_ref) && (entry.phx_ref_prev matches Some(s) ==> text_fits(s))
                && text_fits(m.pid.node) && data_fits(entry.meta) ==> PortableMeta::read(
                PortableMeta::bytes_of(m) + rest,
            ) == Some((m, rest))
        }),
{
    let m = portable_meta(atoms, entry);
    if PortableMeta::fits(m) {
        PortableMeta::round_trip(m, rest);
    }
}

/// Whether all lengths of an entry are ones that a machine word can hold.
pub open spec fn entry_fits(m: PortableMetaModel) -> bool {
    &&& text_fits(m.phx_ref)
    &&& m.phx_ref_prev matches Some(s) ==> text_fits(s)
    &&& text_fits(m.pid.node)
    &&& data_fits(m.meta)
}

/// Whether all lengths of the entries of a topic are ones that a machine word can
/// hold.
pub open spec fn rows_fit(rows: Seq<(Seq<char>, Seq<PortableMetaModel>)>) -> bool {
    &&& rows.len() <= usize::MAX
    &&& forall|i: int|
        0 <= i < rows.len() ==> {
            &&& text_fits((#[trigger] rows[i]).0)
            &&& rows[i].1.len() <= usize::MAX
            &&& forall|j: int| 0 <= j < rows[i].1.len() ==> entry_fits(#[trigger] rows[i].1[j])
        }
}

proof fn lemma_rows_fit(rows: Seq<(Seq<char>, Seq<PortableMetaModel>)>)
    requires
        rows_fit(rows),
    ensures
        PortableRows::fits(rows),
{
    assert forall|i: int| 0 <= i < rows.len() implies <(
        String,
        WireList<PortableMeta>,
    )>::fits(#[trigger] rows[i]) by {
        assert(text_fits(rows[i].0));
        assert forall|j: int| 0 <= j < rows[i].1.len() implies PortableMeta::fits(
            #[trigger] rows[i].1[j],
        ) by {
            assert(entry_fits(rows[i].1[j]));
        }
    }
}

/// How a message of a presence tracker stands in bytes, and that it comes back.
pub proof fn presence_message_layout(m: PortablePresenceModel, rest: Seq<u8>)
    ensures
        PortablePresence::bytes_of(m) == (match m {
            PortablePresenceModel::SyncRequest { topic } => varint(0) + text_bytes(topic),
            PortablePresenceModel::SyncResponse { topic, state } => varint(1) + (text_bytes(topic)
                + PortableRows::bytes_of(state)),
            PortablePresenceModel::Delta { topic, joins, leaves } => varint(2) + (text_bytes(topic)
                + (PortableRows::bytes_of(joins) + PortableRows::bytes_of(leaves))),
            PortablePresenceModel::Heartbeat { node, clock } => varint(3) + (text_bytes(node)
                + varint(clock as nat)),
        }),
        (match m {
            PortablePresenceModel::SyncRequest { topic } => text_fits(topic),
            PortablePresenceModel::SyncResponse { topic, state } => text_fits(topic) && rows_fit(
                state,
            ),
            PortablePresenceModel::Delta { topic, joins, leaves } => text_fits(topic) && rows_fit(
                joins,
            ) && rows_fit(leaves),
            PortablePresenceModel::Heartbeat { node, clock } => text_fits(node),
        }) ==> PortablePresence::read(PortablePresence::bytes_of(m) + rest) == Some((m, rest)),
{
    match m {
        PortablePresenceModel::SyncResponse { topic, state } => {
            if rows_fit(state) {
                lemma_rows_fit(state);
            }
        },
        PortablePresenceModel::Delta { topic, joins, leaves } => {
            if rows_fit(joins) {
                lemma_rows_fit(joins);
            }
            if rows_fit(leaves) {
                lemma_rows_fit(leaves);
            }
        },
        _ => {},
    }
    if PortablePresence::fits(m) {
        PortablePresence::round_trip(m, rest);
    }
}

/// How the setup of supervisors and children stands in bytes, and that it comes back:
/// each choice by its number, and a span of time by its seconds and nanoseconds.
pub proof fn setup_layout(
    strategy: Strategy,
    restart: RestartType,
    shutdown: ShutdownType,
    child_type: ChildType,
    rest: Seq<u8>,
)
    requires
        shutdown matches ShutdownType::Timeout(time) ==> time.nanos / 1_000_000_000 <= u64::MAX,
    ensures
        Strategy::bytes_of(strategy) == (match strategy {
            Strategy::OneForOne => varint(0),
            Strategy::OneForAll => varint(1),
            Strategy::RestForOne => varint(2),
        }),
        RestartType::bytes_of(restart) == (match restart {
            RestartType::Permanent => varint(0),
            RestartType::Transient => varint(1),
            RestartType::Temporary => varint(2),
        }),
        ShutdownType::bytes_of(shutdown) == (match shutdown {
            ShutdownType::BrutalKill => varint(0),
            ShutdownType::Timeout(time) => varint(1) + (varint(
                (time.nanos / 1_000_000_000) as nat,
            ) + varint((time.nanos % 1_000_000_000) as nat)),
            ShutdownType::Infinity => varint(2),
        }),
        ChildType::bytes_of(child_type) == (match child_type {
            ChildType::Worker => varint(0),
            ChildType::Supervisor => varint(1),
        }),
        Strategy::read(Strategy::bytes_of(strategy) + rest) == Some((strategy, rest)),
        RestartType::read(RestartType::bytes_of(restart) + rest) == Some((restart, rest)),
        ShutdownType::read(ShutdownType::bytes_of(shutdown) + rest) == Some((shutdown, rest)),
        ChildType::read(ChildType::bytes_of(child_type) + rest) == Some((child_type, rest)),
{
    Strategy::round_trip(strategy, rest);
    RestartType::round_trip(restart, rest);
    ShutdownType::round_trip(shutdown, rest);
    ChildType::round_trip(child_type, rest);
}

/// How what is known of a node stands in bytes, and that it comes back, where its
/// address has no label and no scope.
pub proof fn node_layout(m: NodeInfoModel, rest: Seq<u8>)
    requires
        text_fits(m.name),
        m.addr matches Some(AddrModel::V4 { ip, port }) ==> ip.len() == 4,
        m.addr matches Some(AddrModel::V6 { ip, port, flowinfo, scope_id }) ==> ip.len() == 16
            && flowinfo == 0 && scope_id == 0,
    ensures
        NodeInfo::bytes_of(m) == text_bytes(m.name) + (varint(m.id.0 as nat) + (maybe_bytes(
            match m.addr {
                Some(AddrModel::V4 { ip, port }) => Some(varint(0) + (ip + varint(port as nat))),
                Some(AddrModel::V6 { ip, port, flowinfo, scope_id }) => Some(
                    varint(1) + (ip + varint(port as nat)),
                ),
                None => None,
            },
        ) + varint(m.creation as nat))),
        NodeInfo::read(NodeInfo::bytes_of(m) + rest) == Some((m, rest)),
{
    NodeInfo::round_trip(m, rest);
}

/// How what a presence server is told and replies stands in bytes, and that it comes
/// back.
pub proof fn presence_cast_and_reply_layout(
    cast: PortableCastModel,
    reply: PortableReplyModel,
    rest: Seq<u8>,
)
    ensures
        PortableCast::bytes_of(cast) == (match cast {
            PortableCastModel::ApplyDelta { topic, joins, leaves } => varint(0) + (text_bytes(topic)
                + (PortableRows::bytes_of(joins) + PortableRows::bytes_of(leaves))),
            PortableCastModel::SyncState { topic, state } => varint(1) + (text_bytes(topic)
                + PortableRows::bytes_of(state)),
        }),
        (match cast {
            PortableCastModel::ApplyDelta { topic, joins, leaves } => text_fits(topic) && rows_fit(
                joins,
            ) && rows_fit(leaves),
            PortableCastModel::SyncState { topic, state } => text_fits(topic) && rows_fit(state),
        }) ==> PortableCast::read(PortableCast::bytes_of(cast) + rest) == Some((cast, rest)),
        PortableReply::bytes_of(reply) == (match reply {
            PortableReplyModel::Done(phx_ref) => varint(0) + maybe_bytes(
                match phx_ref {
                    Some(s) => Some(text_bytes(s)),
                    None => None,
                },
            ),
            PortableReplyModel::List(rows) => varint(1) + PortableRows::bytes_of(rows),
            PortableReplyModel::Get(metas) => varint(2) + maybe_bytes(
                match metas {
                    Some(metas) => Some(<WireList<PortableMeta>>::bytes_of(metas)),
                    None => None,
                },
            ),
        }),
        (match reply {
            PortableReplyModel::Done(phx_ref) => phx_ref matches Some(s) ==> text_fits(s),
            PortableReplyModel::List(rows) => rows_fit(rows),
            PortableReplyModel::Get(metas) => metas matches Some(all) ==> all.len() <= usize::MAX && (
            forall|i: int| 0 <= i < all.len() ==> entry_fits(#[trigger] all[i])),
        }) ==> PortableReply::read(PortableReply::bytes_of(reply) + rest) == Some((reply, rest)),
{
    match cast {
        PortableCastModel::ApplyDelta { topic, joins, leaves } => {
            if rows_fit(joins) {
                lemma_rows_fit(joins);
            }
            if rows_fit(leaves) {
                lemma_rows_fit(leaves);
            }
        },
        PortableCastModel::SyncState { topic, state } => {
            if rows_fit(state) {
                lemma_rows_fit(state);
            }
        },
    }
    if PortableCast::fits(cast) {
        PortableCast::round_trip(cast, rest);
    }
    match reply {
        PortableReplyModel::List(rows) => {
            if rows_fit(rows) {
                lemma_rows_fit(rows);
            }
        },
        _ => {},
    }
    if PortableReply::fits(reply) {
        PortableReply::round_trip(reply, rest);
    }
}

/// How several stand in bytes: their number, and each of them in order.
pub proof fn list_layout<T: Wire>(all: Seq<T::V>)
    ensures
        all.len() == 0 ==> <WireList<T>>::bytes_of(all) == varint(0),
        all.len() > 0 ==> exists|behind: Seq<u8>|
            {
                &&& <WireList<T>>::bytes_of(all.drop_first()) == varint((all.len() - 1) as nat)
                    + behind
                &&& <WireList<T>>::bytes_of(all) == varint(all.len()) + #[trigger] (T::bytes_of(
                    all[0],
                ) + behind)
            },
{
    if all.len() == 0 {
        assert(<WireList<T>>::bytes_of(all) =~= varint(0));
    } else {
        let behind = members_bytes::<T>(all.drop_first());
        assert(members_bytes::<T>(all) == T::bytes_of(all[0]) + behind);
    }
}

/// Bytes that begin with the number of no choice, or with no number, are refused.
pub proof fn unknown_choices_are_refused(b: Seq<u8>)
    ensures
        match u32::read(b) {
            None => {
                &&& ChannelReply::read(b) is None
                &&& PortableChannel::read(b) is None
                &&& PortableSystem::read(b) is None
                &&& PortableFsm::read(b) is None
                &&& PortableServerMessage::read(b) is None
                &&& PortableCall::read(b) is None
                &&& PortableCast::read(b) is None
                &&& PortableReply::read(b) is None
                &&& PortablePresence::read(b) is None
                &&& ExitReason::read(b) is None
                &&& Strategy::read(b) is None
                &&& RestartType::read(b) is None
                &&& ShutdownType::read(b) is None
                &&& ChildType::read(b) is None
            },
            Some((tag, rest)) => {
                &&& tag > 3 ==> ChannelReply::read(b) is None
                &&& tag > 3 ==> PortableChannel::read(b) is None
                &&& tag > 1 ==> PortableSystem::read(b) is None
                &&& tag > 4 ==> PortableFsm::read(b) is None
                &&& tag > 5 ==> PortableServerMessage::read(b) is None
                &&& tag > 5 ==> PortableCall::read(b) is None
                &&& tag > 1 ==> PortableCast::read(b) is None
                &&& tag > 2 ==> PortableReply::read(b) is None
                &&& tag > 3 ==> PortablePresence::read(b) is None
                &&& tag > 4 ==> ExitReason::read(b) is None
                &&& tag > 2 ==> Strategy::read(b) is None
                &&& tag > 2 ==> RestartType::read(b) is None
                &&& tag > 2 ==> ShutdownType::read(b) is None
                &&& tag > 1 ==> ChildType::read(b) is None
            },
        },
{
}

/// Rows that were read are filed by key, and of several with one key the last counts.
pub proof fn last_row_of_key_counts(
    rows: Seq<(Seq<char>, Seq<PortableMetaModel>)>,
    key: Seq<char>,
    i: int,
)
    ensures
        topic_from(rows).contains_key(key) <==> exists|j: int|
            0 <= j < rows.len() && (#[trigger] rows[j]).0 == key,
        0 <= i < rows.len() && rows[i].0 == key && (forall|j: int|
            i < j < rows.len() ==> (#[trigger] rows[j]).0 != key) ==> topic_from(rows)[key]
            == rows[i].1,
    decreases rows.len(),
{
    if rows.len() > 0 {
        let less = rows.drop_last();
        let last = rows.len() - 1;
        last_row_of_key_counts(less, key, i);
        assert(rows[last] == rows.last());
        if exists|j: int| 0 <= j < less.len() && (#[trigger] less[j]).0 == key {
            let j = choose|j: int| 0 <= j < less.len() && (#[trigger] less[j]).0 == key;
            assert(rows[j].0 == key);
        }
        if exists|j: int| 0 <= j < rows.len() && (#[trigger] rows[j]).0 == key {
            let j = choose|j: int| 0 <= j < rows.len() && (#[trigger] rows[j]).0 == key;
            if j < last {
                assert(less[j].0 == key);
            }
        }
        if 0 <= i < last && rows[i].0 == key && (forall|j: int|
            i < j < rows.len() ==> (#[trigger] rows[j]).0 != key) {
            assert(less[i] == rows[i]);
            assert(rows[last].0 != key);
            assert forall|j: int| i < j < less.len() implies (#[trigger] less[j]).0 != key by {
                assert(less[j] == rows[j]);
            }
        }
    }
}

/// Entries that were read are those that were sent, key by key, in order, and every
/// part of each.
pub proof fn read_entries_are_those_sent(
    atoms: &AtomTable,
    topic: TopicModel,
    sent: Map<Seq<char>, Seq<PortableMetaModel>>,
    key: Seq<char>,
    i: int,
)
    requires
        is_import(atoms, topic, sent),
    ensures
        topic.contains_key(key) == sent.contains_key(key),
        topic.contains_key(key) ==> topic[key].len() == sent[key].len(),
        topic.contains_key(key) && 0 <= i < topic[key].len() ==> {
            let (a, b) = (topic[key][i], sent[key][i]);
            &&& a.phx_ref == b.phx_ref
            &&& a.phx_ref_prev == b.phx_ref_prev
            &&& a.meta == b.meta
            &&& a.updated_at == b.updated_at
            &&& atoms.string(a.pid.spec_node()) == b.pid.node
            &&& a.pid.spec_id() == b.pid.id
            &&& a.pid.spec_creation() == b.pid.creation
        },
{
    if topic.contains_key(key) && 0 <= i < topic[key].len() {
        assert(portable_metas(atoms, topic[key])[i] == portable_meta(atoms, topic[key][i]));
    }
}

/// Two messages of a channel that any node reads alike say the same, every part of
/// it.
pub proof fn channel_message_survives_wire(atoms: AtomTable, a: ChannelMessage, b: ChannelMessage)
    requires
        atoms.well_formed(),
        knows_channel(&atoms, a),
        knows_channel(&atoms, b),
        portable_channel(&atoms, a) == portable_channel(&atoms, b),
    ensures
        match (a, b) {
            (
                ChannelMessage::Join { topic: t, payload: p, client_pid: c, msg_ref: m },
                ChannelMessage::Join { topic, payload, client_pid, msg_ref },
            ) => topic@ == t@ && payload@ == p@ && client_pid == c && msg_ref@ == m@,
            (
                ChannelMessage::Event { topic: t, event: e, payload: p, msg_ref: m },
                ChannelMessage::Event { topic, event, payload, msg_ref },
            ) => topic@ == t@ && event@ == e@ && payload@ == p@ && msg_ref@ == m@,
            (ChannelMessage::Leave { topic: t }, ChannelMessage::Leave { topic }) => topic@ == t@,
            (
                ChannelMessage::Broadcast { topic: t, event: e, payload: p },
                ChannelMessage::Broadcast { topic, event, payload },
            ) => topic@ == t@ && event@ == e@ && payload@ == p@,
            _ => false,
        },
{
    match (a, b) {
        (
            ChannelMessage::Join { topic: t, payload: p, client_pid: c, msg_ref: m },
            ChannelMessage::Join { topic, payload, client_pid, msg_ref },
        ) => {
            pid_survives_wire(atoms, c, client_pid);
        },
        _ => {},
    }
}

/// Two calls of a presence server that any node reads alike say the same, every part
/// of it.
pub proof fn presence_call_survives_wire(atoms: AtomTable, a: PresenceCall, b: PresenceCall)
    requires
        atoms.well_formed(),
        knows_call(&atoms, a),
        knows_call(&atoms, b),
        portable_call(&atoms, a) == portable_call(&atoms, b),
    ensures
        match (a, b) {
            (
                PresenceCall::Track { topic: t, key: k, pid: p, meta: m },
                PresenceCall::Track { topic, key, pid, meta },
            ) => topic@ == t@ && key@ == k@ && pid == p && meta@ == m@,
            (
                PresenceCall::Untrack { topic: t, key: k, pid: p },
                PresenceCall::Untrack { topic, key, pid },
            ) => topic@ == t@ && key@ == k@ && pid == p,
            (PresenceCall::UntrackAll { pid: p }, PresenceCall::UntrackAll { pid }) => pid == p,
            (
                PresenceCall::Update { topic: t, key: k, pid: p, meta: m },
                PresenceCall::Update { topic, key, pid, meta },
            ) => topic@ == t@ && key@ == k@ && pid == p && meta@ == m@,
            (PresenceCall::List { topic: t }, PresenceCall::List { topic }) => topic@ == t@,
            (
                PresenceCall::Get { topic: t, key: k },
                PresenceCall::Get { topic, key },
            ) => topic@ == t@ && key@ == k@,
            _ => false,
        },
{
    match (a, b) {
        (
            PresenceCall::Track { topic: t, key: k, pid: p, meta: m },
            PresenceCall::Track { topic, key, pid, meta },
        ) => {
            pid_survives_wire(atoms, p, pid);
        },
        (
            PresenceCall::Untrack { topic: t, key: k, pid: p },
            PresenceCall::Untrack { topic, key, pid },
        ) => {
            pid_survives_wire(atoms, p, pid);
        },
        (PresenceCall::UntrackAll { pid: p }, PresenceCall::UntrackAll { pid }) => {
            pid_survives_wire(atoms, p, pid);
        },
        (
            PresenceCall::Update { topic: t, key: k, pid: p, meta: m },
            PresenceCall::Update { topic, key, pid, meta },
        ) => {
            pid_survives_wire(atoms, p, pid);
        },
        _ => {},
    }
}

} // verus!
