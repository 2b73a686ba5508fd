//! The messages of servers.
use crate::atom::AtomTable;
use crate::base::exit_reason::{ExitModel, ExitReason};
use crate::base::reference::Ref;
use crate::data::Data;
use crate::gen_fsm::types;
use crate::wire::gen_server::{
    FromModel, PortableFrom, PortableServerMessage, PortableServerModel,
};
use crate::wire::identity::{interned, portable, PortablePid};
use crate::wire::primitive::{encode, Wire};
use vstd::prelude::*;

verus! {

/// A message to the process of a server, or back from it.
#[derive(Debug)]
#[allow(inconsistent_fields)]
pub enum GenServerMessage {
    /// A call.
    Call {
        /// Who waits for the reply.
        from: types::From,
        /// The request, encoded.
        payload: Vec<u8>,
    },
    /// Something that no reply is expected to.
    Cast {
        /// The message, encoded.
        payload: Vec<u8>,
    },
    /// The reply to a call.
    Reply {
        /// The reference of the call.
        reference: Ref,
        /// The reply, encoded.
        payload: Vec<u8>,
    },
    /// A request to stop.
    Stop {
        /// Why.
        reason: ExitReason,
        /// Who waits for it, if anyone.
        from: Option<types::From>,
    },
    /// A time ran out.
    Timeout,
    /// The server goes on with something.
    Continue {
        /// What it goes on with, encoded.
        arg: Vec<u8>,
    },
}

/// What a message says.
#[allow(inconsistent_fields)]
pub enum ServerModel {
    Call { from: types::From, payload: Seq<u8> },
    Cast { payload: Seq<u8> },
    Reply { reference: Ref, payload: Seq<u8> },
    Stop { reason: ExitModel, from: Option<types::From> },
    Timeout,
    Continue { arg: Seq<u8> },
}

impl DeepView for GenServerMessage {
    type V = ServerModel;

    open spec fn deep_view(&self) -> ServerModel {
        match self {
            GenServerMessage::Call { from, payload } => ServerModel::Call {
                from: *from,
                payload: payload@,
            },
            GenServerMessage::Cast { payload } => ServerModel::Cast { payload: payload@ },
            GenServerMessage::Reply { reference, payload } => ServerModel::Reply {
                reference: *reference,
                payload: payload@,
            },
            GenServerMessage::Stop { reason, from } => ServerModel::Stop {
                reason: reason.deep_view(),
                from: *from,
            },
            GenServerMessage::Timeout => ServerModel::Timeout,
            GenServerMessage::Continue { arg } => ServerModel::Continue { arg: arg@ },
        }
    }
}

/// What a waiting call is to any node.
pub open spec fn portable_from(atoms: &AtomTable, from: types::From) -> FromModel {
    FromModel { caller: portable(atoms, from.caller), reference: from.reference }
}

/// What a message says to any node.
pub open spec fn portable_server(atoms: &AtomTable, m: ServerModel) -> PortableServerModel {
    match m {
        ServerModel::Call { from, payload } => PortableServerModel::Call {
            from: portable_from(atoms, from),
            payload,
        },
        ServerModel::Cast { payload } => PortableServerModel::Cast { payload },
        ServerModel::Reply { reference, payload } => PortableServerModel::Reply {
            reference,
            payload,
        },
        ServerModel::Stop { reason, from } => PortableServerModel::Stop {
            reason,
            from: match from {
                Some(from) => Some(portable_from(atoms, from)),
                None => None,
            },
        },
        ServerModel::Timeout => PortableServerModel::Timeout,
        ServerModel::Continue { arg } => PortableServerModel::Continue { arg },
    }
}

/// Whether the nodes of the processes that a message names are known.
pub open spec fn knows_server(atoms: &AtomTable, m: ServerModel) -> bool {
    match m {
        ServerModel::Call { from, payload } => atoms.knows(from.caller.spec_node()),
        ServerModel::Stop { reason, from: Some(from) } => atoms.knows(from.caller.spec_node()),
        _ => true,
    }
}

/// The strings of a table after a message was read.
pub open spec fn after_reading_server(strings: Seq<Seq<char>>, m: PortableServerModel) -> Seq<
    Seq<char>,
> {
    match m {
        PortableServerModel::Call { from, payload } => interned(strings, from.caller.node),
        PortableServerModel::Stop { reason, from: Some(from) } => interned(
            strings,
            from.caller.node,
        ),
        _ => strings,
    }
}

/// The bytes of a message.
pub open spec fn server_bytes(atoms: &AtomTable, m: ServerModel) -> Seq<u8> {
    PortableServerMessage::bytes_of(portable_server(atoms, m))
}

fn portable_call(atoms: &AtomTable, from: types::From) -> (r: PortableFrom)
    requires
        atoms.knows(from.caller.spec_node()),
    ensures
        r.deep_view() == portable_from(atoms, from),
{
    PortableFrom { caller: PortablePid::of(atoms, from.caller), reference: from.reference }
}

/// A call with an encoded request, as bytes.
pub fn encode_call(atoms: &AtomTable, from: types::From, request: Vec<u8>) -> (r: Vec<u8>)
    requires
        atoms.knows(from.caller.spec_node()),
    ensures
        r@ == server_bytes(atoms, ServerModel::Call { from, payload: request@ }),
{
    assert(request.deep_view() =~= request@);
    encode(&PortableServerMessage::Call { from: portable_call(atoms, from), payload: request })
}

/// A cast with an encoded message, as bytes.
pub fn encode_cast(msg: Vec<u8>) -> (r: Vec<u8>)
    ensures
        r@ == PortableServerMessage::bytes_of(PortableServerModel::Cast { payload: msg@ }),
{
    assert(msg.deep_view() =~= msg@);
    encode(&PortableServerMessage::Cast { payload: msg })
}

/// A reply, encoded already, as bytes.
pub fn encode_reply(reference: Ref, reply: Vec<u8>) -> (r: Vec<u8>)
    ensures
        r@ == PortableServerMessage::bytes_of(
            PortableServerModel::Reply { reference, payload: reply@ },
        ),
{
    assert(reply.deep_view() =~= reply@);
    encode(&PortableServerMessage::Reply { reference, payload: reply })
}

/// A request to stop, as bytes.
pub fn encode_stop(atoms: &AtomTable, reason: ExitReason, from: Option<types::From>) -> (r: Vec<u8>)
    requires
        from matches Some(f) ==> atoms.knows(f.caller.spec_node()),
    ensures
        r@ == server_bytes(atoms, ServerModel::Stop { reason: reason.deep_view(), from }),
{
    let from = match from {
        Some(from) => Some(portable_call(atoms, from)),
        None => None,
    };
    encode(&PortableServerMessage::Stop { reason, from })
}

/// That a time ran out, as bytes.
pub fn encode_timeout() -> (r: Vec<u8>)
    ensures
        r@ == PortableServerMessage::bytes_of(PortableServerModel::Timeout),
{
    encode(&PortableServerMessage::Timeout)
}

/// That the server goes on with something, encoded already, as bytes.
pub fn encode_continue(arg: &Vec<u8>) -> (r: Vec<u8>)
    ensures
        r@ == PortableServerMessage::bytes_of(PortableServerModel::Continue { arg: arg@ }),
{
    assert(arg.deep_view() =~= arg@);
    encode(&PortableServerMessage::Continue { arg: arg.duplicate() })
}

/// That bytes are no message.
#[derive(Clone, Copy, Debug, PartialEq, Eq, Structural)]
pub struct DecodeError;

/// The message from bytes.
pub fn decode(atoms: &mut AtomTable, data: &[u8]) -> (r: Result<GenServerMessage, DecodeError>)
    requires
        old(atoms).well_formed(),
        old(atoms).room_for(1),
    ensures
        final(atoms).well_formed(),
        match PortableServerMessage::read(data@) {
            Some((model, rest)) => {
                &&& r matches Ok(m)
                &&& final(atoms)@ == after_reading_server(old(atoms)@, model)
                &&& knows_server(final(atoms), m.deep_view())
                &&& portable_server(final(atoms), m.deep_view()) == model
            },
            None => r == Err::<GenServerMessage, DecodeError>(DecodeError) && final(atoms)@ == old(
                atoms,
            )@,
        },
{
    match crate::wire::primitive::decode::<PortableServerMessage>(data) {
        Some(PortableServerMessage::Call { from, payload }) => {
            assert(payload.deep_view() =~= payload@);
            let caller = from.caller.localize(atoms);
            Ok(
                GenServerMessage::Call {
                    from: types::From { caller, reference: from.reference },
                    payload,
                },
            )
        },
        Some(PortableServerMessage::Cast { payload }) => {
            assert(payload.deep_view() =~= payload@);
            Ok(GenServerMessage::Cast { payload })
        },
        Some(PortableServerMessage::Reply { reference, payload }) => {
            assert(payload.deep_view() =~= payload@);
            Ok(GenServerMessage::Reply { reference, payload })
        },
        Some(PortableServerMessage::Stop { reason, from }) => {
            let from = match from {
                Some(from) => {
                    let caller = from.caller.localize(atoms);
                    Some(types::From { caller, reference: from.reference })
                },
                None => None,
            };
            Ok(GenServerMessage::Stop { reason, from })
        },
        Some(PortableServerMessage::Timeout) => Ok(GenServerMessage::Timeout),
        Some(PortableServerMessage::Continue { arg }) => {
            assert(arg.deep_view() =~= arg@);
            Ok(GenServerMessage::Continue { arg })
        },
        None => Err(DecodeError),
    }
}

/// Two messages that any node reads alike are the same message.
pub proof fn server_message_survives_wire(atoms: AtomTable, a: ServerModel, b: ServerModel)
    requires
        atoms.well_formed(),
        knows_server(&atoms, a),
        knows_server(&atoms, b),
        portable_server(&atoms, a) == portable_server(&atoms, b),
    ensures
        a == b,
{
    match (a, b) {
        (ServerModel::Call { from: x, payload: p }, ServerModel::Call { from: y, payload: q }) => {
            crate::wire::identity::pid_survives_wire(atoms, x.caller, y.caller);
        },
        (
            ServerModel::Stop { reason: p, from: Some(x) },
            ServerModel::Stop { reason: q, from: Some(y) },
        ) => {
            crate::wire::identity::pid_survives_wire(atoms, x.caller, y.caller);
        },
        _ => {},
    }
}

/// A message says what is in it, every part of it.
pub proof fn server_messages_are_read_whole(message: GenServerMessage, model: ServerModel)
    ensures
        message.deep_view() == model <==> match (message, model) {
            (
                GenServerMessage::Call { from: f, payload: p },
                ServerModel::Call { from, payload },
            ) => f == from && p@ == payload,
            (GenServerMessage::Cast { payload: p }, ServerModel::Cast { payload }) => p@ == payload,
            (
                GenServerMessage::Reply { reference: r, payload: p },
                ServerModel::Reply { reference, payload },
            ) => r == reference && p@ == payload,
            (
                GenServerMessage::Stop { reason: r, from: f },
                ServerModel::Stop { reason, from },
            ) => r.deep_view() == reason && f == from,
            (GenServerMessage::Timeout, ServerModel::Timeout) => true,
            (GenServerMessage::Continue { arg: a }, ServerModel::Continue { arg }) => a@ == arg,
            _ => false,
        },
{
}

/// The bytes of a message are those of what it says to any node, every part of it.
pub proof fn server_bytes_say_all(atoms: &AtomTable, m: ServerModel)
    ensures
        server_bytes(atoms, m) == PortableServerMessage::bytes_of(
            match m {
                ServerModel::Call { from, payload } => PortableServerModel::Call {
                    from: FromModel {
                        caller: portable(atoms, from.caller),
                        reference: from.reference,
                    },
                    payload,
                },
                ServerModel::Cast { payload } => PortableServerModel::Cast { payload },
                ServerModel::Reply { reference, payload } => PortableServerModel::Reply {
                    reference,
                    payload,
                },
                ServerModel::Stop { reason, from: Some(from) } => PortableServerModel::Stop {
                    reason,
                    from: Some(
                        FromModel {
                            caller: portable(atoms, from.caller),
                            reference: from.reference,
                        },
                    ),
                },
                ServerModel::Stop { reason, from: None } => PortableServerModel::Stop {
                    reason,
                    from: None,
                },
                ServerModel::Timeout => PortableServerModel::Timeout,
                ServerModel::Continue { arg } => PortableServerModel::Continue { arg },
            },
        ),
{
}

} // verus!
