//! Messages of state machines as bytes.
use crate::atom::AtomTable;
use crate::base::reference::Ref;
use crate::gen_fsm::protocol::{FsmMessage, FsmMessageModel};
use crate::gen_fsm::types;
use crate::wire::gen_server::{FromModel, PortableFrom};
use crate::wire::identity::{interned, portable, PidModel, PortablePid};
use crate::wire::primitive::{decode, encode, lemma_tagged, Wire};
use crate::data::Data;
use vstd::prelude::*;

verus! {

/// A message of a state machine that any node can read.
#[derive(Debug)]
#[allow(inconsistent_fields)]
pub enum PortableFsm {
    Event(Vec<u8>),
    Call { from: PortablePid, reference: Ref, request: Vec<u8> },
    Reply { reference: Ref, reply: Vec<u8> },
    StateTimeout,
    GenericTimeout(String),
}

/// What it says.
#[allow(inconsistent_fields)]
pub enum PortableFsmModel {
    Event(Seq<u8>),
    Call { from: PidModel, reference: Ref, request: Seq<u8> },
    Reply { reference: Ref, reply: Seq<u8> },
    StateTimeout,
    GenericTimeout(Seq<char>),
}

impl DeepView for PortableFsm {
    type V = PortableFsmModel;

    open spec fn deep_view(&self) -> PortableFsmModel {
        match self {
            PortableFsm::Event(data) => PortableFsmModel::Event(data.deep_view()),
            PortableFsm::Call { from, reference, request } => PortableFsmModel::Call {
                from: from.deep_view(),
                reference: reference.deep_view(),
                request: request.deep_view(),
            },
            PortableFsm::Reply { reference, reply } => PortableFsmModel::Reply {
                reference: reference.deep_view(),
                reply: reply.deep_view(),
            },
            PortableFsm::StateTimeout => PortableFsmModel::StateTimeout,
            PortableFsm::GenericTimeout(name) => PortableFsmModel::GenericTimeout(name.deep_view()),
        }
    }
}

impl Wire for PortableFsm {
    open spec fn bytes_of(model: PortableFsmModel) -> Seq<u8> {
        match model {
            PortableFsmModel::Event(data) => u32::bytes_of(0) + <Vec<u8>>::bytes_of(
                data,
            ),
            PortableFsmModel::Call { from, reference, request } => u32::bytes_of(1) + <(PortablePid, (Ref, Vec<u8>))>::bytes_of(
                (from, (reference, request)),
            ),
            PortableFsmModel::Reply { reference, reply } => u32::bytes_of(2) + <(Ref, Vec<u8>)>::bytes_of(
                (reference, reply),
            ),
            PortableFsmModel::StateTimeout => u32::bytes_of(3),
            PortableFsmModel::GenericTimeout(name) => u32::bytes_of(4) + String::bytes_of(
                name,
            ),
        }
    }

    open spec fn read(b: Seq<u8>) -> Option<(PortableFsmModel, Seq<u8>)> {
        match u32::read(b) {
            Some((tag, rest)) => if tag == 0 {
                match <Vec<u8>>::read(rest) {
                    Some((data, rest)) => Some(
                        (PortableFsmModel::Event(data), rest),
                    ),
                    None => None,
                }
            } else if tag == 1 {
                match <(PortablePid, (Ref, Vec<u8>))>::read(rest) {
                    Some(((from, (reference, request)), rest)) => Some(
                        (PortableFsmModel::Call { from, reference, request }, rest),
                    ),
                    None => None,
                }
            } else if tag == 2 {
                match <(Ref, Vec<u8>)>::read(rest) {
                    Some(((reference, reply), rest)) => Some(
                        (PortableFsmModel::Reply { reference, reply }, rest),
                    ),
                    None => None,
                }
            } else if tag == 3 {
                Some((PortableFsmModel::StateTimeout, rest))
            } else if tag == 4 {
                match String::read(rest) {
                    Some((name, rest)) => Some(
                        (PortableFsmModel::GenericTimeout(name), rest),
                    ),
                    None => None,
                }
            } else {
                None
            },
            None => None,
        }
    }

    open spec fn fits(model: PortableFsmModel) -> bool {
        match model {
            PortableFsmModel::Event(data) => <Vec<u8>>::fits(
                data,
            ),
            PortableFsmModel::Call { from, reference, request } => <(PortablePid, (Ref, Vec<u8>))>::fits(
                (from, (reference, request)),
            ),
            PortableFsmModel::Reply { reference, reply } => <(Ref, Vec<u8>)>::fits(
                (reference, reply),
            ),
            PortableFsmModel::StateTimeout => true,
            PortableFsmModel::GenericTimeout(name) => String::fits(
                name,
            ),
        }
    }

    proof fn round_trip(model: PortableFsmModel, rest: Seq<u8>) {
        match model {
            PortableFsmModel::Event(data) => {
                lemma_tagged::<Vec<u8>>(0, data, rest);
            },
            PortableFsmModel::Call { from, reference, request } => {
                lemma_tagged::<(PortablePid, (Ref, Vec<u8>))>(1, (from, (reference, request)), rest);
            },
            PortableFsmModel::Reply { reference, reply } => {
                lemma_tagged::<(Ref, Vec<u8>)>(2, (reference, reply), rest);
            },
            PortableFsmModel::StateTimeout => {
                u32::round_trip(3, rest);
            },
            PortableFsmModel::GenericTimeout(name) => {
                lemma_tagged::<String>(4, name, rest);
            },
        }
    }

    fn put(&self, out: &mut Vec<u8>) {
        let ghost before = out@;
        match self {
            PortableFsm::Event(data) => {
                0u32.put(out);
                data.put(out);
            },
            PortableFsm::Call { from, reference, request } => {
                1u32.put(out);
                from.put(out);
                reference.put(out);
                request.put(out);
            },
            PortableFsm::Reply { reference, reply } => {
                2u32.put(out);
                reference.put(out);
                reply.put(out);
            },
            PortableFsm::StateTimeout => {
                3u32.put(out);
            },
            PortableFsm::GenericTimeout(name) => {
                4u32.put(out);
                name.put(out);
            },
        }
        assert(out@ =~= before + Self::bytes_of(self.deep_view()));
    }

    fn take<'a>(b: &'a [u8]) -> (r: Option<(Self, &'a [u8])>) {
        let (tag, rest) = match u32::take(b) {
            Some(x) => x,
            None => {
                return None;
            },
        };
        if tag == 0 {
            match <Vec<u8>>::take(rest) {
                Some((data, rest)) => Some(
                    (PortableFsm::Event(data), rest),
                ),
                None => None,
            }
        } else if tag == 1 {
            match <(PortablePid, (Ref, Vec<u8>))>::take(rest) {
                Some(((from, (reference, request)), rest)) => Some(
                    (PortableFsm::Call { from, reference, request }, rest),
                ),
                None => None,
            }
        } else if tag == 2 {
            match <(Ref, Vec<u8>)>::take(rest) {
                Some(((reference, reply), rest)) => Some(
                    (PortableFsm::Reply { reference, reply }, rest),
                ),
                None => None,
            }
        } else if tag == 3 {
            Some((PortableFsm::StateTimeout, rest))
        } else if tag == 4 {
            match String::take(rest) {
                Some((name, rest)) => Some(
                    (PortableFsm::GenericTimeout(name), rest),
                ),
                None => None,
            }
        } else {
            None
        }
    }
}

/// What a message says to any node.
pub open spec fn portable_fsm(atoms: &AtomTable, m: FsmMessageModel) -> PortableFsmModel {
    match m {
        FsmMessageModel::Event(data) => PortableFsmModel::Event(data),
        FsmMessageModel::Call { from, reference, request } => PortableFsmModel::Call {
            from: portable(atoms, from),
            reference,
            request,
        },
        FsmMessageModel::Reply { reference, reply } => PortableFsmModel::Reply {
            reference,
            reply,
        },
        FsmMessageModel::StateTimeout => PortableFsmModel::StateTimeout,
        FsmMessageModel::GenericTimeout(name) => PortableFsmModel::GenericTimeout(name),
    }
}

/// Whether the nodes of the processes that a message names are known.
pub open spec fn knows_fsm(atoms: &AtomTable, m: FsmMessageModel) -> bool {
    match m {
        FsmMessageModel::Call { from, reference, request } => atoms.knows(from.spec_node()),
        _ => true,
    }
}

/// The strings of a table after a message was read.
pub open spec fn after_reading_fsm(strings: Seq<Seq<char>>, m: PortableFsmModel) -> Seq<Seq<char>> {
    match m {
        PortableFsmModel::Call { from, reference, request } => interned(strings, from.node),
        _ => strings,
    }
}

impl FsmMessage {
    /// The message as bytes.
    pub fn encode(&self, atoms: &AtomTable) -> (r: Vec<u8>)
        requires
            knows_fsm(atoms, self.deep_view()),
        ensures
            r@ == PortableFsm::bytes_of(portable_fsm(atoms, self.deep_view())),
    {
        let m = match self {
            FsmMessage::Event(data) => {
                assert(data.deep_view() =~= data@);
                PortableFsm::Event(data.duplicate())
            },
            FsmMessage::Call { from, reference, request } => {
                assert(request.deep_view() =~= request@);
                PortableFsm::Call {
                    from: PortablePid::of(atoms, *from),
                    reference: *reference,
                    request: request.duplicate(),
                }
            },
            FsmMessage::Reply { reference, reply } => {
                assert(reply.deep_view() =~= reply@);
                PortableFsm::Reply { reference: *reference, reply: reply.duplicate() }
            },
            FsmMessage::StateTimeout => PortableFsm::StateTimeout,
            FsmMessage::GenericTimeout(name) => PortableFsm::GenericTimeout(name.clone()),
        };
        encode(&m)
    }

    /// The message from bytes.
    pub fn decode(atoms: &mut AtomTable, b: &[u8]) -> (r: Option<FsmMessage>)
        requires
            old(atoms).well_formed(),
            old(atoms).room_for(1),
        ensures
            final(atoms).well_formed(),
            match PortableFsm::read(b@) {
                Some((model, rest)) => {
                    &&& r matches Some(m)
                    &&& final(atoms)@ == after_reading_fsm(old(atoms)@, model)
                    &&& knows_fsm(final(atoms), m.deep_view())
                    &&& portable_fsm(final(atoms), m.deep_view()) == model
                },
                None => r is None && final(atoms)@ == old(atoms)@,
            },
    {
        match decode::<PortableFsm>(b) {
            Some(PortableFsm::Event(data)) => {
                assert(data.deep_view() =~= data@);
                Some(FsmMessage::Event(data))
            },
            Some(PortableFsm::Call { from, reference, request }) => {
                assert(request.deep_view() =~= request@);
                Some(FsmMessage::Call { from: from.localize(atoms), reference, request })
            },
            Some(PortableFsm::Reply { reference, reply }) => {
                assert(reply.deep_view() =~= reply@);
                Some(FsmMessage::Reply { reference, reply })
            },
            Some(PortableFsm::StateTimeout) => Some(FsmMessage::StateTimeout),
            Some(PortableFsm::GenericTimeout(name)) => Some(FsmMessage::GenericTimeout(name)),
            None => None,
        }
    }
}

/// Two messages that any node reads alike are the same message.
pub proof fn fsm_message_survives_wire(atoms: AtomTable, a: FsmMessageModel, b: FsmMessageModel)
    requires
        atoms.well_formed(),
        knows_fsm(&atoms, a),
        knows_fsm(&atoms, b),
        portable_fsm(&atoms, a) == portable_fsm(&atoms, b),
    ensures
        a == b,
{
    if let (FsmMessageModel::Call { from: x, .. }, FsmMessageModel::Call { from: y, .. }) = (a, b) {
        crate::wire::identity::pid_survives_wire(atoms, x, y);
    }
}

impl types::From {
    /// The call as bytes.
    pub fn encode(&self, atoms: &AtomTable) -> (r: Vec<u8>)
        requires
            atoms.knows(self.caller.spec_node()),
        ensures
            r@ == PortableFrom::bytes_of(
                FromModel { caller: portable(atoms, self.caller), reference: self.reference },
            ),
    {
        encode(
            &PortableFrom {
                caller: PortablePid::of(atoms, self.caller),
                reference: self.reference,
            },
        )
    }

    /// The call from bytes.
    pub fn decode(atoms: &mut AtomTable, b: &[u8]) -> (r: Option<types::From>)
        requires
            old(atoms).well_formed(),
            old(atoms).room_for(1),
        ensures
            final(atoms).well_formed(),
            match PortableFrom::read(b@) {
                Some((model, rest)) => {
                    &&& r matches Some(from)
                    &&& final(atoms)@ == interned(old(atoms)@, model.caller.node)
                    &&& final(atoms).knows(from.caller.spec_node())
                    &&& portable(final(atoms), from.caller) == model.caller
                    &&& from.reference == model.reference
                },
                None => r is None && final(atoms)@ == old(atoms)@,
            },
    {
        match decode::<PortableFrom>(b) {
            Some(PortableFrom { caller, reference }) => Some(
                types::From::new(caller.localize(atoms), reference),
            ),
            None => None,
        }
    }
}

} // verus!
