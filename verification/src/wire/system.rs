//! Messages of the runtime as bytes.
use crate::atom::AtomTable;
use crate::base::exit_reason::{ExitModel, ExitReason};
use crate::base::message::{SystemMessage, SystemModel};
use crate::base::reference::Ref;
use crate::wire::identity::{interned, portable, PidModel, PortablePid};
use crate::wire::primitive::{decode, encode, lemma_tagged, Wire};
use vstd::prelude::*;

verus! {

/// A message of the runtime that any node can read.
#[derive(Debug)]
#[allow(inconsistent_fields)]
pub enum PortableSystem {
    Exit { from: PortablePid, reason: ExitReason },
    Down { monitor_ref: Ref, pid: PortablePid, reason: ExitReason },
}

/// What it says.
#[allow(inconsistent_fields)]
pub enum PortableSystemModel {
    Exit { from: PidModel, reason: ExitModel },
    Down { monitor_ref: Ref, pid: PidModel, reason: ExitModel },
}

impl DeepView for PortableSystem {
    type V = PortableSystemModel;

    open spec fn deep_view(&self) -> PortableSystemModel {
        match self {
            PortableSystem::Exit { from, reason } => PortableSystemModel::Exit {
                from: from.deep_view(),
                reason: reason.deep_view(),
            },
            PortableSystem::Down { monitor_ref, pid, reason } => PortableSystemModel::Down {
                monitor_ref: monitor_ref.deep_view(),
                pid: pid.deep_view(),
                reason: reason.deep_view(),
            },
        }
    }
}

impl Wire for PortableSystem {
    open spec fn bytes_of(model: PortableSystemModel) -> Seq<u8> {
        match model {
            PortableSystemModel::Exit { from, reason } => u32::bytes_of(0) + <(PortablePid, ExitReason)>::bytes_of(
                (from, reason),
            ),
            PortableSystemModel::Down { monitor_ref, pid, reason } => u32::bytes_of(1) + <(Ref, (PortablePid, ExitReason))>::bytes_of(
                (monitor_ref, (pid, reason)),
            ),
        }
    }

    open spec fn read(b: Seq<u8>) -> Option<(PortableSystemModel, Seq<u8>)> {
        match u32::read(b) {
            Some((tag, rest)) => if tag == 0 {
                match <(PortablePid, ExitReason)>::read(rest) {
                    Some(((from, reason), rest)) => Some(
                        (PortableSystemModel::Exit { from, reason }, rest),
                    ),
                    None => None,
                }
            } else if tag == 1 {
                match <(Ref, (PortablePid, ExitReason))>::read(rest) {
                    Some(((monitor_ref, (pid, reason)), rest)) => Some(
                        (PortableSystemModel::Down { monitor_ref, pid, reason }, rest),
                    ),
                    None => None,
                }
            } else {
                None
            },
            None => None,
        }
    }

    open spec fn fits(model: PortableSystemModel) -> bool {
        match model {
            PortableSystemModel::Exit { from, reason } => <(PortablePid, ExitReason)>::fits(
                (from, reason),
            ),
            PortableSystemModel::Down { monitor_ref, pid, reason } => <(Ref, (PortablePid, ExitReason))>::fits(
                (monitor_ref, (pid, reason)),
            ),
        }
    }

    proof fn round_trip(model: PortableSystemModel, rest: Seq<u8>) {
        match model {
            PortableSystemModel::Exit { from, reason } => {
                lemma_tagged::<(PortablePid, ExitReason)>(0, (from, reason), rest);
            },
            PortableSystemModel::Down { monitor_ref, pid, reason } => {
                lemma_tagged::<(Ref, (PortablePid, ExitReason))>(1, (monitor_ref, (pid, reason)), rest);
            },
        }
    }

    fn put(&self, out: &mut Vec<u8>) {
        let ghost before = out@;
        match self {
            PortableSystem::Exit { from, reason } => {
                0u32.put(out);
                from.put(out);
                reason.put(out);
            },
            PortableSystem::Down { monitor_ref, pid, reason } => {
                1u32.put(out);
                monitor_ref.put(out);
                pid.put(out);
                reason.put(out);
            },
        }
        assert(out@ =~= before + Self::bytes_of(self.deep_view()));
    }

    fn take<'a>(b: &'a [u8]) -> (r: Option<(Self, &'a [u8])>) {
        let (tag, rest) = match u32::take(b) {
            Some(x) => x,
            None => {
                return None;
            },
        };
        if tag == 0 {
            match <(PortablePid, ExitReason)>::take(rest) {
                Some(((from, reason), rest)) => Some(
                    (PortableSystem::Exit { from, reason }, rest),
                ),
                None => None,
            }
        } else if tag == 1 {
            match <(Ref, (PortablePid, ExitReason))>::take(rest) {
                Some(((monitor_ref, (pid, reason)), rest)) => Some(
                    (PortableSystem::Down { monitor_ref, pid, reason }, rest),
                ),
                None => None,
            }
        } else {
            None
        }
    }
}

/// What a message says to any node.
pub open spec fn portable_system(atoms: &AtomTable, m: SystemModel) -> PortableSystemModel {
    match m {
        SystemModel::Exit { from, reason } => PortableSystemModel::Exit {
            from: portable(atoms, from),
            reason,
        },
        SystemModel::Down { monitor_ref, pid, reason } => PortableSystemModel::Down {
            monitor_ref,
            pid: portable(atoms, pid),
            reason,
        },
    }
}

/// Whether the nodes of the processes that a message names are known.
pub open spec fn knows_system(atoms: &AtomTable, m: SystemModel) -> bool {
    match m {
        SystemModel::Exit { from, reason } => atoms.knows(from.spec_node()),
        SystemModel::Down { monitor_ref, pid, reason } => atoms.knows(pid.spec_node()),
    }
}

/// The strings of a table after a message was read.
pub open spec fn after_reading_system(strings: Seq<Seq<char>>, m: PortableSystemModel) -> Seq<
    Seq<char>,
> {
    match m {
        PortableSystemModel::Exit { from, reason } => interned(strings, from.node),
        PortableSystemModel::Down { monitor_ref, pid, reason } => interned(strings, pid.node),
    }
}

/// The bytes of a message.
pub open spec fn system_bytes(atoms: &AtomTable, m: SystemModel) -> Seq<u8> {
    PortableSystem::bytes_of(portable_system(atoms, m))
}

impl SystemMessage {
    /// The message as bytes.
    pub fn encode(&self, atoms: &AtomTable) -> (r: Vec<u8>)
        requires
            knows_system(atoms, self.deep_view()),
        ensures
            r@ == system_bytes(atoms, self.deep_view()),
    {
        let m = match self {
            SystemMessage::Exit { from, reason } => PortableSystem::Exit {
                from: PortablePid::of(atoms, *from),
                reason: reason.clone(),
            },
            SystemMessage::Down { monitor_ref, pid, reason } => PortableSystem::Down {
                monitor_ref: *monitor_ref,
                pid: PortablePid::of(atoms, *pid),
                reason: reason.clone(),
            },
        };
        encode(&m)
    }

    /// The message from bytes.
    pub fn decode(atoms: &mut AtomTable, b: &[u8]) -> (r: Option<SystemMessage>)
        requires
            old(atoms).well_formed(),
            old(atoms).room_for(1),
        ensures
            final(atoms).well_formed(),
            match PortableSystem::read(b@) {
                Some((model, rest)) => {
                    &&& r matches Some(m)
                    &&& final(atoms)@ == after_reading_system(old(atoms)@, model)
                    &&& knows_system(final(atoms), m.deep_view())
                    &&& portable_system(final(atoms), m.deep_view()) == model
                },
                None => r is None && final(atoms)@ == old(atoms)@,
            },
    {
        match decode::<PortableSystem>(b) {
            Some(PortableSystem::Exit { from, reason }) => Some(
                SystemMessage::Exit { from: from.localize(atoms), reason },
            ),
            Some(PortableSystem::Down { monitor_ref, pid, reason }) => Some(
                SystemMessage::Down { monitor_ref, pid: pid.localize(atoms), reason },
            ),
            None => None,
        }
    }
}

/// Two messages that any node reads alike are the same message.
pub proof fn system_message_survives_wire(atoms: AtomTable, a: SystemModel, b: SystemModel)
    requires
        atoms.well_formed(),
        knows_system(&atoms, a),
        knows_system(&atoms, b),
        portable_system(&atoms, a) == portable_system(&atoms, b),
    ensures
        a == b,
{
    match (a, b) {
        (SystemModel::Exit { from: x, .. }, SystemModel::Exit { from: y, .. }) => {
            crate::wire::identity::pid_survives_wire(atoms, x, y);
        },
        (SystemModel::Down { pid: x, .. }, SystemModel::Down { pid: y, .. }) => {
            crate::wire::identity::pid_survives_wire(atoms, x, y);
        },
        _ => {},
    }
}

} // verus!
