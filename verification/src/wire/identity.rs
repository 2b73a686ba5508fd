//! Identities and exit reasons as bytes.
use crate::atom::{Atom, AtomTable};
use crate::base::exit_reason::{ExitModel, ExitReason};
use crate::base::node::NodeId;
use crate::base::pid::Pid;
use crate::base::reference::Ref;
use crate::wire::primitive::{decode, encode, Wire};
use vstd::prelude::*;

verus! {

impl Wire for Ref {
    open spec fn bytes_of(model: Ref) -> Seq<u8> {
        u64::bytes_of(model.0)
    }

    open spec fn read(b: Seq<u8>) -> Option<(Ref, Seq<u8>)> {
        match u64::read(b) {
            Some((n, rest)) => Some((Ref(n), rest)),
            None => None,
        }
    }

    open spec fn fits(model: Ref) -> bool {
        true
    }

    proof fn round_trip(model: Ref, rest: Seq<u8>) {
        u64::round_trip(model.0, rest);
    }

    fn put(&self, out: &mut Vec<u8>) {
        self.0.put(out);
    }

    fn take<'a>(b: &'a [u8]) -> (r: Option<(Self, &'a [u8])>) {
        match u64::take(b) {
            Some((n, rest)) => Some((Ref(n), rest)),
            None => None,
        }
    }
}

impl DeepView for NodeId {
    type V = NodeId;

    open spec fn deep_view(&self) -> NodeId {
        *self
    }
}

impl Wire for NodeId {
    open spec fn bytes_of(model: NodeId) -> Seq<u8> {
        u32::bytes_of(model.0)
    }

    open spec fn read(b: Seq<u8>) -> Option<(NodeId, Seq<u8>)> {
        match u32::read(b) {
            Some((n, rest)) => Some((NodeId(n), rest)),
            None => None,
        }
    }

    open spec fn fits(model: NodeId) -> bool {
        true
    }

    proof fn round_trip(model: NodeId, rest: Seq<u8>) {
        u32::round_trip(model.0, rest);
    }

    fn put(&self, out: &mut Vec<u8>) {
        self.0.put(out);
    }

    fn take<'a>(b: &'a [u8]) -> (r: Option<(Self, &'a [u8])>) {
        match u32::take(b) {
            Some((n, rest)) => Some((NodeId(n), rest)),
            None => None,
        }
    }
}

impl Wire for ExitReason {
    open spec fn bytes_of(model: ExitModel) -> Seq<u8> {
        match model {
            ExitModel::Normal => u32::bytes_of(0),
            ExitModel::Shutdown => u32::bytes_of(1),
            ExitModel::ShutdownReason(reason) => u32::bytes_of(2) + String::bytes_of(reason),
            ExitModel::Killed => u32::bytes_of(3),
            ExitModel::Error(message) => u32::bytes_of(4) + String::bytes_of(message),
        }
    }

    open spec fn read(b: Seq<u8>) -> Option<(ExitModel, Seq<u8>)> {
        match u32::read(b) {
            Some((tag, rest)) => if tag == 0 {
                Some((ExitModel::Normal, rest))
            } else if tag == 1 {
                Some((ExitModel::Shutdown, rest))
            } else if tag == 2 {
                match String::read(rest) {
                    Some((reason, rest)) => Some((ExitModel::ShutdownReason(reason), rest)),
                    None => None,
                }
            } else if tag == 3 {
                Some((ExitModel::Killed, rest))
            } else if tag == 4 {
                match String::read(rest) {
                    Some((message, rest)) => Some((ExitModel::Error(message), rest)),
                    None => None,
                }
            } else {
                None
            },
            None => None,
        }
    }

    open spec fn fits(model: ExitModel) -> bool {
        match model {
            ExitModel::ShutdownReason(reason) => String::fits(reason),
            ExitModel::Error(message) => String::fits(message),
            _ => true,
        }
    }

    proof fn round_trip(model: ExitModel, rest: Seq<u8>) {
        match model {
            ExitModel::Normal => {
                u32::round_trip(0, rest);
            },
            ExitModel::Shutdown => {
                u32::round_trip(1, rest);
            },
            ExitModel::ShutdownReason(reason) => {
                <(u32, String)>::round_trip((2u32, reason), rest);
                u32::round_trip(2, String::bytes_of(reason) + rest);
                String::round_trip(reason, rest);
                assert(Self::bytes_of(model) + rest =~= u32::bytes_of(2) + (String::bytes_of(reason)
                    + rest));
            },
            ExitModel::Killed => {
                u32::round_trip(3, rest);
            },
            ExitModel::Error(message) => {
                u32::round_trip(4, String::bytes_of(message) + rest);
                String::round_trip(message, rest);
                assert(Self::bytes_of(model) + rest =~= u32::bytes_of(4) + (String::bytes_of(
                    message,
                ) + rest));
            },
        }
    }

    fn put(&self, out: &mut Vec<u8>) {
        let ghost before = out@;
        match self {
            ExitReason::Normal => {
                0u32.put(out);
            },
            ExitReason::Shutdown => {
                1u32.put(out);
            },
            ExitReason::ShutdownReason(reason) => {
                2u32.put(out);
                reason.put(out);
            },
            ExitReason::Killed => {
                3u32.put(out);
            },
            ExitReason::Error(message) => {
                4u32.put(out);
                message.put(out);
            },
        }
        assert(out@ =~= before + Self::bytes_of(self.deep_view()));
    }

    fn take<'a>(b: &'a [u8]) -> (r: Option<(Self, &'a [u8])>) {
        let (tag, rest) = match u32::take(b) {
            Some(x) => x,
            None => {
                return None;
            },
        };
        if tag == 0 {
            Some((ExitReason::Normal, rest))
        } else if tag == 1 {
            Some((ExitReason::Shutdown, rest))
        } else if tag == 2 {
            match String::take(rest) {
                Some((reason, rest)) => Some((ExitReason::ShutdownReason(reason), rest)),
                None => None,
            }
        } else if tag == 3 {
            Some((ExitReason::Killed, rest))
        } else if tag == 4 {
            match String::take(rest) {
                Some((message, rest)) => Some((ExitReason::Error(message), rest)),
                None => None,
            }
        } else {
            None
        }
    }
}

/// A process identifier that any node can read: with its node's name.
#[derive(Debug, PartialEq, Eq)]
pub struct PortablePid {
    /// The node's name.
    pub node: String,
    /// The process within the node.
    pub id: u64,
    /// The creation number.
    pub creation: u32,
}

/// What such an identifier says.
pub struct PidModel {
    pub node: Seq<char>,
    pub id: u64,
    pub creation: u32,
}

impl DeepView for PortablePid {
    type V = PidModel;

    open spec fn deep_view(&self) -> PidModel {
        PidModel { node: self.node@, id: self.id, creation: self.creation }
    }
}

impl Wire for PortablePid {
    open spec fn bytes_of(model: PidModel) -> Seq<u8> {
        <(String, (u64, u32))>::bytes_of((model.node, (model.id, model.creation)))
    }

    open spec fn read(b: Seq<u8>) -> Option<(PidModel, Seq<u8>)> {
        match <(String, (u64, u32))>::read(b) {
            Some(((node, (id, creation)), rest)) => Some((PidModel { node, id, creation }, rest)),
            None => None,
        }
    }

    open spec fn fits(model: PidModel) -> bool {
        String::fits(model.node)
    }

    proof fn round_trip(model: PidModel, rest: Seq<u8>) {
        <(String, (u64, u32))>::round_trip((model.node, (model.id, model.creation)), rest);
    }

    fn put(&self, out: &mut Vec<u8>) {
        let ghost before = out@;
        self.node.put(out);
        self.id.put(out);
        self.creation.put(out);
        assert(out@ =~= before + Self::bytes_of(self.deep_view()));
    }

    fn take<'a>(b: &'a [u8]) -> (r: Option<(Self, &'a [u8])>) {
        match <(String, (u64, u32))>::take(b) {
            Some(((node, (id, creation)), rest)) => Some(
                (PortablePid { node, id, creation }, rest),
            ),
            None => None,
        }
    }
}

/// What a process identifier says to any node.
pub open spec fn portable(atoms: &AtomTable, pid: Pid) -> PidModel {
    PidModel {
        node: atoms.string(pid.spec_node()),
        id: pid.spec_id(),
        creation: pid.spec_creation(),
    }
}

/// The strings of a table after one more was interned.
pub open spec fn interned(strings: Seq<Seq<char>>, s: Seq<char>) -> Seq<Seq<char>> {
    if strings.contains(s) {
        strings
    } else {
        strings.push(s)
    }
}

/// The strings of a table after names were interned, one after the other.
pub open spec fn interned_all(strings: Seq<Seq<char>>, names: Seq<Seq<char>>) -> Seq<Seq<char>>
    decreases names.len(),
{
    if names.len() == 0 {
        strings
    } else {
        interned(interned_all(strings, names.drop_last()), names.last())
    }
}

/// To intern names in two goes comes to the same, and the first go leaves no more
/// strings than both.
pub proof fn lemma_interned_add(
    strings: Seq<Seq<char>>,
    first: Seq<Seq<char>>,
    second: Seq<Seq<char>>,
)
    ensures
        interned_all(strings, first + second) == interned_all(
            interned_all(strings, first),
            second,
        ),
        interned_all(strings, first).len() <= interned_all(strings, first + second).len(),
    decreases second.len(),
{
    if second.len() == 0 {
        assert(first + second =~= first);
    } else {
        assert((first + second).drop_last() =~= first + second.drop_last());
        lemma_interned_add(strings, first, second.drop_last());
    }
}

/// To intern names leaves the strings that were there in front.
pub proof fn lemma_interned_keeps(strings: Seq<Seq<char>>, names: Seq<Seq<char>>)
    ensures
        strings.is_prefix_of(interned_all(strings, names)),
    decreases names.len(),
{
    if names.len() > 0 {
        lemma_interned_keeps(strings, names.drop_last());
    }
}

impl PortablePid {
    /// A process identifier for any node.
    pub fn of(atoms: &AtomTable, pid: Pid) -> (r: Self)
        requires
            atoms.knows(pid.spec_node()),
        ensures
            r.deep_view() == portable(atoms, pid),
    {
        PortablePid { node: pid.node_name(atoms), id: pid.id(), creation: pid.creation() }
    }

    /// The identifier on this node, where the name of its node is interned.
    pub fn localize(self, atoms: &mut AtomTable) -> (r: Pid)
        requires
            old(atoms).well_formed(),
            old(atoms).room_for(1) || old(atoms)@.contains(self.node@),
        ensures
            final(atoms).well_formed(),
            final(atoms)@ == interned(old(atoms)@, self.node@),
            final(atoms).knows(r.spec_node()),
            portable(final(atoms), r) == self.deep_view(),
    {
        Pid::remote(atoms, self.node.as_str(), self.id, self.creation)
    }
}

/// A process identifier that is read back on the node that wrote it is the same.
pub proof fn pid_survives_wire(atoms: AtomTable, a: Pid, b: Pid)
    requires
        atoms.well_formed(),
        atoms.knows(a.spec_node()),
        atoms.knows(b.spec_node()),
        portable(&atoms, a) == portable(&atoms, b),
    ensures
        a == b,
{
    crate::atom::atoms_equal_iff_strings_equal(atoms, a.spec_node(), b.spec_node());
    Pid::lemma_parts(a, b);
}

impl Pid {
    /// The identifier as bytes.
    pub fn encode(&self, atoms: &AtomTable) -> (r: Vec<u8>)
        requires
            atoms.knows(self.spec_node()),
        ensures
            r@ == PortablePid::bytes_of(portable(atoms, *self)),
    {
        encode(&PortablePid::of(atoms, *self))
    }

    /// The identifier from bytes.
    pub fn decode(atoms: &mut AtomTable, b: &[u8]) -> (r: Option<Pid>)
        requires
            old(atoms).well_formed(),
            old(atoms).room_for(1),
        ensures
            final(atoms).well_formed(),
            match PortablePid::read(b@) {
                Some((model, rest)) => {
                    &&& r matches Some(pid)
                    &&& final(atoms)@ == interned(old(atoms)@, model.node)
                    &&& final(atoms).knows(pid.spec_node())
                    &&& portable(final(atoms), pid) == model
                },
                None => r is None && final(atoms)@ == old(atoms)@,
            },
    {
        match decode::<PortablePid>(b) {
            Some(pid) => Some(pid.localize(atoms)),
            None => None,
        }
    }
}

impl Atom {
    /// The atom as bytes: its string.
    pub fn encode(&self, atoms: &AtomTable) -> (r: Vec<u8>)
        requires
            atoms.knows(*self),
        ensures
            r@ == String::bytes_of(atoms.string(*self)),
    {
        encode(&self.as_str(atoms))
    }

    /// The atom from bytes: its string is interned.
    pub fn decode(atoms: &mut AtomTable, b: &[u8]) -> (r: Option<Atom>)
        requires
            old(atoms).well_formed(),
            old(atoms).room_for(1),
        ensures
            final(atoms).well_formed(),
            match String::read(b@) {
                Some((s, rest)) => {
                    &&& r matches Some(atom)
                    &&& final(atoms)@ == interned(old(atoms)@, s)
                    &&& final(atoms).knows(atom)
                    &&& final(atoms).string(atom) == s
                },
                None => r is None && final(atoms)@ == old(atoms)@,
            },
    {
        match decode::<String>(b) {
            Some(s) => Some(Atom::new(atoms, s.as_str())),
            None => None,
        }
    }
}

} // verus!
