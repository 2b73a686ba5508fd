//! Identities of nodes.
use crate::atom::{Atom, AtomTable};
use crate::text::{decimal, head, quote, quoted, tagged, tagged_text, tail};
use crate::text::{after_first, before_first, numeral};
use vstd::prelude::*;
use vstd::string::*;

verus! {

/// The number of the local node.
pub const LOCAL_NODE_ID: u32 = 0;

/// A node's number. The local node has number zero.
#[derive(Clone, Copy, Debug, PartialEq, Eq, Structural, Hash)]
pub struct NodeId(pub u32);

impl NodeId {
    /// The node with the number.
    pub fn new(id: u32) -> (r: Self)
        ensures
            r == NodeId(id),
    {
        NodeId(id)
    }

    /// The local node.
    pub fn local() -> (r: Self)
        ensures
            r == NodeId(0),
    {
        NodeId(LOCAL_NODE_ID)
    }

    /// The node's number.
    pub fn as_u32(&self) -> (r: u32)
        ensures
            r == self.0,
    {
        self.0
    }

    /// Whether this is the local node.
    pub fn is_local(&self) -> (r: bool)
        ensures
            r == (self.0 == 0),
    {
        self.0 == LOCAL_NODE_ID
    }

    /// The node as text: its number.
    pub fn display(&self) -> (r: String)
        ensures
            r@ == numeral(self.0 as nat, 10),
    {
        decimal(self.0 as u64)
    }

    /// The node for a debug print.
    pub fn debug(&self) -> (r: String)
        ensures
            r@ == tagged_text("NodeId"@, numeral(self.0 as nat, 10)),
    {
        tagged("NodeId", decimal(self.0 as u64).as_str())
    }
}

impl From<u32> for NodeId {
    fn from(id: u32) -> (r: Self) {
        NodeId(id)
    }
}

impl vstd::std_specs::convert::FromSpecImpl<u32> for NodeId {
    open spec fn obeys_from_spec() -> bool {
        true
    }

    open spec fn from_spec(id: u32) -> Self {
        NodeId(id)
    }
}

impl From<NodeId> for u32 {
    fn from(id: NodeId) -> (r: Self) {
        id.0
    }
}

impl vstd::std_specs::convert::FromSpecImpl<NodeId> for u32 {
    open spec fn obeys_from_spec() -> bool {
        true
    }

    open spec fn from_spec(id: NodeId) -> Self {
        id.0
    }
}

/// A node's name, `name@host`.
#[derive(Debug, PartialEq, Eq, Hash)]
pub struct NodeName(String);

impl View for NodeName {
    type V = Seq<char>;

    closed spec fn view(&self) -> Seq<char> {
        self.0@
    }
}

impl Clone for NodeName {
    fn clone(&self) -> (r: Self)
        ensures
            r == *self,
    {
        NodeName(self.0.clone())
    }
}

impl NodeName {
    /// The node with the name, which should have the form `name@host`.
    pub fn new(name: &str) -> (r: Self)
        ensures
            r@ == name@,
    {
        NodeName(name.to_owned())
    }

    /// The whole name.
    pub fn as_str(&self) -> (r: &str)
        ensures
            r@ == self@,
    {
        self.0.as_str()
    }

    /// The part before the first `@`, or the whole name if there is none.
    pub fn short_name(&self) -> (r: &str)
        ensures
            r@ == before_first(self@, '@'),
    {
        head(self.0.as_str(), '@')
    }

    /// The part between the first `@` and the next one, or the end. Empty if
    /// there is no `@`.
    pub fn host(&self) -> (r: &str)
        ensures
            r@ == (match after_first(self@, '@') {
                Some(rest) => before_first(rest, '@'),
                None => Seq::empty(),
            }),
    {
        match tail(self.0.as_str(), '@') {
            Some(rest) => head(rest, '@'),
            None => {
                proof {
                    reveal_strlit("");
                    assert(""@ =~= Seq::<char>::empty());
                }
                ""
            },
        }
    }

    /// The name as text.
    pub fn display(&self) -> (r: String)
        ensures
            r@ == self@,
    {
        self.0.clone()
    }

    /// The name for a debug print.
    pub fn debug(&self) -> (r: String)
        ensures
            r@ == tagged_text("NodeName"@, quoted(self@)),
    {
        tagged("NodeName", quote(self.0.as_str()).as_str())
    }
}

impl From<&str> for NodeName {
    fn from(s: &str) -> (r: Self)
        ensures
            r@ == s@,
    {
        NodeName::new(s)
    }
}

impl vstd::std_specs::convert::FromSpecImpl<&str> for NodeName {
    open spec fn obeys_from_spec() -> bool {
        false
    }

    open spec fn from_spec(s: &str) -> Self {
        arbitrary()
    }
}

impl From<String> for NodeName {
    fn from(s: String) -> (r: Self)
        ensures
            r@ == s@,
    {
        NodeName(s)
    }
}

impl vstd::std_specs::convert::FromSpecImpl<String> for NodeName {
    open spec fn obeys_from_spec() -> bool {
        false
    }

    open spec fn from_spec(s: String) -> Self {
        arbitrary()
    }
}

/// An address at which a node is reached.
#[derive(Clone, Copy, Debug, PartialEq, Eq)]
pub enum NodeAddr {
    /// Version four of the protocol.
    V4 {
        /// The octets of the host.
        ip: [u8; 4],
        /// The port.
        port: u16,
    },
    /// Version six of the protocol.
    V6 {
        /// The octets of the host.
        ip: [u8; 16],
        /// The port.
        port: u16,
        /// The label of the flow.
        flowinfo: u32,
        /// The number of the scope.
        scope_id: u32,
    },
}

/// What is known of a node.
#[derive(Debug)]
pub struct NodeInfo {
    /// The node's name.
    pub name: NodeName,
    /// The node's number.
    pub id: NodeId,
    /// The address at which the node is reached.
    pub addr: Option<NodeAddr>,
    /// The creation number, which tells the runs of a node apart.
    pub creation: u32,
}

impl NodeInfo {
    /// The information from its parts.
    pub fn new(name: NodeName, id: NodeId, addr: Option<NodeAddr>, creation: u32) -> (r: Self)
        ensures
            r == (NodeInfo { name, id, addr, creation }),
    {
        NodeInfo { name, id, addr, creation }
    }
}

/// The identity of this node, set once and never changed.
#[derive(Debug)]
pub struct NodeIdentity {
    /// The node's name.
    pub name: NodeName,
    /// The node's name as an atom.
    pub name_atom: Atom,
    /// The node's creation number.
    pub creation: u32,
}

/// What a node keeps to name itself and what runs on it: its atoms, its
/// identity once it has one, and the counters behind new identifiers.
pub struct LocalNode {
    /// The interned strings.
    pub atoms: AtomTable,
    /// The node's identity, once it is distributed.
    pub identity: Option<NodeIdentity>,
    /// The atom that stands for this node while it has no identity.
    pub nameless: Atom,
    /// The identifier of the next process.
    pub next_pid: u64,
    /// The creation number of new processes.
    pub creation: u32,
    /// The number of the next reference.
    pub next_ref: u64,
}

impl LocalNode {
    /// The atoms are in order, and the node's own are among them.
    pub open spec fn well_formed(&self) -> bool {
        &&& self.atoms.well_formed()
        &&& self.atoms.knows(self.nameless)
        &&& self.atoms.string(self.nameless) == Seq::<char>::empty()
        &&& match self.identity {
            Some(identity) => {
                &&& self.atoms.knows(identity.name_atom)
                &&& self.atoms.string(identity.name_atom) == identity.name@
            },
            None => true,
        }
    }

    /// The atom that stands for this node in process identifiers.
    pub open spec fn name_atom(&self) -> Atom {
        match self.identity {
            Some(identity) => identity.name_atom,
            None => self.nameless,
        }
    }

    /// A node without an identity, on which nothing has run.
    pub fn new() -> (r: Self)
        ensures
            r.well_formed(),
            r.identity is None,
            r.next_pid == 0,
            r.creation == 0,
            r.next_ref == 0,
            r.atoms@ == seq![Seq::<char>::empty()],
    {
        let mut atoms = AtomTable::new();
        proof {
            reveal_strlit("");
            assert(""@ =~= Seq::<char>::empty());
        }
        let nameless = Atom::new(&mut atoms, "");
        assert(atoms@ =~= seq![Seq::<char>::empty()]);
        LocalNode { atoms, identity: None, nameless, next_pid: 0, creation: 0, next_ref: 0 }
    }
}

/// Gives this node its identity. A node that has one keeps it, and what it was
/// to get comes back.
pub fn init_node(node: &mut LocalNode, name: NodeName, creation: u32) -> (r: Result<
    (),
    NodeIdentity,
>)
    requires
        old(node).well_formed(),
        old(node).atoms.room_for(1),
    ensures
        final(node).well_formed(),
        final(node).atoms@ == (if old(node).atoms@.contains(name@) {
            old(node).atoms@
        } else {
            old(node).atoms@.push(name@)
        }),
        final(node).next_pid == old(node).next_pid,
        final(node).creation == old(node).creation,
        final(node).next_ref == old(node).next_ref,
        final(node).nameless == old(node).nameless,
        match r {
            Ok(_) => {
                &&& old(node).identity is None
                &&& final(node).identity matches Some(identity)
                &&& identity.name@ == name@
                &&& identity.creation == creation
            },
            Err(refused) => {
                &&& old(node).identity is Some
                &&& final(node).identity == old(node).identity
                &&& refused.name@ == name@
                &&& refused.creation == creation
                &&& final(node).atoms.knows(refused.name_atom)
                &&& final(node).atoms.string(refused.name_atom) == name@
            },
        },
{
    let name_atom = Atom::new(&mut node.atoms, name.as_str());
    let identity = NodeIdentity { name, name_atom, creation };
    if node.identity.is_some() {
        Err(identity)
    } else {
        node.identity = Some(identity);
        Ok(())
    }
}

/// This node's name, if it has an identity.
pub fn node_name(node: &LocalNode) -> (r: Option<&NodeName>)
    ensures
        match r {
            Some(name) => node.identity matches Some(identity) && *name == identity.name,
            None => node.identity is None,
        },
{
    match &node.identity {
        Some(identity) => Some(&identity.name),
        None => None,
    }
}

/// The atom that stands for this node: that of its name, or the empty one.
pub fn node_name_atom(node: &LocalNode) -> (r: Atom)
    ensures
        r == node.name_atom(),
{
    match &node.identity {
        Some(identity) => identity.name_atom,
        None => node.nameless,
    }
}

/// This node's creation number, or zero if it has no identity.
pub fn node_creation(node: &LocalNode) -> (r: u32)
    ensures
        r == (match node.identity {
            Some(identity) => identity.creation,
            None => 0,
        }),
{
    match &node.identity {
        Some(identity) => identity.creation,
        None => 0,
    }
}

/// Whether this node has an identity.
pub fn is_distributed(node: &LocalNode) -> (r: bool)
    ensures
        r == (node.identity is Some),
{
    node.identity.is_some()
}

} // verus!
