//! Process identifiers.
use crate::atom::{Atom, AtomTable};
use crate::base::node::{node_name_atom, LocalNode};
use crate::data::{next_number, Data};
use crate::directory::Key;
use crate::text::{decimal, numeral};
use vstd::prelude::*;
use vstd::string::*;

verus! {

/// A process identifier `<node.id.creation>`: the node that the process belongs
/// to, the process within it, and a number that tells the node's runs apart.
#[derive(Clone, Copy, Debug, PartialEq, Eq, Structural, Hash)]
pub struct Pid {
    node: Atom,
    id: u64,
    creation: u32,
}

impl DeepView for Pid {
    type V = Pid;

    open spec fn deep_view(&self) -> Pid {
        *self
    }
}

impl Data for Pid {
    fn same(&self, other: &Self) -> (r: bool) {
        *self == *other
    }

    fn duplicate(&self) -> (r: Self) {
        *self
    }
}

impl Key for Pid {
    closed spec fn spelling(model: Pid) -> Seq<u64> {
        seq![model.node.spec_index() as u64, model.id, model.creation as u64]
    }

    proof fn spelled_once(a: Pid, b: Pid) {
        let x = Self::spelling(a);
        let y = Self::spelling(b);
        assert(x[0] == a.node.spec_index() as u64 && y[0] == b.node.spec_index() as u64);
        assert(x[1] == a.id && y[1] == b.id);
        assert(x[2] == a.creation as u64 && y[2] == b.creation as u64);
        Atom::lemma_same_index(a.node, b.node);
    }

    fn spell(&self) -> (r: Vec<u64>) {
        let r = vec![self.node.index() as u64, self.id, self.creation as u64];
        assert(r@ =~= Self::spelling(*self));
        r
    }
}

/// A process identifier as text, where `node` stands for its node.
pub open spec fn pid_text(node: Seq<char>, id: u64, creation: u32) -> Seq<char> {
    "<"@ + node + "."@ + numeral(id as nat, 10) + "."@ + numeral(creation as nat, 10) + ">"@
}

impl Pid {
    /// The atom of the process's node.
    pub closed spec fn spec_node(self) -> Atom {
        self.node
    }

    /// The process within its node.
    pub closed spec fn spec_id(self) -> u64 {
        self.id
    }

    /// The creation number.
    pub closed spec fn spec_creation(self) -> u32 {
        self.creation
    }

    /// An identifier is its three parts.
    pub proof fn lemma_parts(a: Pid, b: Pid)
        requires
            a.spec_node() == b.spec_node(),
            a.spec_id() == b.spec_id(),
            a.spec_creation() == b.spec_creation(),
        ensures
            a == b,
    {
    }

    /// The identifier as text: `0` stands for this node, its name for another.
    pub open spec fn text(self, node: &LocalNode) -> Seq<char> {
        pid_text(
            if self.spec_node() == node.name_atom() {
                "0"@
            } else {
                node.atoms.string(self.spec_node())
            },
            self.spec_id(),
            self.spec_creation(),
        )
    }

    /// A new identifier on this node.
    pub fn new(node: &mut LocalNode) -> (r: Self)
        ensures
            r.spec_node() == old(node).name_atom(),
            r.spec_id() == old(node).next_pid,
            r.spec_creation() == old(node).creation,
            *final(node) == (LocalNode {
                next_pid: next_number(old(node).next_pid),
                ..*old(node)
            }),
    {
        let id: u64 = node.next_pid;
        node.next_pid = id.wrapping_add(1);
        Pid { node: node_name_atom(node), id, creation: node.creation }
    }

    /// The identifier with the given parts.
    pub fn from_parts_atom(node: Atom, id: u64, creation: u32) -> (r: Self)
        ensures
            r.spec_node() == node,
            r.spec_id() == id,
            r.spec_creation() == creation,
    {
        Pid { node, id, creation }
    }

    /// The identifier of a process on the named node.
    pub fn remote(atoms: &mut AtomTable, node_name: &str, id: u64, creation: u32) -> (r: Self)
        requires
            old(atoms).well_formed(),
            old(atoms).room_for(1) || old(atoms)@.contains(node_name@),
        ensures
            final(atoms).well_formed(),
            final(atoms).knows(r.spec_node()),
            final(atoms).string(r.spec_node()) == node_name@,
            final(atoms)@ == (if old(atoms)@.contains(node_name@) {
                old(atoms)@
            } else {
                old(atoms)@.push(node_name@)
            }),
            r.spec_id() == id,
            r.spec_creation() == creation,
    {
        Pid { node: Atom::new(atoms, node_name), id, creation }
    }

    /// The atom of the process's node.
    pub fn node(&self) -> (r: Atom)
        ensures
            r == self.spec_node(),
    {
        self.node
    }

    /// The name of the process's node.
    pub fn node_name(&self, atoms: &AtomTable) -> (r: String)
        requires
            atoms.knows(self.spec_node()),
        ensures
            r@ == atoms.string(self.spec_node()),
    {
        self.node.as_str(atoms)
    }

    /// The process within its node.
    pub fn id(&self) -> (r: u64)
        ensures
            r == self.spec_id(),
    {
        self.id
    }

    /// The creation number.
    pub fn creation(&self) -> (r: u32)
        ensures
            r == self.spec_creation(),
    {
        self.creation
    }

    /// Whether the process belongs to this node.
    pub fn is_local(&self, node: &LocalNode) -> (r: bool)
        ensures
            r == (self.spec_node() == node.name_atom()),
    {
        self.node == node_name_atom(node)
    }

    /// The identifier as text: `<0.id.creation>` on this node, else
    /// `<node.id.creation>`.
    pub fn display(&self, node: &LocalNode) -> (r: String)
        requires
            node.atoms.knows(self.spec_node()),
        ensures
            r@ == self.text(node),
    {
        let name = if self.is_local(node) {
            "0".to_owned()
        } else {
            self.node.as_str(&node.atoms)
        };
        "<".to_owned().concat(name.as_str()).concat(".").concat(decimal(self.id).as_str()).concat(
            ".",
        ).concat(decimal(self.creation as u64).as_str()).concat(">")
    }

    /// The identifier for a debug print.
    pub fn debug(&self, node: &LocalNode) -> (r: String)
        requires
            node.atoms.knows(self.spec_node()),
        ensures
            r@ == "Pid"@ + self.text(node),
    {
        "Pid".to_owned().concat(self.display(node).as_str())
    }
}

/// An identifier as text names its node, or has a zero for this one, and has its
/// number and its creation number.
pub proof fn pid_text_has_parts(pid: Pid, node: &LocalNode)
    ensures
        pid.spec_node() == node.name_atom() ==> pid.text(node) == "<"@ + "0"@ + "."@ + numeral(
            pid.spec_id() as nat,
            10,
        ) + "."@ + numeral(pid.spec_creation() as nat, 10) + ">"@,
        pid.spec_node() != node.name_atom() ==> pid.text(node) == "<"@ + node.atoms@[
            pid.spec_node().spec_index() as int
        ] + "."@ + numeral(pid.spec_id() as nat, 10) + "."@ + numeral(
            pid.spec_creation() as nat,
            10,
        ) + ">"@,
{
}

/// Raises the creation number, so that older identifiers match no new process,
/// and returns it.
pub fn increment_creation(node: &mut LocalNode) -> (r: u32)
    requires
        old(node).creation < u32::MAX,
    ensures
        r == old(node).creation + 1,
        *final(node) == (LocalNode { creation: r, ..*old(node) }),
{
    node.creation = node.creation + 1;
    node.creation
}

/// The creation number of new processes.
pub fn current_creation(node: &LocalNode) -> (r: u32)
    ensures
        r == node.creation,
{
    node.creation
}

/// The process counter of a node after `n` new identifiers.
pub open spec fn pid_counter_after(start: u64, n: nat) -> nat {
    (start as nat + n) % 0x1_0000_0000_0000_0000
}

/// Each new identifier moves the process counter on by one.
pub proof fn pid_counter_steps(start: u64, n: nat)
    ensures
        pid_counter_after(start, 0) == start,
        pid_counter_after(start, n + 1) == next_number(pid_counter_after(start, n) as u64),
{
    let w: int = 0x1_0000_0000_0000_0000;
    vstd::arithmetic::div_mod::lemma_fundamental_div_mod(start + n, w);
    vstd::arithmetic::div_mod::lemma_fundamental_div_mod(start + n + 1, w);
    let r = (start + n) % w;
    let q = (start + n) / w;
    if r == w - 1 {
        assert(start + n + 1 == w * (q + 1)) by (nonlinear_arith)
            requires
                start + n == w * q + r,
                r == w - 1,
        ;
        vstd::arithmetic::div_mod::lemma_fundamental_div_mod_converse(start + n + 1, w, q + 1, 0);
    } else {
        vstd::arithmetic::div_mod::lemma_fundamental_div_mod_converse(start + n + 1, w, q, r + 1);
    }
}

/// As long as fewer than 2^64 identifiers were made between them, two
/// identifiers made on a node at different times are different, whatever the
/// creation number was.
pub proof fn pids_are_unique(a: Pid, b: Pid, start: u64, m: nat, n: nat)
    requires
        a.spec_id() as nat == pid_counter_after(start, m),
        b.spec_id() as nat == pid_counter_after(start, n),
        m < n < m + 0x1_0000_0000_0000_0000,
    ensures
        a != b,
{
    crate::base::reference::lemma_counter_distinct(start as nat, m, n);
}

/// Identifiers from different runs of a node are different.
pub proof fn creation_distinguishes_pids(a: Pid, b: Pid)
    requires
        a.spec_creation() != b.spec_creation(),
    ensures
        a != b,
{
}

} // verus!
