//! Presence entries and the messages that carry them.
use crate::base::node::{node_name_atom, LocalNode};
use crate::base::pid::Pid;
use crate::data::{next_number, Data};
use crate::table::Table;
use crate::text::{before_first, decimal, head, join5, numeral};
use vstd::prelude::*;

verus! {

/// A unique reference of a presence entry.
#[derive(Debug, PartialEq, Eq, Hash)]
pub struct PresenceRef(String);

impl DeepView for PresenceRef {
    type V = Seq<char>;

    closed spec fn deep_view(&self) -> Seq<char> {
        self.0@
    }
}

impl Data for PresenceRef {
    fn same(&self, other: &Self) -> (r: bool) {
        self.0.same(&other.0)
    }

    fn duplicate(&self) -> (r: Self) {
        PresenceRef(self.0.clone())
    }
}

impl Clone for PresenceRef {
    fn clone(&self) -> (r: Self)
        ensures
            r.deep_view() == self.deep_view(),
    {
        self.duplicate()
    }
}

/// The text of a reference: the node that made it, when, and a running number.
pub open spec fn ref_text(node: Seq<char>, timestamp: u64, count: u64) -> Seq<char> {
    node + ":"@ + numeral(timestamp as nat, 10) + ":"@ + numeral(count as nat, 10)
}

impl PresenceRef {
    /// A new reference, made on `node` at `timestamp` microseconds since the
    /// epoch. `counter` runs on with each one.
    pub fn new(node: &LocalNode, timestamp: u64, counter: &mut u64) -> (r: Self)
        requires
            node.well_formed(),
        ensures
            r.deep_view() == ref_text(
                node.atoms.string(node.name_atom()),
                timestamp,
                *old(counter),
            ),
            *final(counter) == next_number(*old(counter)),
    {
        let count: u64 = *counter;
        *counter = count.wrapping_add(1);
        let name = node_name_atom(node).as_str(&node.atoms);
        PresenceRef(
            join5(name.as_str(), ":", decimal(timestamp).as_str(), ":", decimal(count).as_str()),
        )
    }

    /// The reference from its text.
    pub fn from_text(text: String) -> (r: Self)
        ensures
            r.deep_view() == text@,
    {
        PresenceRef(text)
    }

    /// The text of the reference.
    pub fn as_str(&self) -> (r: &str)
        ensures
            r@ == self.deep_view(),
    {
        self.0.as_str()
    }

    /// The node that made the reference: what stands before the first colon.
    pub fn node(&self) -> (r: &str)
        ensures
            r@ == before_first(self.deep_view(), ':'),
    {
        head(self.0.as_str(), ':')
    }
}

/// One presence entry.
#[derive(Debug)]
pub struct PresenceMeta {
    /// The entry's reference.
    pub phx_ref: PresenceRef,
    /// The reference of the entry that this one replaced.
    pub phx_ref_prev: Option<PresenceRef>,
    /// The process that owns the entry.
    pub pid: Pid,
    /// The metadata, encoded.
    pub meta: Vec<u8>,
    /// When the entry was last updated, in seconds since the epoch.
    pub updated_at: u64,
}

/// What a presence entry says.
pub struct MetaModel {
    pub phx_ref: Seq<char>,
    pub phx_ref_prev: Option<Seq<char>>,
    pub pid: Pid,
    pub meta: Seq<u8>,
    pub updated_at: u64,
}

impl DeepView for PresenceMeta {
    type V = MetaModel;

    open spec fn deep_view(&self) -> MetaModel {
        MetaModel {
            phx_ref: self.phx_ref.deep_view(),
            phx_ref_prev: self.phx_ref_prev.deep_view(),
            pid: self.pid,
            meta: self.meta.deep_view(),
            updated_at: self.updated_at,
        }
    }
}

impl Data for PresenceMeta {
    fn same(&self, other: &Self) -> (r: bool) {
        self.phx_ref.same(&other.phx_ref) && self.phx_ref_prev.same(&other.phx_ref_prev) && self.pid
            == other.pid && self.meta.same(&other.meta) && self.updated_at == other.updated_at
    }

    fn duplicate(&self) -> (r: Self) {
        PresenceMeta {
            phx_ref: self.phx_ref.duplicate(),
            phx_ref_prev: self.phx_ref_prev.duplicate(),
            pid: self.pid,
            meta: self.meta.duplicate(),
            updated_at: self.updated_at,
        }
    }
}

/// The moment at which an entry is made.
#[derive(Clone, Copy, Debug)]
pub struct Moment {
    /// Microseconds since the epoch.
    pub micros: u64,
    /// Seconds since the epoch.
    pub secs: u64,
}

impl PresenceMeta {
    /// A new entry with a new reference.
    pub fn new(
        node: &LocalNode,
        now: Moment,
        counter: &mut u64,
        pid: Pid,
        meta: Vec<u8>,
    ) -> (r: Self)
        requires
            node.well_formed(),
        ensures
            r.deep_view() == (MetaModel {
                phx_ref: ref_text(
                    node.atoms.string(node.name_atom()),
                    now.micros,
                    *old(counter),
                ),
                phx_ref_prev: None,
                pid,
                meta: meta.deep_view(),
                updated_at: now.secs,
            }),
            *final(counter) == next_number(*old(counter)),
    {
        PresenceMeta {
            phx_ref: PresenceRef::new(node, now.micros, counter),
            phx_ref_prev: None,
            pid,
            meta,
            updated_at: now.secs,
        }
    }
}

/// The entries of one key. A user can be present more than once.
#[derive(Debug)]
pub struct PresenceState {
    /// The entries, oldest first.
    pub metas: Vec<PresenceMeta>,
}

impl DeepView for PresenceState {
    type V = Seq<MetaModel>;

    open spec fn deep_view(&self) -> Seq<MetaModel> {
        self.metas.deep_view()
    }
}

impl Data for PresenceState {
    fn same(&self, other: &Self) -> (r: bool) {
        self.metas.same(&other.metas)
    }

    fn duplicate(&self) -> (r: Self) {
        PresenceState { metas: self.metas.duplicate() }
    }
}

impl Default for PresenceState {
    fn default() -> (r: Self)
        ensures
            r.deep_view() == Seq::<MetaModel>::empty(),
    {
        let r = PresenceState { metas: Vec::new() };
        assert(r.deep_view() =~= Seq::empty());
        r
    }
}

/// The entries of a topic, by key.
pub type Presences = Table<String, PresenceState>;

/// What the entries of a topic say, by key.
pub type TopicModel = Map<Seq<char>, Seq<MetaModel>>;

/// A change of the entries of a topic.
pub struct PresenceDiff {
    /// The entries that came or were replaced, by key.
    pub joins: Presences,
    /// The entries that went, by key.
    pub leaves: Presences,
}

/// What a change says.
pub struct DiffModel {
    pub joins: TopicModel,
    pub leaves: TopicModel,
}

impl DeepView for PresenceDiff {
    type V = DiffModel;

    open spec fn deep_view(&self) -> DiffModel {
        DiffModel { joins: self.joins.deep_view(), leaves: self.leaves.deep_view() }
    }
}

impl Data for PresenceDiff {
    fn same(&self, other: &Self) -> (r: bool) {
        self.joins.same(&other.joins) && self.leaves.same(&other.leaves)
    }

    fn duplicate(&self) -> (r: Self) {
        PresenceDiff { joins: self.joins.duplicate(), leaves: self.leaves.duplicate() }
    }
}

impl Default for PresenceDiff {
    fn default() -> (r: Self)
        ensures
            r.deep_view() == (DiffModel { joins: Map::empty(), leaves: Map::empty() }),
    {
        PresenceDiff { joins: Table::new(), leaves: Table::new() }
    }
}

impl DiffModel {
    /// Whether nothing changed.
    pub open spec fn is_empty(self) -> bool {
        &&& self.joins == Map::<Seq<char>, Seq<MetaModel>>::empty()
        &&& self.leaves == Map::<Seq<char>, Seq<MetaModel>>::empty()
    }
}

impl PresenceDiff {
    /// Whether nothing changed.
    pub fn is_empty(&self) -> (r: bool)
        ensures
            r == self.deep_view().is_empty(),
    {
        self.joins.is_empty() && self.leaves.is_empty()
    }
}

/// A message between the presence trackers of a cluster.
pub enum PresenceMessage {
    /// Asks for the entries of a topic.
    SyncRequest {
        /// The topic.
        topic: String,
    },
    /// Hands over the entries of a topic.
    SyncResponse {
        /// The topic.
        topic: String,
        /// Its entries.
        state: Presences,
    },
    /// Tells of a change.
    Delta {
        /// The topic.
        topic: String,
        /// The change.
        diff: PresenceDiff,
    },
    /// Tells that a node is there.
    Heartbeat {
        /// The node.
        node: String,
        /// The node's logical clock.
        clock: u64,
    },
}

/// What a message says.
pub enum MessageModel {
    SyncRequest { topic: Seq<char> },
    SyncResponse { topic: Seq<char>, state: TopicModel },
    Delta { topic: Seq<char>, diff: DiffModel },
    Heartbeat { node: Seq<char>, clock: u64 },
}

impl DeepView for PresenceMessage {
    type V = MessageModel;

    open spec fn deep_view(&self) -> MessageModel {
        match self {
            PresenceMessage::SyncRequest { topic } => MessageModel::SyncRequest { topic: topic@ },
            PresenceMessage::SyncResponse { topic, state } => MessageModel::SyncResponse {
                topic: topic@,
                state: state.deep_view(),
            },
            PresenceMessage::Delta { topic, diff } => MessageModel::Delta {
                topic: topic@,
                diff: diff.deep_view(),
            },
            PresenceMessage::Heartbeat { node, clock } => MessageModel::Heartbeat {
                node: node@,
                clock: *clock,
            },
        }
    }
}

/// References made on one node are different whenever their running numbers or
/// their times are.
pub proof fn refs_differ(node: Seq<char>, t1: u64, c1: u64, t2: u64, c2: u64)
    requires
        t1 != t2 || c1 != c2,
    ensures
        ref_text(node, t1, c1) != ref_text(node, t2, c2),
{
    let sep = ':';
    let (a, b) = (numeral(t1 as nat, 10), numeral(c1 as nat, 10));
    let (c, d) = (numeral(t2 as nat, 10), numeral(c2 as nat, 10));
    crate::text::lemma_numeral_value(t1 as nat, 10);
    crate::text::lemma_numeral_value(t2 as nat, 10);
    crate::text::lemma_numeral_value(c1 as nat, 10);
    crate::text::lemma_numeral_value(c2 as nat, 10);
    reveal_strlit(":");
    let x = ref_text(node, t1, c1);
    let y = ref_text(node, t2, c2);
    if x == y {
        let n = node.len() as int + 1;
        assert(x.subrange(n, x.len() as int) =~= a.push(sep) + b);
        assert(y.subrange(n, y.len() as int) =~= c.push(sep) + d);
        crate::text::lemma_split_unique(a, b, c, d, sep);
        crate::text::lemma_numeral_injective(t1 as nat, t2 as nat, 10);
        crate::text::lemma_numeral_injective(c1 as nat, c2 as nat, 10);
    }
}

/// A reference names the node that made it, where the node's name has no colon.
pub proof fn ref_names_node(node: Seq<char>, timestamp: u64, count: u64)
    requires
        !node.contains(':'),
    ensures
        before_first(ref_text(node, timestamp, count), ':') == node,
{
    let s = ref_text(node, timestamp, count);
    reveal_strlit(":");
    let n = node.len() as int;
    assert(s[n] == ':');
    assert forall|j: int| 0 <= j < n implies s[j] != ':' by {
        assert(s[j] == node[j]);
    }
    crate::text::lemma_first(s, ':', n);
    assert(s.subrange(0, n) =~= node);
}

/// References made on different nodes are different, where neither node's name
/// has a colon.
pub proof fn refs_of_nodes_differ(
    node1: Seq<char>,
    t1: u64,
    c1: u64,
    node2: Seq<char>,
    t2: u64,
    c2: u64,
)
    requires
        node1 != node2,
        !node1.contains(':'),
        !node2.contains(':'),
    ensures
        ref_text(node1, t1, c1) != ref_text(node2, t2, c2),
{
    ref_names_node(node1, t1, c1);
    ref_names_node(node2, t2, c2);
}

} // verus!
