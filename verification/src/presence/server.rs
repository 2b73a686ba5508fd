//! The presence server: a tracker that others call by message.
use crate::atom::{capacity, Atom, AtomTable};
use crate::base::node::LocalNode;
use crate::base::pid::Pid;
use crate::data::{next_number, Data};
use crate::presence::store::{
    owned_by, owns_one, replacement, untracked_leaves_by_topic, PresenceStore, StoreModel,
};
use crate::presence::tracker::{
    diff_of_join, diff_of_leave, group_of, join_diff, leave_diff, presence_group,
};
use crate::presence::types::{
    ref_text, DiffModel, MessageModel, MetaModel, Moment, PresenceDiff, PresenceMessage,
    PresenceMeta, PresenceRef, PresenceState, Presences, TopicModel,
};
use crate::table::{distinct_keys, lemma_rows_map, place_of, rows_map, Table};
use crate::text::{join2, join3};
use crate::wire::presence::{after_reading_presence, is_presence_import, PortablePresence};
use crate::wire::primitive::Wire;
use vstd::prelude::*;
use vstd::string::*;

verus! {

/// How a presence server is set up.
#[derive(Debug)]
pub struct PresenceConfig {
    /// The name that the server registers under.
    pub name: String,
    /// The name of the publish-subscribe server that it broadcasts through.
    pub pubsub: String,
}

impl PresenceConfig {
    /// The setup from its parts.
    pub fn new(name: &str, pubsub: &str) -> (r: Self)
        ensures
            r.name@ == name@,
            r.pubsub@ == pubsub@,
    {
        PresenceConfig { name: name.to_owned(), pubsub: pubsub.to_owned() }
    }
}

/// What the server is asked.
pub enum PresenceCall {
    /// Track a process under a key of a topic.
    Track { topic: String, key: String, pid: Pid, meta: Vec<u8> },
    /// End the tracking of a process under a key of a topic.
    Untrack { topic: String, key: String, pid: Pid },
    /// End all tracking of a process.
    UntrackAll { pid: Pid },
    /// Replace the metadata of a process under a key of a topic.
    Update { topic: String, key: String, pid: Pid, meta: Vec<u8> },
    /// The entries of a topic.
    List { topic: String },
    /// The entries of a key of a topic.
    Get { topic: String, key: String },
}

/// What the server is told.
pub enum PresenceCast {
    /// A change on another node.
    ApplyDelta { topic: String, diff: PresenceDiff },
    /// The entries of a topic on another node.
    SyncState { topic: String, state: Presences },
}

/// What the server replies.
pub enum PresenceReply {
    /// It is done. A new entry's reference comes with it.
    Done(Option<PresenceRef>),
    /// The entries of a topic.
    List(Presences),
    /// The entries of a key.
    Get(Option<PresenceState>),
}

/// What a reply says.
pub enum ReplyModel {
    Done(Option<Seq<char>>),
    List(TopicModel),
    Get(Option<Seq<MetaModel>>),
}

impl DeepView for PresenceReply {
    type V = ReplyModel;

    open spec fn deep_view(&self) -> ReplyModel {
        match self {
            PresenceReply::Done(phx_ref) => ReplyModel::Done(phx_ref.deep_view()),
            PresenceReply::List(presences) => ReplyModel::List(presences.deep_view()),
            PresenceReply::Get(state) => ReplyModel::Get(state.deep_view()),
        }
    }
}

/// A change that is to be broadcast: to the subscribers of a topic of the
/// publish-subscribe server, and to the presence servers of other nodes.
pub struct DeltaBroadcast {
    /// The publish-subscribe server.
    pub pubsub: String,
    /// The topic that the subscribers follow.
    pub presence_topic: String,
    /// The group of the presence servers.
    pub pg_group: String,
    /// The message.
    pub message: PresenceMessage,
}

/// What a broadcast says.
pub struct BroadcastModel {
    pub pubsub: Seq<char>,
    pub presence_topic: Seq<char>,
    pub pg_group: Seq<char>,
    pub message: MessageModel,
}

impl DeepView for DeltaBroadcast {
    type V = BroadcastModel;

    open spec fn deep_view(&self) -> BroadcastModel {
        BroadcastModel {
            pubsub: self.pubsub@,
            presence_topic: self.presence_topic@,
            pg_group: self.pg_group@,
            message: self.message.deep_view(),
        }
    }
}

/// The broadcast of a change.
pub open spec fn delta_broadcast(
    pubsub: Seq<char>,
    presence_name: Seq<char>,
    topic: Seq<char>,
    diff: DiffModel,
) -> BroadcastModel {
    BroadcastModel {
        pubsub,
        presence_topic: group_of(topic),
        pg_group: group_of(presence_name),
        message: MessageModel::Delta { topic, diff },
    }
}

/// The broadcast of a change, unless nothing changed.
pub fn broadcast_delta(
    pubsub: &str,
    presence_name: &str,
    topic: &str,
    diff: PresenceDiff,
) -> (r: Option<DeltaBroadcast>)
    ensures
        r.deep_view() == (if diff.deep_view().is_empty() {
            None
        } else {
            Some(delta_broadcast(pubsub@, presence_name@, topic@, diff.deep_view()))
        }),
{
    if diff.is_empty() {
        return None;
    }
    Some(
        DeltaBroadcast {
            pubsub: pubsub.to_owned(),
            presence_topic: presence_group(topic),
            pg_group: presence_group(presence_name),
            message: PresenceMessage::Delta { topic: topic.to_owned(), diff },
        },
    )
}

/// Selects the presence servers of other nodes.
pub open spec fn other_server(self_pid: Pid, my_node: Atom) -> spec_fn(Pid) -> bool {
    |pid: Pid| pid != self_pid && pid.spec_node() != my_node
}

/// The presence servers that a change is forwarded to: those of other nodes.
pub fn forward_targets(members: &Vec<Pid>, self_pid: Pid, my_node: Atom) -> (r: Vec<Pid>)
    ensures
        r@ == members@.filter(other_server(self_pid, my_node)),
{
    let ghost wanted = other_server(self_pid, my_node);
    let mut r: Vec<Pid> = Vec::new();
    let mut i: usize = 0;
    proof {
        reveal(Seq::filter);
        assert(r@ =~= members@.take(0).filter(wanted));
    }
    while i < members.len()
        invariant
            i <= members.len(),
            wanted == other_server(self_pid, my_node),
            r@ == members@.take(i as int).filter(wanted),
        decreases members.len() - i,
    {
        proof {
            assert(members@.take(i + 1) =~= members@.take(i as int).push(members@[i as int]));
            members@.take(i as int).lemma_filter_push(members@[i as int], wanted);
        }
        if members[i] != self_pid && members[i].node() != my_node {
            r.push(members[i]);
        }
        i += 1;
    }
    assert(members@.take(members@.len() as int) =~= members@);
    r
}

/// The state of a presence server.
pub struct PresenceServerState {
    /// The name that the server is registered under.
    pub name: String,
    /// The publish-subscribe server.
    pub pubsub: String,
    /// The group of the presence servers.
    pub pg_group: String,
    /// The entries.
    pub store: PresenceStore,
    /// The server's own process, once it runs.
    pub self_pid: Option<Pid>,
}

/// What a server does once it runs: register its name, and join its group.
#[derive(Debug)]
pub struct Announcement {
    /// The name to register.
    pub name: String,
    /// The group to join.
    pub pg_group: String,
    /// The server's process.
    pub pid: Pid,
}

impl Default for PresenceServerState {
    fn default() -> (r: Self)
        ensures
            r.well_formed(),
            r.name@ == Seq::<char>::empty(),
            r.pubsub@ == Seq::<char>::empty(),
            r.pg_group@ == Seq::<char>::empty(),
            r.store.deep_view() == (StoreModel { topics: Map::empty(), pids: Map::empty() }),
            r.self_pid is None,
    {
        PresenceServerState {
            name: String::new(),
            pubsub: String::new(),
            pg_group: String::new(),
            store: PresenceStore::new(),
            self_pid: None,
        }
    }
}

/// The broadcasts of the entries that went, one for each topic.
pub open spec fn leave_broadcasts(
    pubsub: Seq<char>,
    presence_name: Seq<char>,
    gone: Map<Seq<char>, TopicModel>,
) -> Set<BroadcastModel> {
    Set::new(
        |b: BroadcastModel|
            exists|topic: Seq<char>| #[trigger]
                gone.contains_key(topic) && b == delta_broadcast(
                    pubsub,
                    presence_name,
                    topic,
                    DiffModel { joins: Map::empty(), leaves: gone[topic] },
                ),
    )
}

/// The broadcasts, as their models, in order.
fn one_broadcast(b: Option<DeltaBroadcast>) -> (r: Vec<DeltaBroadcast>)
    ensures
        r.deep_view() == (match b {
            Some(b) => seq![b.deep_view()],
            None => Seq::empty(),
        }),
{
    let mut r: Vec<DeltaBroadcast> = Vec::new();
    match b {
        Some(b) => {
            r.push(b);
            assert(r.deep_view() =~= seq![b.deep_view()]);
        },
        None => {
            assert(r.deep_view() =~= Seq::empty());
        },
    }
    r
}

/// The entry that a call makes.
pub open spec fn fresh_meta(
    node: &LocalNode,
    now: Moment,
    count: u64,
    pid: Pid,
    meta: Seq<u8>,
) -> MetaModel {
    MetaModel {
        phx_ref: ref_text(node.atoms.string(node.name_atom()), now.micros, count),
        phx_ref_prev: None,
        pid,
        meta,
        updated_at: now.secs,
    }
}

/// Whether a call makes a new entry.
pub open spec fn makes_entry(store: StoreModel, request: PresenceCall) -> bool {
    match request {
        PresenceCall::Track { topic, key, pid, meta } => true,
        PresenceCall::Update { topic, key, pid, meta } => owns_one(
            store.metas(topic@, key@),
            pid,
        ),
        _ => false,
    }
}

/// The entries after a call.
pub open spec fn store_after(
    store: StoreModel,
    request: PresenceCall,
    node: &LocalNode,
    now: Moment,
    count: u64,
) -> StoreModel {
    match request {
        PresenceCall::Track { topic, key, pid, meta } => store.with_entry(
            topic@,
            key@,
            fresh_meta(node, now, count, pid, meta.deep_view()),
        ),
        PresenceCall::Untrack { topic, key, pid } => store.untracked(topic@, key@, pid),
        PresenceCall::UntrackAll { pid } => store.untracked_all(pid),
        PresenceCall::Update { topic, key, pid, meta } => store.updated(
            topic@,
            key@,
            fresh_meta(node, now, count, pid, meta.deep_view()),
        ),
        PresenceCall::List { topic } => store,
        PresenceCall::Get { topic, key } => store,
    }
}

/// The reply to a call.
pub open spec fn reply_to(
    store: StoreModel,
    request: PresenceCall,
    node: &LocalNode,
    now: Moment,
    count: u64,
) -> ReplyModel {
    match request {
        PresenceCall::Track { topic, key, pid, meta } => ReplyModel::Done(
            Some(fresh_meta(node, now, count, pid, meta.deep_view()).phx_ref),
        ),
        PresenceCall::Untrack { topic, key, pid } => ReplyModel::Done(None),
        PresenceCall::UntrackAll { pid } => ReplyModel::Done(None),
        PresenceCall::Update { topic, key, pid, meta } => ReplyModel::Done(
            if owns_one(store.metas(topic@, key@), pid) {
                Some(fresh_meta(node, now, count, pid, meta.deep_view()).phx_ref)
            } else {
                None
            },
        ),
        PresenceCall::List { topic } => ReplyModel::List(store.topic(topic@)),
        PresenceCall::Get { topic, key } => ReplyModel::Get(
            if store.topic(topic@).contains_key(key@) {
                Some(store.metas(topic@, key@))
            } else {
                None
            },
        ),
    }
}

/// The entries after a message of another node.
pub open spec fn store_told(store: StoreModel, msg: MessageModel) -> StoreModel {
    match msg {
        MessageModel::Delta { topic, diff } => store.changed(topic, diff),
        MessageModel::SyncResponse { topic, state } => store.merged(topic, state),
        _ => store,
    }
}

/// Whether these are the broadcasts that a call makes. Those of different
/// topics come in no particular order.
pub open spec fn broadcasts_of(
    name: Seq<char>,
    pubsub: Seq<char>,
    store: StoreModel,
    request: PresenceCall,
    node: &LocalNode,
    now: Moment,
    count: u64,
    sent: Seq<BroadcastModel>,
) -> bool {
    match request {
        PresenceCall::Track { topic, key, pid, meta } => {
            let m = fresh_meta(node, now, count, pid, meta.deep_view());
            sent == seq![delta_broadcast(pubsub, name, topic@, join_diff(key@, seq![m]))]
        },
        PresenceCall::Untrack { topic, key, pid } => {
            let gone = store.metas(topic@, key@).filter(owned_by(pid));
            sent == (if gone.len() > 0 {
                seq![delta_broadcast(pubsub, name, topic@, leave_diff(key@, gone))]
            } else {
                Seq::empty()
            })
        },
        PresenceCall::UntrackAll { pid } => {
            let gone = untracked_leaves_by_topic(store.topics, store.pairs(pid), pid);
            sent.no_duplicates() && sent.to_set() == leave_broadcasts(pubsub, name, gone)
        },
        PresenceCall::Update { topic, key, pid, meta } => {
            let metas = store.metas(topic@, key@);
            let m = fresh_meta(node, now, count, pid, meta.deep_view());
            sent == (if owns_one(metas, pid) {
                seq![
                    delta_broadcast(
                        pubsub,
                        name,
                        topic@,
                        join_diff(key@, seq![replacement(metas, m)]),
                    ),
                ]
            } else {
                Seq::empty()
            })
        },
        PresenceCall::List { topic } => sent == Seq::<BroadcastModel>::empty(),
        PresenceCall::Get { topic, key } => sent == Seq::<BroadcastModel>::empty(),
    }
}

impl PresenceServerState {
    /// The entries are in order.
    pub open spec fn well_formed(&self) -> bool {
        self.store.well_formed()
    }

    /// The state at the start. The server announces itself next.
    pub fn init(config: PresenceConfig) -> (r: Self)
        ensures
            r.well_formed(),
            r.name@ == config.name@,
            r.pubsub@ == config.pubsub@,
            r.pg_group@ == group_of(config.name@),
            r.store.deep_view() == (StoreModel { topics: Map::empty(), pids: Map::empty() }),
            r.self_pid is None,
    {
        let pg_group = presence_group(config.name.as_str());
        PresenceServerState {
            name: config.name,
            pubsub: config.pubsub,
            pg_group,
            store: PresenceStore::new(),
            self_pid: None,
        }
    }

    /// Handles a call, at the moment `now`, on `node`. `counter` runs on with
    /// each new reference.
    pub fn handle_call(
        &mut self,
        request: PresenceCall,
        node: &LocalNode,
        now: Moment,
        counter: &mut u64,
    ) -> (r: (PresenceReply, Vec<DeltaBroadcast>))
        requires
            old(self).well_formed(),
            node.well_formed(),
        ensures
            final(self).well_formed(),
            final(self).name == old(self).name,
            final(self).pubsub == old(self).pubsub,
            final(self).pg_group == old(self).pg_group,
            final(self).self_pid == old(self).self_pid,
            final(self).store.deep_view() == store_after(
                old(self).store.deep_view(),
                request,
                node,
                now,
                *old(counter),
            ),
            *final(counter) == (if makes_entry(old(self).store.deep_view(), request) {
                next_number(*old(counter))
            } else {
                *old(counter)
            }),
            r.0.deep_view() == reply_to(
                old(self).store.deep_view(),
                request,
                node,
                now,
                *old(counter),
            ),
            broadcasts_of(
                old(self).name@,
                old(self).pubsub@,
                old(self).store.deep_view(),
                request,
                node,
                now,
                *old(counter),
                r.1.deep_view(),
            ),
    {
        match request {
            PresenceCall::Track { topic, key, pid, meta } => {
                let m = PresenceMeta::new(node, now, counter, pid, meta);
                let phx_ref = m.phx_ref.duplicate();
                let diff = diff_of_join(key.as_str(), m.duplicate());
                self.store.track(topic.as_str(), key.as_str(), m);
                assert(diff.deep_view().joins.contains_key(key@));
                let sent = self.broadcast(topic.as_str(), diff);
                (PresenceReply::Done(Some(phx_ref)), one_broadcast(sent))
            },
            PresenceCall::Untrack { topic, key, pid } => {
                let removed = self.store.untrack(topic.as_str(), key.as_str(), pid);
                let sent = if removed.len() > 0 {
                    let diff = diff_of_leave(key.as_str(), removed);
                    assert(diff.deep_view().leaves.contains_key(key@));
                    self.broadcast(topic.as_str(), diff)
                } else {
                    None
                };
                (PresenceReply::Done(None), one_broadcast(sent))
            },
            PresenceCall::UntrackAll { pid } => {
                let by_topic = self.store.untrack_all(pid);
                let sent = self.broadcast_leaves(by_topic);
                (PresenceReply::Done(None), sent)
            },
            PresenceCall::Update { topic, key, pid, meta } => {
                if self.store.find_owned(topic.as_str(), key.as_str(), pid).is_none() {
                    return (PresenceReply::Done(None), one_broadcast(None));
                }
                let m = PresenceMeta::new(node, now, counter, pid, meta);
                match self.store.update(topic.as_str(), key.as_str(), m) {
                    Some(new) => {
                        let phx_ref = new.phx_ref.duplicate();
                        let diff = diff_of_join(key.as_str(), new);
                        assert(diff.deep_view().joins.contains_key(key@));
                        let sent = self.broadcast(topic.as_str(), diff);
                        (PresenceReply::Done(Some(phx_ref)), one_broadcast(sent))
                    },
                    None => (PresenceReply::Done(None), one_broadcast(None)),
                }
            },
            PresenceCall::List { topic } => {
                (PresenceReply::List(self.store.list(topic.as_str())), one_broadcast(None))
            },
            PresenceCall::Get { topic, key } => {
                let found = self.store.get(topic.as_str(), key.as_str());
                (PresenceReply::Get(found), one_broadcast(None))
            },
        }
    }

    fn broadcast(&self, topic: &str, diff: PresenceDiff) -> (r: Option<DeltaBroadcast>)
        ensures
            r.deep_view() == (if diff.deep_view().is_empty() {
                None
            } else {
                Some(delta_broadcast(self.pubsub@, self.name@, topic@, diff.deep_view()))
            }),
    {
        broadcast_delta(self.pubsub.as_str(), self.name.as_str(), topic, diff)
    }

    fn broadcast_leaves(&self, by_topic: Table<String, Presences>) -> (r: Vec<DeltaBroadcast>)
        requires
            forall|t: Seq<char>| #[trigger]
                by_topic.deep_view().contains_key(t) ==> by_topic.deep_view()[t] != Map::<
                    Seq<char>,
                    Seq<MetaModel>,
                >::empty(),
        ensures
            r.deep_view().no_duplicates(),
            r.deep_view().to_set() == leave_broadcasts(
                self.pubsub@,
                self.name@,
                by_topic.deep_view(),
            ),
    {
        let ghost rows = by_topic.rows();
        let ghost gone = by_topic.deep_view();
        let n: usize = by_topic.len();
        let mut sent: Vec<DeltaBroadcast> = Vec::new();
        let mut i: usize = 0;
        while i < n
            invariant
                i <= n,
                n == rows.len(),
                rows == by_topic.rows(),
                gone == by_topic.deep_view(),
                gone == rows_map(rows),
                sent.len() == i,
                distinct_keys(rows),
                forall|t: Seq<char>| #[trigger]
                    gone.contains_key(t) ==> gone[t] != Map::<Seq<char>, Seq<MetaModel>>::empty(),
                forall|j: int|
                    0 <= j < i ==> (#[trigger] sent@[j]).deep_view() == delta_broadcast(
                        self.pubsub@,
                        self.name@,
                        rows[j].0,
                        DiffModel { joins: Map::empty(), leaves: rows[j].1 },
                    ),
            decreases n - i,
        {
            let mut diff = PresenceDiff::default();
            diff.leaves = by_topic.value_at(i).duplicate();
            proof {
                lemma_rows_map(rows);
                assert(gone.contains_key(rows[i as int].0));
            }
            if let Some(b) = self.broadcast(by_topic.key_at(i).as_str(), diff) {
                sent.push(b);
            }
            i += 1;
        }
        proof {
            lemma_rows_map(rows);
            let all = sent.deep_view();
            assert(all.no_duplicates()) by {
                assert forall|a: int, b: int|
                    0 <= a < all.len() && 0 <= b < all.len() && a != b implies all[a] != all[b] by {
                    assert(all[a] == sent@[a].deep_view());
                    assert(all[b] == sent@[b].deep_view());
                    assert(rows[a].0 != rows[b].0);
                }
            }
            let wanted = leave_broadcasts(self.pubsub@, self.name@, gone);
            assert forall|b: BroadcastModel| all.to_set().contains(b) <==> #[trigger] wanted.contains(
                b,
            ) by {
                if all.to_set().contains(b) {
                    let j = choose|j: int| 0 <= j < all.len() && all[j] == b;
                    assert(all[j] == sent@[j].deep_view());
                    assert(gone.contains_key(rows[j].0));
                }
                if wanted.contains(b) {
                    let t = choose|t: Seq<char>| #[trigger]
                        gone.contains_key(t) && b == delta_broadcast(
                            self.pubsub@,
                            self.name@,
                            t,
                            DiffModel { joins: Map::empty(), leaves: gone[t] },
                        );
                    let j = place_of(rows, t);
                    assert(all[j] == sent@[j].deep_view());
                    assert(all[j] == b);
                }
            }
            assert(all.to_set() =~= wanted);
        }
        sent
    }

    /// Takes in what the server is told.
    pub fn handle_cast(&mut self, msg: PresenceCast)
        requires
            old(self).well_formed(),
        ensures
            final(self).well_formed(),
            final(self).name == old(self).name,
            final(self).pubsub == old(self).pubsub,
            final(self).pg_group == old(self).pg_group,
            final(self).self_pid == old(self).self_pid,
            final(self).store.deep_view() == (match msg {
                PresenceCast::ApplyDelta { topic, diff } => old(self).store.deep_view().changed(
                    topic@,
                    diff.deep_view(),
                ),
                PresenceCast::SyncState { topic, state } => old(self).store.deep_view().merged(
                    topic@,
                    state.deep_view(),
                ),
            }),
    {
        match msg {
            PresenceCast::ApplyDelta { topic, diff } => {
                self.store.apply_delta(topic.as_str(), &diff);
            },
            PresenceCast::SyncState { topic, state } => {
                self.store.merge_state(topic.as_str(), &state);
            },
        }
    }

    /// Takes in bytes from the presence server of another node. Bytes that are no
    /// message are passed over, and so is a message with more new names of nodes
    /// than fit into the table.
    pub fn handle_info(&mut self, atoms: &mut AtomTable, data: &[u8])
        requires
            old(self).well_formed(),
            old(atoms).well_formed(),
        ensures
            final(self).well_formed(),
            final(self).name == old(self).name,
            final(self).pubsub == old(self).pubsub,
            final(self).pg_group == old(self).pg_group,
            final(self).self_pid == old(self).self_pid,
            final(atoms).well_formed(),
            match PortablePresence::read(data@) {
                Some((model, rest)) => if after_reading_presence(old(atoms)@, model).len()
                    <= capacity() {
                    &&& final(atoms)@ == after_reading_presence(old(atoms)@, model)
                    &&& exists|msg: PresenceMessage|
                        {
                            &&& #[trigger] is_presence_import(final(atoms), msg, model)
                            &&& final(self).store.deep_view() == store_told(
                                old(self).store.deep_view(),
                                msg.deep_view(),
                            )
                        }
                } else {
                    &&& final(self).store.deep_view() == old(self).store.deep_view()
                    &&& final(atoms)@ == old(atoms)@
                },
                None => {
                    &&& final(self).store.deep_view() == old(self).store.deep_view()
                    &&& final(atoms)@ == old(atoms)@
                },
            },
    {
        if let Some(msg) = PresenceMessage::decode(atoms, data) {
            self.handle_message(msg);
        }
    }

    /// Takes in a message from the presence server of another node. Anything
    /// but a change or the entries of a topic is passed over.
    pub fn handle_message(&mut self, msg: PresenceMessage)
        requires
            old(self).well_formed(),
        ensures
            final(self).well_formed(),
            final(self).name == old(self).name,
            final(self).pubsub == old(self).pubsub,
            final(self).pg_group == old(self).pg_group,
            final(self).self_pid == old(self).self_pid,
            final(self).store.deep_view() == store_told(
                old(self).store.deep_view(),
                msg.deep_view(),
            ),
    {
        match msg {
            PresenceMessage::Delta { topic, diff } => {
                self.store.apply_delta(topic.as_str(), &diff);
            },
            PresenceMessage::SyncResponse { topic, state } => {
                self.store.merge_state(topic.as_str(), &state);
            },
            _ => {},
        }
    }

    /// Notes the server's own process, and says how it is to be announced.
    pub fn handle_continue(&mut self, self_pid: Pid) -> (r: Announcement)
        ensures
            final(self).self_pid == Some(self_pid),
            final(self).name == old(self).name,
            final(self).pubsub == old(self).pubsub,
            final(self).pg_group == old(self).pg_group,
            final(self).store == old(self).store,
            r.name == old(self).name,
            r.pg_group == old(self).pg_group,
            r.pid == self_pid,
    {
        self.self_pid = Some(self_pid);
        Announcement { name: self.name.clone(), pg_group: self.pg_group.clone(), pid: self_pid }
    }
}

/// The text of the error where no server is registered under the name.
pub open spec fn not_found_text(presence: Seq<char>) -> Seq<char> {
    "Presence '"@ + presence + "' not found"@
}

/// What a caller asks the presence server, and what it makes of the reply. A
/// failed call is described by the text of its error.
pub struct Presence;

impl Presence {
    /// The server that a call goes to: who is registered under the name.
    fn server_of(server: Option<Pid>, presence: &str) -> (r: Result<Pid, String>)
        ensures
            match server {
                Some(pid) => r == Ok::<Pid, String>(pid),
                None => r matches Err(e) && e@ == not_found_text(presence@),
            },
    {
        match server {
            Some(pid) => Ok(pid),
            None => Err(join3("Presence '", presence, "' not found")),
        }
    }

    /// The call that tracks a process, and the server that it goes to. `server`
    /// is who is registered under the name, and `meta` what encoding the
    /// metadata came to.
    pub fn track_pid(
        server: Option<Pid>,
        presence: &str,
        topic: &str,
        key: &str,
        pid: Pid,
        meta: Result<Vec<u8>, String>,
    ) -> (r: Result<(Pid, PresenceCall), String>)
        ensures
            match (server, meta) {
                (Some(to), Ok(bytes)) => {
                    &&& r matches Ok((s, PresenceCall::Track { topic: t, key: k, pid: p, meta: m }))
                    &&& s == to
                    &&& t@ == topic@
                    &&& k@ == key@
                    &&& p == pid
                    &&& m == bytes
                },
                (Some(_), Err(failure)) => r matches Err(e) && e@ == "serialize failed: "@
                    + failure@,
                (None, _) => r matches Err(e) && e@ == not_found_text(presence@),
            },
    {
        let to = match Self::server_of(server, presence) {
            Ok(to) => to,
            Err(e) => {
                return Err(e);
            },
        };
        match meta {
            Ok(meta) => {
                let call = PresenceCall::Track {
                    topic: topic.to_owned(),
                    key: key.to_owned(),
                    pid,
                    meta,
                };
                Ok((to, call))
            },
            Err(failure) => Err(join2("serialize failed: ", failure.as_str())),
        }
    }

    /// The call that ends the tracking of a process under a key, and the server
    /// that it goes to.
    pub fn untrack_pid(server: Option<Pid>, presence: &str, topic: &str, key: &str, pid: Pid) -> (r:
        Result<(Pid, PresenceCall), String>)
        ensures
            match server {
                Some(to) => {
                    &&& r matches Ok((s, PresenceCall::Untrack { topic: t, key: k, pid: p }))
                    &&& s == to
                    &&& t@ == topic@
                    &&& k@ == key@
                    &&& p == pid
                },
                None => r matches Err(e) && e@ == not_found_text(presence@),
            },
    {
        match Self::server_of(server, presence) {
            Ok(to) => Ok(
                (to, PresenceCall::Untrack { topic: topic.to_owned(), key: key.to_owned(), pid }),
            ),
            Err(e) => Err(e),
        }
    }

    /// The call that ends all tracking of a process, and the server that it goes to.
    pub fn untrack_all(server: Option<Pid>, presence: &str, pid: Pid) -> (r: Result<
        (Pid, PresenceCall),
        String,
    >)
        ensures
            match server {
                Some(to) => {
                    &&& r matches Ok((s, PresenceCall::UntrackAll { pid: p }))
                    &&& s == to
                    &&& p == pid
                },
                None => r matches Err(e) && e@ == not_found_text(presence@),
            },
    {
        match Self::server_of(server, presence) {
            Ok(to) => Ok((to, PresenceCall::UntrackAll { pid })),
            Err(e) => Err(e),
        }
    }

    /// The call that replaces the metadata of a process, and the server that it
    /// goes to. `meta` is what encoding the metadata came to.
    pub fn update_pid(
        server: Option<Pid>,
        presence: &str,
        topic: &str,
        key: &str,
        pid: Pid,
        meta: Result<Vec<u8>, String>,
    ) -> (r: Result<(Pid, PresenceCall), String>)
        ensures
            match (server, meta) {
                (Some(to), Ok(bytes)) => {
                    &&& r matches Ok(
                        (s, PresenceCall::Update { topic: t, key: k, pid: p, meta: m }),
                    )
                    &&& s == to
                    &&& t@ == topic@
                    &&& k@ == key@
                    &&& p == pid
                    &&& m == bytes
                },
                (Some(_), Err(failure)) => r matches Err(e) && e@ == "serialize failed: "@
                    + failure@,
                (None, _) => r matches Err(e) && e@ == not_found_text(presence@),
            },
    {
        let to = match Self::server_of(server, presence) {
            Ok(to) => to,
            Err(e) => {
                return Err(e);
            },
        };
        match meta {
            Ok(meta) => {
                let call = PresenceCall::Update {
                    topic: topic.to_owned(),
                    key: key.to_owned(),
                    pid,
                    meta,
                };
                Ok((to, call))
            },
            Err(failure) => Err(join2("serialize failed: ", failure.as_str())),
        }
    }

    /// The call that asks for the entries of a topic, and the server that it goes to.
    pub fn list(server: Option<Pid>, presence: &str, topic: &str) -> (r: Result<
        (Pid, PresenceCall),
        String,
    >)
        ensures
            match server {
                Some(to) => {
                    &&& r matches Ok((s, PresenceCall::List { topic: t }))
                    &&& s == to
                    &&& t@ == topic@
                },
                None => r matches Err(e) && e@ == not_found_text(presence@),
            },
    {
        match Self::server_of(server, presence) {
            Ok(to) => Ok((to, PresenceCall::List { topic: topic.to_owned() })),
            Err(e) => Err(e),
        }
    }

    /// The call that asks for the entries of a key, and the server that it goes to.
    pub fn get(server: Option<Pid>, presence: &str, topic: &str, key: &str) -> (r: Result<
        (Pid, PresenceCall),
        String,
    >)
        ensures
            match server {
                Some(to) => {
                    &&& r matches Ok((s, PresenceCall::Get { topic: t, key: k }))
                    &&& s == to
                    &&& t@ == topic@
                    &&& k@ == key@
                },
                None => r matches Err(e) && e@ == not_found_text(presence@),
            },
    {
        match Self::server_of(server, presence) {
            Ok(to) => Ok((to, PresenceCall::Get { topic: topic.to_owned(), key: key.to_owned() })),
            Err(e) => Err(e),
        }
    }

    /// The reference of a new entry.
    pub fn track_outcome(reply: Result<PresenceReply, String>) -> (r: Result<PresenceRef, String>)
        ensures
            match reply {
                Ok(PresenceReply::Done(Some(phx_ref))) => r == Ok::<PresenceRef, String>(phx_ref),
                Ok(_) => r matches Err(e) && e@ == "unexpected reply"@,
                Err(failure) => r matches Err(e) && e@ == "track failed: "@ + failure@,
            },
    {
        match reply {
            Ok(PresenceReply::Done(Some(phx_ref))) => Ok(phx_ref),
            Ok(_) => Err("unexpected reply".to_owned()),
            Err(failure) => Err(join2("track failed: ", failure.as_str())),
        }
    }

    /// Whether an untracking succeeded, whatever the reply says.
    pub fn untrack_outcome(reply: Result<PresenceReply, String>) -> (r: Result<(), String>)
        ensures
            match reply {
                Ok(_) => r is Ok,
                Err(failure) => r matches Err(e) && e@ == "untrack failed: "@ + failure@,
            },
    {
        match reply {
            Ok(_) => Ok(()),
            Err(failure) => Err(join2("untrack failed: ", failure.as_str())),
        }
    }

    /// Whether the untracking of a whole process succeeded, whatever the reply says.
    pub fn untrack_all_outcome(reply: Result<PresenceReply, String>) -> (r: Result<(), String>)
        ensures
            match reply {
                Ok(_) => r is Ok,
                Err(failure) => r matches Err(e) && e@ == "untrack_all failed: "@ + failure@,
            },
    {
        match reply {
            Ok(_) => Ok(()),
            Err(failure) => Err(join2("untrack_all failed: ", failure.as_str())),
        }
    }

    /// The reference of a replaced entry, if one was replaced.
    pub fn update_outcome(reply: Result<PresenceReply, String>) -> (r: Result<
        Option<PresenceRef>,
        String,
    >)
        ensures
            match reply {
                Ok(PresenceReply::Done(phx_ref)) => r == Ok::<Option<PresenceRef>, String>(phx_ref),
                Ok(_) => r matches Err(e) && e@ == "unexpected reply"@,
                Err(failure) => r matches Err(e) && e@ == "update failed: "@ + failure@,
            },
    {
        match reply {
            Ok(PresenceReply::Done(phx_ref)) => Ok(phx_ref),
            Ok(_) => Err("unexpected reply".to_owned()),
            Err(failure) => Err(join2("update failed: ", failure.as_str())),
        }
    }

    /// The entries of a topic.
    pub fn list_outcome(reply: Result<PresenceReply, String>) -> (r: Result<Presences, String>)
        ensures
            match reply {
                Ok(PresenceReply::List(presences)) => r == Ok::<Presences, String>(presences),
                Ok(_) => r matches Err(e) && e@ == "unexpected reply"@,
                Err(failure) => r matches Err(e) && e@ == "list failed: "@ + failure@,
            },
    {
        match reply {
            Ok(PresenceReply::List(presences)) => Ok(presences),
            Ok(_) => Err("unexpected reply".to_owned()),
            Err(failure) => Err(join2("list failed: ", failure.as_str())),
        }
    }

    /// The entries of a key, if it is there.
    pub fn get_outcome(reply: Result<PresenceReply, String>) -> (r: Result<
        Option<PresenceState>,
        String,
    >)
        ensures
            match reply {
                Ok(PresenceReply::Get(state)) => r == Ok::<Option<PresenceState>, String>(state),
                Ok(_) => r matches Err(e) && e@ == "unexpected reply"@,
                Err(failure) => r matches Err(e) && e@ == "get failed: "@ + failure@,
            },
    {
        match reply {
            Ok(PresenceReply::Get(state)) => Ok(state),
            Ok(_) => Err("unexpected reply".to_owned()),
            Err(failure) => Err(join2("get failed: ", failure.as_str())),
        }
    }
}

} // verus!
