//! The presence tracker of a node.
use crate::atom::Atom;
use crate::base::node::LocalNode;
use crate::base::pid::Pid;
use crate::data::{next_number, push_one, Data};
use crate::directory::Directory;
use crate::presence::store::{
    owned_by, owns_one, replacement, untracked_leaves_by_topic, PresenceStore, StoreModel,
};
use crate::presence::types::{
    ref_text, DiffModel, MessageModel, MetaModel, Moment, PresenceDiff, PresenceMessage,
    PresenceMeta, PresenceRef, PresenceState, Presences, TopicModel,
};
use crate::table::{distinct_keys, lemma_rows_map, place_of, rows_map};
use crate::text::join2;
use vstd::prelude::*;

verus! {

/// The process group in which the trackers of a topic meet.
pub open spec fn group_of(topic: Seq<char>) -> Seq<char> {
    "presence:"@ + topic
}

/// The process group in which the trackers of a topic meet.
pub fn presence_group(topic: &str) -> (r: String)
    ensures
        r@ == group_of(topic@),
{
    join2("presence:", topic)
}

/// What a tracker asks to be done.
pub enum PresenceAction {
    /// Make the process a member of the group.
    Join {
        /// The group.
        group: String,
        /// The process.
        pid: Pid,
    },
    /// End the process's membership of the group.
    Leave {
        /// The group.
        group: String,
        /// The process.
        pid: Pid,
    },
    /// Send the message to the members of the group on other nodes.
    Broadcast {
        /// The group.
        group: String,
        /// The message.
        message: PresenceMessage,
    },
    /// Answer the node that asked.
    Respond {
        /// The node.
        node: Atom,
        /// The answer.
        message: PresenceMessage,
    },
}

/// What an action says.
pub enum ActionModel {
    Join { group: Seq<char>, pid: Pid },
    Leave { group: Seq<char>, pid: Pid },
    Broadcast { group: Seq<char>, message: MessageModel },
    Respond { node: Atom, message: MessageModel },
}

impl DeepView for PresenceAction {
    type V = ActionModel;

    open spec fn deep_view(&self) -> ActionModel {
        match self {
            PresenceAction::Join { group, pid } => ActionModel::Join { group: group@, pid: *pid },
            PresenceAction::Leave { group, pid } => ActionModel::Leave {
                group: group@,
                pid: *pid,
            },
            PresenceAction::Broadcast { group, message } => ActionModel::Broadcast {
                group: group@,
                message: message.deep_view(),
            },
            PresenceAction::Respond { node, message } => ActionModel::Respond {
                node: *node,
                message: message.deep_view(),
            },
        }
    }
}

/// Selects the processes of other nodes.
pub open spec fn on_other_node(my_node: Atom) -> spec_fn(Pid) -> bool {
    |pid: Pid| pid.spec_node() != my_node
}

/// The members of a group that a broadcast goes to: those on other nodes.
pub fn recipients(members: &Vec<Pid>, my_node: Atom) -> (r: Vec<Pid>)
    ensures
        r@ == members@.filter(on_other_node(my_node)),
{
    let mut r: Vec<Pid> = Vec::new();
    let mut i: usize = 0;
    proof {
        reveal(Seq::filter);
        assert(r@ =~= members@.take(0).filter(on_other_node(my_node)));
    }
    while i < members.len()
        invariant
            i <= members.len(),
            r@ == members@.take(i as int).filter(on_other_node(my_node)),
        decreases members.len() - i,
    {
        proof {
            assert(members@.take(i + 1) =~= members@.take(i as int).push(members@[i as int]));
            members@.take(i as int).lemma_filter_push(
                members@[i as int],
                on_other_node(my_node),
            );
        }
        if members[i].node() != my_node {
            r.push(members[i]);
        }
        i += 1;
    }
    assert(members@.take(members@.len() as int) =~= members@);
    r
}

/// The change that one key's joining entries make.
pub open spec fn join_diff(key: Seq<char>, metas: Seq<MetaModel>) -> DiffModel {
    DiffModel { joins: Map::empty().insert(key, metas), leaves: Map::empty() }
}

/// The change that one key's leaving entries make.
pub open spec fn leave_diff(key: Seq<char>, metas: Seq<MetaModel>) -> DiffModel {
    DiffModel { joins: Map::empty(), leaves: Map::empty().insert(key, metas) }
}

/// The broadcast of a change.
pub open spec fn delta_action(topic: Seq<char>, diff: DiffModel) -> ActionModel {
    ActionModel::Broadcast {
        group: group_of(topic),
        message: MessageModel::Delta { topic, diff },
    }
}

/// The change that one key's joining entry makes.
pub(crate) fn diff_of_join(key: &str, m: PresenceMeta) -> (r: PresenceDiff)
    ensures
        r.deep_view() == join_diff(key@, seq![m.deep_view()]),
{
    let mut diff = PresenceDiff::default();
    let metas = vec![m];
    assert(metas.deep_view() =~= seq![m.deep_view()]);
    diff.joins.insert(key.to_owned(), PresenceState { metas });
    diff
}

/// The change that one key's leaving entries make.
pub(crate) fn diff_of_leave(key: &str, metas: Vec<PresenceMeta>) -> (r: PresenceDiff)
    ensures
        r.deep_view() == leave_diff(key@, metas.deep_view()),
{
    let mut diff = PresenceDiff::default();
    diff.leaves.insert(key.to_owned(), PresenceState { metas });
    diff
}

/// What a tracker holds.
pub struct TrackerModel {
    pub store: StoreModel,
    pub clock: u64,
    pub heartbeats: Map<Seq<char>, u64>,
}

/// The presence tracker of a node: its entries, its logical clock and the last
/// sign of life of each other node.
pub struct PresenceTracker {
    store: PresenceStore,
    clock: u64,
    node_heartbeats: Directory<String, u64>,
}

impl DeepView for PresenceTracker {
    type V = TrackerModel;

    closed spec fn deep_view(&self) -> TrackerModel {
        TrackerModel {
            store: self.store.deep_view(),
            clock: self.clock,
            heartbeats: self.node_heartbeats.deep_view(),
        }
    }
}

fn no_actions() -> (r: Vec<PresenceAction>)
    ensures
        r.deep_view() == Seq::<ActionModel>::empty(),
{
    let r: Vec<PresenceAction> = Vec::new();
    assert(r.deep_view() =~= Seq::empty());
    r
}

impl PresenceTracker {
    /// The parts are in order.
    pub closed spec fn well_formed(&self) -> bool {
        self.store.well_formed() && self.node_heartbeats.well_formed()
    }

    /// A tracker without entries.
    pub fn new() -> (r: Self)
        ensures
            r.well_formed(),
            r.deep_view() == (TrackerModel {
                store: StoreModel { topics: Map::empty(), pids: Map::empty() },
                clock: 0,
                heartbeats: Map::empty(),
            }),
    {
        PresenceTracker {
            store: PresenceStore::new(),
            clock: 0,
            node_heartbeats: Directory::new(),
        }
    }

    /// Tracks a process under a key of a topic. The process joins the topic's
    /// group, and the other nodes hear of the new entry.
    pub fn track(
        &mut self,
        node: &LocalNode,
        now: Moment,
        counter: &mut u64,
        topic: &str,
        key: &str,
        pid: Pid,
        meta: Vec<u8>,
    ) -> (r: (PresenceRef, Vec<PresenceAction>))
        requires
            old(self).well_formed(),
            node.well_formed(),
        ensures
            final(self).well_formed(),
            *final(counter) == next_number(*old(counter)),
            ({
                let m = MetaModel {
                    phx_ref: ref_text(
                        node.atoms.string(node.name_atom()),
                        now.micros,
                        *old(counter),
                    ),
                    phx_ref_prev: None,
                    pid,
                    meta: meta.deep_view(),
                    updated_at: now.secs,
                };
                &&& final(self).deep_view() == (TrackerModel {
                    store: old(self).deep_view().store.with_entry(topic@, key@, m),
                    ..old(self).deep_view()
                })
                &&& r.0.deep_view() == m.phx_ref
                &&& r.1.deep_view() == seq![
                    ActionModel::Join { group: group_of(topic@), pid },
                    delta_action(topic@, join_diff(key@, seq![m])),
                ]
            }),
    {
        let m = PresenceMeta::new(node, now, counter, pid, meta);
        let phx_ref = m.phx_ref.duplicate();
        let diff = diff_of_join(key, m.duplicate());
        self.store.track(topic, key, m);
        let mut actions = no_actions();
        push_one(&mut actions, PresenceAction::Join { group: presence_group(topic), pid });
        let delta = self.broadcast_delta(topic, diff);
        proof {
            assert(join_diff(key@, seq![m.deep_view()]).joins.contains_key(key@));
        }
        append_actions(&mut actions, delta);
        assert(actions.deep_view() =~= seq![
            ActionModel::Join { group: group_of(topic@), pid },
            delta_action(topic@, join_diff(key@, seq![m.deep_view()])),
        ]);
        (phx_ref, actions)
    }

    /// Ends the tracking of a process under a key. The entries of other
    /// processes stay. The other nodes hear of the entries that went, if any.
    pub fn untrack(&mut self, topic: &str, key: &str, pid: Pid) -> (r: Vec<PresenceAction>)
        requires
            old(self).well_formed(),
        ensures
            final(self).well_formed(),
            final(self).deep_view() == (TrackerModel {
                store: old(self).deep_view().store.untracked(topic@, key@, pid),
                ..old(self).deep_view()
            }),
            ({
                let gone = old(self).deep_view().store.metas(topic@, key@).filter(owned_by(pid));
                r.deep_view() == (if gone.len() > 0 {
                    seq![delta_action(topic@, leave_diff(key@, gone))]
                } else {
                    Seq::empty()
                })
            }),
    {
        let removed = self.store.untrack(topic, key, pid);
        if removed.len() > 0 {
            assert(leave_diff(key@, removed.deep_view()).leaves.contains_key(key@));
            self.broadcast_delta(topic, diff_of_leave(key, removed))
        } else {
            no_actions()
        }
    }

    /// Replaces the first entry of a process under a key. Returns the new
    /// reference, or nothing where the process has no entry there. The running
    /// number goes on either way.
    pub fn update(
        &mut self,
        node: &LocalNode,
        now: Moment,
        counter: &mut u64,
        topic: &str,
        key: &str,
        pid: Pid,
        meta: Vec<u8>,
    ) -> (r: (Option<PresenceRef>, Vec<PresenceAction>))
        requires
            old(self).well_formed(),
            node.well_formed(),
        ensures
            final(self).well_formed(),
            *final(counter) == next_number(*old(counter)),
            ({
                let metas = old(self).deep_view().store.metas(topic@, key@);
                let m = MetaModel {
                    phx_ref: ref_text(
                        node.atoms.string(node.name_atom()),
                        now.micros,
                        *old(counter),
                    ),
                    phx_ref_prev: None,
                    pid,
                    meta: meta.deep_view(),
                    updated_at: now.secs,
                };
                &&& final(self).deep_view() == (TrackerModel {
                    store: old(self).deep_view().store.updated(topic@, key@, m),
                    ..old(self).deep_view()
                })
                &&& r.0.deep_view() == (if owns_one(metas, pid) {
                    Some(m.phx_ref)
                } else {
                    None
                })
                &&& r.1.deep_view() == (if owns_one(metas, pid) {
                    seq![delta_action(topic@, join_diff(key@, seq![replacement(metas, m)]))]
                } else {
                    Seq::empty()
                })
            }),
    {
        let m = PresenceMeta::new(node, now, counter, pid, meta);
        match self.store.update(topic, key, m) {
            Some(new) => {
                let phx_ref = new.phx_ref.duplicate();
                assert(join_diff(key@, seq![new.deep_view()]).joins.contains_key(key@));
                let actions = self.broadcast_delta(topic, diff_of_join(key, new));
                (Some(phx_ref), actions)
            },
            None => (None, no_actions()),
        }
    }

    /// The entries of a topic, by key.
    pub fn list(&self, topic: &str) -> (r: Presences)
        requires
            self.well_formed(),
        ensures
            r.deep_view() == self.deep_view().store.topic(topic@),
    {
        self.store.list(topic)
    }

    /// The entries of a key in a topic, if the key is there.
    pub fn get(&self, topic: &str, key: &str) -> (r: Option<PresenceState>)
        requires
            self.well_formed(),
        ensures
            match r {
                Some(state) => {
                    &&& self.deep_view().store.topic(topic@).contains_key(key@)
                    &&& state.deep_view() == self.deep_view().store.metas(topic@, key@)
                },
                None => !self.deep_view().store.topic(topic@).contains_key(key@),
            },
    {
        self.store.get(topic, key)
    }

    /// The keys of a topic, each once.
    pub fn keys(&self, topic: &str) -> (r: Vec<String>)
        requires
            self.well_formed(),
        ensures
            r.deep_view().no_duplicates(),
            r.deep_view().to_set() == self.deep_view().store.topic(topic@).dom(),
    {
        self.store.keys(topic)
    }

    /// The number of entries of a topic, or the greatest number where there are more.
    pub fn count(&self, topic: &str) -> (r: usize)
        requires
            self.well_formed(),
        ensures
            ({
                let places = crate::presence::store::entry_places(
                    self.deep_view().store.topic(topic@),
                );
                &&& places.finite()
                &&& r == (if places.len() <= usize::MAX {
                    places.len()
                } else {
                    usize::MAX as nat
                })
            }),
    {
        self.store.count(topic)
    }

    /// The broadcast of a change, unless nothing changed.
    pub fn broadcast_delta(&self, topic: &str, diff: PresenceDiff) -> (r: Vec<PresenceAction>)
        ensures
            r.deep_view() == (if diff.deep_view().is_empty() {
                Seq::empty()
            } else {
                seq![delta_action(topic@, diff.deep_view())]
            }),
    {
        let mut actions = no_actions();
        if !diff.is_empty() {
            let message = PresenceMessage::Delta { topic: topic.to_owned(), diff };
            push_one(
                &mut actions,
                PresenceAction::Broadcast { group: presence_group(topic), message },
            );
            assert(actions.deep_view() =~= seq![delta_action(topic@, diff.deep_view())]);
        }
        actions
    }

    /// Ends all tracking of a process. The other nodes hear, topic by topic, of
    /// the entries that went.
    pub fn untrack_all(&mut self, pid: Pid) -> (r: Vec<PresenceAction>)
        requires
            old(self).well_formed(),
        ensures
            final(self).well_formed(),
            final(self).deep_view() == (TrackerModel {
                store: old(self).deep_view().store.untracked_all(pid),
                ..old(self).deep_view()
            }),
            ({
                let gone = untracked_leaves_by_topic(
                    old(self).deep_view().store.topics,
                    old(self).deep_view().store.pairs(pid),
                    pid,
                );
                &&& r.deep_view().no_duplicates()
                &&& r.deep_view().to_set() == leave_actions(gone)
            }),
    {
        let by_topic = self.store.untrack_all(pid);
        let ghost rows = by_topic.rows();
        let ghost gone = by_topic.deep_view();
        let n: usize = by_topic.len();
        let mut actions = no_actions();
        let mut i: usize = 0;
        proof {
            lemma_rows_map(rows);
        }
        while i < n
            invariant
                i <= n,
                n == rows.len(),
                rows == by_topic.rows(),
                actions.deep_view().len() == i,
                forall|t: Seq<char>| #[trigger]
                    rows_map(rows).contains_key(t) ==> rows_map(rows)[t] != Map::<
                        Seq<char>,
                        Seq<MetaModel>,
                    >::empty(),
                distinct_keys(rows),
                forall|j: int|
                    0 <= j < i ==> #[trigger] actions.deep_view()[j] == leave_action(
                        rows[j].0,
                        rows[j].1,
                    ),
            decreases n - i,
        {
            let mut diff = PresenceDiff::default();
            diff.leaves = by_topic.value_at(i).duplicate();
            proof {
                lemma_rows_map(rows);
                assert(rows_map(rows).contains_key(rows[i as int].0));
            }
            let more = self.broadcast_delta(by_topic.key_at(i).as_str(), diff);
            append_actions(&mut actions, more);
            i += 1;
        }
        proof {
            lemma_rows_map(rows);
            let all = actions.deep_view();
            assert(all.no_duplicates());
            assert forall|a: ActionModel| all.to_set().contains(a) <==> #[trigger] leave_actions(
                gone,
            ).contains(a) by {
                if all.to_set().contains(a) {
                    let j = choose|j: int| 0 <= j < all.len() && all[j] == a;
                    assert(gone.contains_key(rows[j].0));
                }
                if leave_actions(gone).contains(a) {
                    let t = choose|t: Seq<char>| #[trigger]
                        gone.contains_key(t) && a == leave_action(t, gone[t]);
                    let j = place_of(rows, t);
                    assert(all[j] == a);
                }
            }
            assert(all.to_set() =~= leave_actions(gone));
        }
        actions
    }

    /// Handles a message of another tracker, at time `now`.
    pub fn handle_message(
        &mut self,
        msg: PresenceMessage,
        from_node: Atom,
        now: u64,
    ) -> (r: Vec<PresenceAction>)
        requires
            old(self).well_formed(),
        ensures
            final(self).well_formed(),
            final(self).deep_view() == old(self).deep_view().after_message(msg.deep_view(), now),
            r.deep_view() == final(self).deep_view().answer(msg.deep_view(), from_node),
    {
        match msg {
            PresenceMessage::SyncRequest { topic } => {
                let state = self.store.list(topic.as_str());
                let message = PresenceMessage::SyncResponse { topic, state };
                let mut actions = no_actions();
                push_one(&mut actions, PresenceAction::Respond { node: from_node, message });
                assert(actions.deep_view() =~= final(self).deep_view().answer(
                    msg.deep_view(),
                    from_node,
                ));
                actions
            },
            PresenceMessage::SyncResponse { topic, state } => {
                self.merge_state(topic.as_str(), &state);
                no_actions()
            },
            PresenceMessage::Delta { topic, diff } => self.apply_delta(topic.as_str(), diff),
            PresenceMessage::Heartbeat { node, clock } => {
                self.node_heartbeats.insert(node, now);
                if clock > self.clock {
                    self.clock = clock;
                }
                no_actions()
            },
        }
    }

    /// Merges the entries of another tracker into a topic.
    pub fn merge_state(&mut self, topic: &str, remote: &Presences)
        requires
            old(self).well_formed(),
        ensures
            final(self).well_formed(),
            final(self).deep_view() == (TrackerModel {
                store: old(self).deep_view().store.merged(topic@, remote.deep_view()),
                ..old(self).deep_view()
            }),
    {
        self.store.merge_state(topic, remote);
    }

    /// Applies a change to a topic. After a join, what the topic now holds is
    /// sent back, so that new nodes get the full picture.
    pub fn apply_delta(&mut self, topic: &str, diff: PresenceDiff) -> (r: Vec<PresenceAction>)
        requires
            old(self).well_formed(),
        ensures
            final(self).well_formed(),
            final(self).deep_view() == (TrackerModel {
                store: old(self).deep_view().store.changed(topic@, diff.deep_view()),
                ..old(self).deep_view()
            }),
            r.deep_view() == final(self).deep_view().answer_to_delta(topic@, diff.deep_view()),
    {
        let has_joins = !diff.joins.is_empty();
        self.store.apply_delta(topic, &diff);
        if has_joins {
            let ours = self.store.list(topic);
            if !ours.is_empty() {
                return self.broadcast_state(topic, ours);
            }
        }
        no_actions()
    }

    /// The broadcast of all entries of a topic.
    pub fn broadcast_state(&self, topic: &str, state: Presences) -> (r: Vec<PresenceAction>)
        ensures
            r.deep_view() == seq![state_action(topic@, state.deep_view())],
    {
        let message = PresenceMessage::SyncResponse { topic: topic.to_owned(), state };
        let mut actions = no_actions();
        push_one(
            &mut actions,
            PresenceAction::Broadcast { group: presence_group(topic), message },
        );
        assert(actions.deep_view() =~= seq![state_action(topic@, state.deep_view())]);
        actions
    }

    /// Makes a process a member of the group of a topic.
    pub fn join_group(&self, topic: &str, pid: Pid) -> (r: PresenceAction)
        ensures
            r.deep_view() == (ActionModel::Join { group: group_of(topic@), pid }),
    {
        PresenceAction::Join { group: presence_group(topic), pid }
    }

    /// Ends a process's membership of the group of a topic.
    pub fn leave_group(&self, topic: &str, pid: Pid) -> (r: PresenceAction)
        ensures
            r.deep_view() == (ActionModel::Leave { group: group_of(topic@), pid }),
    {
        PresenceAction::Leave { group: presence_group(topic), pid }
    }
}

/// The broadcast of the entries of a topic that went.
pub open spec fn leave_action(topic: Seq<char>, gone: TopicModel) -> ActionModel {
    delta_action(topic, DiffModel { joins: Map::empty(), leaves: gone })
}

/// The broadcasts of the entries that went, one for each topic.
pub open spec fn leave_actions(gone: Map<Seq<char>, TopicModel>) -> Set<ActionModel> {
    Set::new(
        |a: ActionModel|
            exists|topic: Seq<char>| #[trigger]
                gone.contains_key(topic) && a == leave_action(topic, gone[topic]),
    )
}

/// The broadcast of all entries of a topic.
pub open spec fn state_action(topic: Seq<char>, state: TopicModel) -> ActionModel {
    ActionModel::Broadcast {
        group: group_of(topic),
        message: MessageModel::SyncResponse { topic, state },
    }
}

impl TrackerModel {
    /// The tracker after a message that came at time `now`.
    pub open spec fn after_message(self, msg: MessageModel, now: u64) -> TrackerModel {
        match msg {
            MessageModel::SyncRequest { topic } => self,
            MessageModel::SyncResponse { topic, state } => TrackerModel {
                store: self.store.merged(topic, state),
                ..self
            },
            MessageModel::Delta { topic, diff } => TrackerModel {
                store: self.store.changed(topic, diff),
                ..self
            },
            MessageModel::Heartbeat { node, clock } => TrackerModel {
                clock: if clock > self.clock {
                    clock
                } else {
                    self.clock
                },
                heartbeats: self.heartbeats.insert(node, now),
                ..self
            },
        }
    }

    /// What a tracker that has taken in a change sends back.
    pub open spec fn answer_to_delta(self, topic: Seq<char>, diff: DiffModel) -> Seq<ActionModel> {
        if diff.joins != Map::<Seq<char>, Seq<MetaModel>>::empty() && self.store.topic(topic)
            != Map::<Seq<char>, Seq<MetaModel>>::empty() {
            seq![state_action(topic, self.store.topic(topic))]
        } else {
            Seq::empty()
        }
    }

    /// What a tracker that has taken in a message asks to be done.
    pub open spec fn answer(self, msg: MessageModel, from_node: Atom) -> Seq<ActionModel> {
        match msg {
            MessageModel::SyncRequest { topic } => seq![
                ActionModel::Respond {
                    node: from_node,
                    message: MessageModel::SyncResponse { topic, state: self.store.topic(topic) },
                },
            ],
            MessageModel::Delta { topic, diff } => self.answer_to_delta(topic, diff),
            _ => Seq::empty(),
        }
    }
}

impl Default for PresenceTracker {
    fn default() -> (r: Self)
        ensures
            r.well_formed(),
            r.deep_view() == (TrackerModel {
                store: StoreModel { topics: Map::empty(), pids: Map::empty() },
                clock: 0,
                heartbeats: Map::empty(),
            }),
    {
        PresenceTracker::new()
    }
}

fn append_actions(actions: &mut Vec<PresenceAction>, more: Vec<PresenceAction>)
    ensures
        final(actions).deep_view() == old(actions).deep_view() + more.deep_view(),
{
    let mut rest = more;
    actions.append(&mut rest);
    assert(actions.deep_view() =~= old(actions).deep_view() + more.deep_view());
}

} // verus!
