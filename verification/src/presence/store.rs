//! The entries that a presence tracker holds.
use crate::base::pid::Pid;
use crate::data::{push_one, Data};
use crate::directory::Directory;
use crate::presence::types::{
    DiffModel, MetaModel, PresenceDiff, PresenceMeta, PresenceRef, PresenceState, Presences,
    TopicModel,
};
use crate::table::{distinct_keys, has_key, lemma_rows_push, place_of, rows_map, ListSet, Table};
use vstd::prelude::*;

verus! {

/// Selects the entries of a process.
pub open spec fn owned_by(pid: Pid) -> spec_fn(MetaModel) -> bool {
    |m: MetaModel| m.pid == pid
}

/// Selects the entries of all other processes.
pub open spec fn not_owned_by(pid: Pid) -> spec_fn(MetaModel) -> bool {
    |m: MetaModel| m.pid != pid
}

/// Whether an entry has the reference.
pub open spec fn has_ref(metas: Seq<MetaModel>, phx_ref: Seq<char>) -> bool {
    exists|i: int| 0 <= i < metas.len() && (#[trigger] metas[i]).phx_ref == phx_ref
}

/// Selects the entries whose reference none of `others` has.
pub open spec fn not_among(others: Seq<MetaModel>) -> spec_fn(MetaModel) -> bool {
    |m: MetaModel| !has_ref(others, m.phx_ref)
}

/// Selects the entries with another reference.
pub open spec fn not_ref(phx_ref: Seq<char>) -> spec_fn(MetaModel) -> bool {
    |m: MetaModel| m.phx_ref != phx_ref
}

/// One entry added, unless its reference is there already.
pub open spec fn with_meta(local: Seq<MetaModel>, m: MetaModel) -> Seq<MetaModel> {
    if has_ref(local, m.phx_ref) {
        local
    } else {
        local.push(m)
    }
}

/// The entries of `remote` added, in order, each unless its reference is there already.
pub open spec fn merged(local: Seq<MetaModel>, remote: Seq<MetaModel>) -> Seq<MetaModel>
    decreases remote.len(),
{
    if remote.len() == 0 {
        local
    } else {
        with_meta(merged(local, remote.drop_last()), remote.last())
    }
}

/// The entries without the one that `m` replaces, if it replaces one.
pub open spec fn without_replaced(local: Seq<MetaModel>, m: MetaModel) -> Seq<MetaModel> {
    match m.phx_ref_prev {
        Some(prev) => local.filter(not_ref(prev)),
        None => local,
    }
}

/// The joining entries added, in order. Each takes the place of the one that it
/// replaces, and is not added if its reference is there already.
pub open spec fn joined(local: Seq<MetaModel>, joins: Seq<MetaModel>) -> Seq<MetaModel>
    decreases joins.len(),
{
    if joins.len() == 0 {
        local
    } else {
        with_meta(
            without_replaced(joined(local, joins.drop_last()), joins.last()),
            joins.last(),
        )
    }
}

/// The entries of a key, none where the key is missing.
pub open spec fn entries_of(topic: TopicModel, key: Seq<char>) -> Seq<MetaModel> {
    if topic.contains_key(key) {
        topic[key]
    } else {
        Seq::empty()
    }
}

/// The entries of a topic, none where the topic is missing.
pub open spec fn topic_of(topics: Map<Seq<char>, TopicModel>, topic: Seq<char>) -> TopicModel {
    if topics.contains_key(topic) {
        topics[topic]
    } else {
        Map::empty()
    }
}

/// A topic after the entries of `remote` were merged into it.
pub open spec fn merged_topic(local: TopicModel, remote: TopicModel) -> TopicModel {
    Map::new(
        |key: Seq<char>| local.contains_key(key) || remote.contains_key(key),
        |key: Seq<char>|
            if remote.contains_key(key) {
                merged(entries_of(local, key), remote[key])
            } else {
                local[key]
            },
    )
}

/// A topic after the leaving entries went. A key that loses its last entry goes too.
pub open spec fn left_topic(local: TopicModel, leaves: TopicModel) -> TopicModel {
    Map::new(
        |key: Seq<char>|
            local.contains_key(key) && !(leaves.contains_key(key) && local[key].filter(
                not_among(leaves[key]),
            ).len() == 0),
        |key: Seq<char>|
            if leaves.contains_key(key) {
                local[key].filter(not_among(leaves[key]))
            } else {
                local[key]
            },
    )
}

/// A topic after the joining entries came.
pub open spec fn joined_topic(local: TopicModel, joins: TopicModel) -> TopicModel {
    Map::new(
        |key: Seq<char>| local.contains_key(key) || joins.contains_key(key),
        |key: Seq<char>|
            if joins.contains_key(key) {
                joined(entries_of(local, key), joins[key])
            } else {
                local[key]
            },
    )
}

/// A topic after a change: first the leaves, then the joins.
pub open spec fn changed_topic(local: TopicModel, diff: DiffModel) -> TopicModel {
    joined_topic(left_topic(local, diff.leaves), diff.joins)
}

/// A topic of which the keys in `keys` lost the entries of a process. A key
/// that loses its last entry goes too.
pub open spec fn untracked_topic(
    local: TopicModel,
    keys: Set<Seq<char>>,
    pid: Pid,
) -> TopicModel {
    Map::new(
        |key: Seq<char>|
            local.contains_key(key) && !(keys.contains(key) && local[key].filter(
                not_owned_by(pid),
            ).len() == 0),
        |key: Seq<char>|
            if keys.contains(key) {
                local[key].filter(not_owned_by(pid))
            } else {
                local[key]
            },
    )
}

/// The entries that go when the keys in `keys` lose the entries of a process.
pub open spec fn untracked_leaves(
    local: TopicModel,
    keys: Set<Seq<char>>,
    pid: Pid,
) -> TopicModel {
    Map::new(
        |key: Seq<char>|
            local.contains_key(key) && keys.contains(key) && local[key].filter(
                owned_by(pid),
            ).len() > 0,
        |key: Seq<char>| local[key].filter(owned_by(pid)),
    )
}

/// The places of entries in a topic: a key, and a place among its entries.
pub open spec fn entry_places(local: TopicModel) -> Set<(Seq<char>, int)> {
    Set::new(|p: (Seq<char>, int)| local.contains_key(p.0) && 0 <= p.1 < local[p.0].len())
}

proof fn lemma_take_push<T>(s: Seq<T>, i: int)
    requires
        0 <= i < s.len(),
    ensures
        s.take(i + 1) == s.take(i).push(s[i]),
{
    assert(s.take(i + 1) =~= s.take(i).push(s[i]));
}

/// Splits entries into those of a process and the others, both in order.
fn split_by_owner(metas: &Vec<PresenceMeta>, pid: Pid) -> (r: (Vec<PresenceMeta>, Vec<PresenceMeta>))
    ensures
        r.0.deep_view() == metas.deep_view().filter(owned_by(pid)),
        r.1.deep_view() == metas.deep_view().filter(not_owned_by(pid)),
{
    let ghost all = metas.deep_view();
    let mut owned: Vec<PresenceMeta> = Vec::new();
    let mut others: Vec<PresenceMeta> = Vec::new();
    let mut i: usize = 0;
    proof {
        reveal(Seq::filter);
        assert(owned.deep_view() =~= all.take(0).filter(owned_by(pid)));
        assert(others.deep_view() =~= all.take(0).filter(not_owned_by(pid)));
    }
    while i < metas.len()
        invariant
            i <= metas.len(),
            all == metas.deep_view(),
            owned.deep_view() == all.take(i as int).filter(owned_by(pid)),
            others.deep_view() == all.take(i as int).filter(not_owned_by(pid)),
        decreases metas.len() - i,
    {
        proof {
            lemma_take_push(all, i as int);
            all.take(i as int).lemma_filter_push(all[i as int], owned_by(pid));
            all.take(i as int).lemma_filter_push(all[i as int], not_owned_by(pid));
        }
        let m = metas[i].duplicate();
        if m.pid == pid {
            push_one(&mut owned, m);
        } else {
            push_one(&mut others, m);
        }
        i += 1;
    }
    assert(all.take(all.len() as int) =~= all);
    (owned, others)
}

/// Whether an entry has the reference.
fn holds_ref(metas: &Vec<PresenceMeta>, m: &PresenceMeta) -> (r: bool)
    ensures
        r == has_ref(metas.deep_view(), m.deep_view().phx_ref),
{
    let mut i: usize = 0;
    while i < metas.len()
        invariant
            i <= metas.len(),
            forall|j: int|
                0 <= j < i ==> (#[trigger] metas.deep_view()[j]).phx_ref != m.deep_view().phx_ref,
        decreases metas.len() - i,
    {
        assert(metas.deep_view()[i as int] == metas@[i as int].deep_view());
        if metas[i].phx_ref.same(&m.phx_ref) {
            return true;
        }
        i += 1;
    }
    false
}

/// The entries whose reference none of `others` has, in order.
fn drop_refs(metas: &Vec<PresenceMeta>, others: &Vec<PresenceMeta>) -> (r: Vec<PresenceMeta>)
    ensures
        r.deep_view() == metas.deep_view().filter(not_among(others.deep_view())),
{
    let ghost all = metas.deep_view();
    let ghost keep = not_among(others.deep_view());
    let mut r: Vec<PresenceMeta> = Vec::new();
    let mut i: usize = 0;
    proof {
        reveal(Seq::filter);
        assert(r.deep_view() =~= all.take(0).filter(keep));
    }
    while i < metas.len()
        invariant
            i <= metas.len(),
            all == metas.deep_view(),
            keep == not_among(others.deep_view()),
            r.deep_view() == all.take(i as int).filter(keep),
        decreases metas.len() - i,
    {
        proof {
            lemma_take_push(all, i as int);
            all.take(i as int).lemma_filter_push(all[i as int], keep);
        }
        if !holds_ref(others, &metas[i]) {
            push_one(&mut r, metas[i].duplicate());
        }
        i += 1;
    }
    assert(all.take(all.len() as int) =~= all);
    r
}

/// Adds an entry, unless its reference is there already.
fn add_meta(local: &mut Vec<PresenceMeta>, m: PresenceMeta)
    ensures
        final(local).deep_view() == with_meta(old(local).deep_view(), m.deep_view()),
{
    if !holds_ref(local, &m) {
        push_one(local, m);
    }
}

/// Adds the entries of `remote` whose references are not there yet.
fn merge_metas(local: &mut Vec<PresenceMeta>, remote: &Vec<PresenceMeta>)
    ensures
        final(local).deep_view() == merged(old(local).deep_view(), remote.deep_view()),
{
    let ghost all = remote.deep_view();
    let ghost before = local.deep_view();
    let mut i: usize = 0;
    while i < remote.len()
        invariant
            i <= remote.len(),
            all == remote.deep_view(),
            local.deep_view() == merged(before, all.take(i as int)),
        decreases remote.len() - i,
    {
        proof {
            lemma_take_push(all, i as int);
            assert(all.take(i + 1).drop_last() =~= all.take(i as int));
        }
        add_meta(local, remote[i].duplicate());
        i += 1;
    }
    assert(all.take(all.len() as int) =~= all);
}

/// The entries with another reference, in order.
fn drop_ref(metas: &Vec<PresenceMeta>, phx_ref: &PresenceRef) -> (r: Vec<PresenceMeta>)
    ensures
        r.deep_view() == metas.deep_view().filter(not_ref(phx_ref.deep_view())),
{
    let ghost all = metas.deep_view();
    let ghost keep = not_ref(phx_ref.deep_view());
    let mut r: Vec<PresenceMeta> = Vec::new();
    let mut i: usize = 0;
    proof {
        reveal(Seq::filter);
        assert(r.deep_view() =~= all.take(0).filter(keep));
    }
    while i < metas.len()
        invariant
            i <= metas.len(),
            all == metas.deep_view(),
            keep == not_ref(phx_ref.deep_view()),
            r.deep_view() == all.take(i as int).filter(keep),
        decreases metas.len() - i,
    {
        proof {
            lemma_take_push(all, i as int);
            all.take(i as int).lemma_filter_push(all[i as int], keep);
        }
        if !metas[i].phx_ref.same(phx_ref) {
            push_one(&mut r, metas[i].duplicate());
        }
        i += 1;
    }
    assert(all.take(all.len() as int) =~= all);
    r
}

/// Adds the joining entries, each in place of the one that it replaces.
fn join_metas(local: Vec<PresenceMeta>, joins: &Vec<PresenceMeta>) -> (r: Vec<PresenceMeta>)
    ensures
        r.deep_view() == joined(local.deep_view(), joins.deep_view()),
{
    let ghost all = joins.deep_view();
    let ghost before = local.deep_view();
    let mut r = local;
    let mut i: usize = 0;
    while i < joins.len()
        invariant
            i <= joins.len(),
            all == joins.deep_view(),
            r.deep_view() == joined(before, all.take(i as int)),
        decreases joins.len() - i,
    {
        proof {
            lemma_take_push(all, i as int);
            assert(all.take(i + 1).drop_last() =~= all.take(i as int));
        }
        let m = joins[i].duplicate();
        match &m.phx_ref_prev {
            Some(prev) => {
                r = drop_ref(&r, prev);
            },
            None => {},
        }
        add_meta(&mut r, m);
        i += 1;
    }
    assert(all.take(all.len() as int) =~= all);
    r
}

proof fn lemma_rows_take<A, B>(rows: Seq<(A, B)>, i: int)
    requires
        distinct_keys(rows),
        0 <= i < rows.len(),
    ensures
        distinct_keys(rows.take(i)),
        !rows_map(rows.take(i)).contains_key(rows[i].0),
        rows_map(rows.take(i + 1)) == rows_map(rows.take(i)).insert(rows[i].0, rows[i].1),
{
    let some = rows.take(i);
    assert(distinct_keys(some));
    if has_key(some, rows[i].0) {
        let j = place_of(some, rows[i].0);
        assert(some[j] == rows[j]);
    }
    lemma_rows_push(some, rows[i].0, rows[i].1);
    lemma_take_push(rows, i);
}

proof fn lemma_rows_take_none<A, B>(rows: Seq<(A, B)>)
    ensures
        rows_map(rows.take(0)) == Map::<A, B>::empty(),
        rows.take(rows.len() as int) == rows,
{
    assert(rows_map(rows.take(0)) =~= Map::<A, B>::empty());
    assert(rows.take(rows.len() as int) =~= rows);
}

/// Takes the entries of a key out of a topic.
fn take_metas(topic: &mut Presences, key: &String) -> (r: Vec<PresenceMeta>)
    ensures
        final(topic).deep_view() == old(topic).deep_view().remove(key@),
        r.deep_view() == entries_of(old(topic).deep_view(), key@),
{
    match topic.remove(key) {
        Some(state) => state.metas,
        None => {
            let r: Vec<PresenceMeta> = Vec::new();
            assert(r.deep_view() =~= Seq::empty());
            r
        },
    }
}

/// Merges the entries of `remote` into a topic.
fn merge_topic(topic: &mut Presences, remote: &Presences)
    ensures
        final(topic).deep_view() == merged_topic(old(topic).deep_view(), remote.deep_view()),
{
    let ghost before = topic.deep_view();
    let ghost rows = remote.rows();
    let n: usize = remote.len();
    let mut i: usize = 0;
    proof {
        lemma_rows_take_none(rows);
        assert(topic.deep_view() =~= merged_topic(before, rows_map(rows.take(0))));
    }
    while i < n
        invariant
            i <= n,
            n == rows.len(),
            rows == remote.rows(),
            distinct_keys(rows),
            topic.deep_view() == merged_topic(before, rows_map(rows.take(i as int))),
        decreases n - i,
    {
        let key = remote.key_at(i).clone();
        proof {
            lemma_rows_take(rows, i as int);
        }
        let mut metas = take_metas(topic, &key);
        merge_metas(&mut metas, &remote.value_at(i).metas);
        topic.insert(key, PresenceState { metas });
        assert(topic.deep_view() =~= merged_topic(before, rows_map(rows.take(i + 1))));
        i += 1;
    }
    proof {
        lemma_rows_take_none(rows);
    }
}

/// Takes the leaving entries out of a topic.
fn leave_topic(topic: &mut Presences, leaves: &Presences)
    ensures
        final(topic).deep_view() == left_topic(old(topic).deep_view(), leaves.deep_view()),
{
    let ghost before = topic.deep_view();
    let ghost rows = leaves.rows();
    let n: usize = leaves.len();
    let mut i: usize = 0;
    proof {
        lemma_rows_take_none(rows);
        assert(topic.deep_view() =~= left_topic(before, rows_map(rows.take(0))));
    }
    while i < n
        invariant
            i <= n,
            n == rows.len(),
            rows == leaves.rows(),
            distinct_keys(rows),
            topic.deep_view() == left_topic(before, rows_map(rows.take(i as int))),
        decreases n - i,
    {
        let key = leaves.key_at(i).clone();
        proof {
            lemma_rows_take(rows, i as int);
        }
        if topic.contains_key(&key) {
            let metas = take_metas(topic, &key);
            let rest = drop_refs(&metas, &leaves.value_at(i).metas);
            if rest.len() > 0 {
                topic.insert(key, PresenceState { metas: rest });
            }
        }
        assert(topic.deep_view() =~= left_topic(before, rows_map(rows.take(i + 1))));
        i += 1;
    }
    proof {
        lemma_rows_take_none(rows);
    }
}

/// Adds the joining entries to a topic.
fn join_topic(topic: &mut Presences, joins: &Presences)
    ensures
        final(topic).deep_view() == joined_topic(old(topic).deep_view(), joins.deep_view()),
{
    let ghost before = topic.deep_view();
    let ghost rows = joins.rows();
    let n: usize = joins.len();
    let mut i: usize = 0;
    proof {
        lemma_rows_take_none(rows);
        assert(topic.deep_view() =~= joined_topic(before, rows_map(rows.take(0))));
    }
    while i < n
        invariant
            i <= n,
            n == rows.len(),
            rows == joins.rows(),
            distinct_keys(rows),
            topic.deep_view() == joined_topic(before, rows_map(rows.take(i as int))),
        decreases n - i,
    {
        let key = joins.key_at(i).clone();
        proof {
            lemma_rows_take(rows, i as int);
        }
        let metas = take_metas(topic, &key);
        let metas = join_metas(metas, &joins.value_at(i).metas);
        topic.insert(key, PresenceState { metas });
        assert(topic.deep_view() =~= joined_topic(before, rows_map(rows.take(i + 1))));
        i += 1;
    }
    proof {
        lemma_rows_take_none(rows);
    }
}

/// Takes the entries of a process at one key out of a topic, and returns them.
fn untrack_key(topic: &mut Presences, key: &String, pid: Pid) -> (r: Vec<PresenceMeta>)
    ensures
        final(topic).deep_view() == untracked_topic(
            old(topic).deep_view(),
            set![key@],
            pid,
        ),
        r.deep_view() == entries_of(old(topic).deep_view(), key@).filter(owned_by(pid)),
{
    let ghost before = topic.deep_view();
    let had = topic.contains_key(key);
    let metas = take_metas(topic, key);
    let (owned, rest) = split_by_owner(&metas, pid);
    if had && rest.len() > 0 {
        topic.insert(key.clone(), PresenceState { metas: rest });
    }
    assert(topic.deep_view() =~= untracked_topic(before, set![key@], pid));
    owned
}

/// What a store holds: the entries by topic and key, and for each process the
/// topics and keys that it was tracked under.
pub struct StoreModel {
    pub topics: Map<Seq<char>, TopicModel>,
    pub pids: Map<Pid, Set<(Seq<char>, Seq<char>)>>,
}

/// The keys of a topic among pairs of topic and key.
pub open spec fn keys_in(
    pairs: Set<(Seq<char>, Seq<char>)>,
    topic: Seq<char>,
) -> Set<Seq<char>> {
    Set::new(|key: Seq<char>| pairs.contains((topic, key)))
}

/// The topics after the pairs lost the entries of a process.
pub open spec fn untracked_topics(
    topics: Map<Seq<char>, TopicModel>,
    pairs: Set<(Seq<char>, Seq<char>)>,
    pid: Pid,
) -> Map<Seq<char>, TopicModel> {
    Map::new(
        |topic: Seq<char>| topics.contains_key(topic),
        |topic: Seq<char>| untracked_topic(topics[topic], keys_in(pairs, topic), pid),
    )
}

/// The entries that go when the pairs lose the entries of a process, by topic.
pub open spec fn untracked_leaves_by_topic(
    topics: Map<Seq<char>, TopicModel>,
    pairs: Set<(Seq<char>, Seq<char>)>,
    pid: Pid,
) -> Map<Seq<char>, TopicModel> {
    Map::new(
        |topic: Seq<char>|
            topics.contains_key(topic) && untracked_leaves(
                topics[topic],
                keys_in(pairs, topic),
                pid,
            ) != Map::<Seq<char>, Seq<MetaModel>>::empty(),
        |topic: Seq<char>| untracked_leaves(topics[topic], keys_in(pairs, topic), pid),
    )
}

/// Whether the first entry of a process stands at the place.
pub open spec fn first_owned(metas: Seq<MetaModel>, pid: Pid, i: int) -> bool {
    &&& 0 <= i < metas.len()
    &&& metas[i].pid == pid
    &&& forall|j: int| 0 <= j < i ==> (#[trigger] metas[j]).pid != pid
}

/// Whether a process has an entry.
pub open spec fn owns_one(metas: Seq<MetaModel>, pid: Pid) -> bool {
    exists|i: int| first_owned(metas, pid, i)
}

/// The entry that replaces the first one of its process.
pub open spec fn replacement(metas: Seq<MetaModel>, m: MetaModel) -> MetaModel {
    let i = choose|i: int| first_owned(metas, m.pid, i);
    MetaModel { phx_ref_prev: Some(metas[i].phx_ref), ..m }
}

/// The entries after the first one of a process was replaced.
pub open spec fn replaced(metas: Seq<MetaModel>, m: MetaModel) -> Seq<MetaModel> {
    let i = choose|i: int| first_owned(metas, m.pid, i);
    metas.update(i, replacement(metas, m))
}

impl StoreModel {
    /// The entries of a topic.
    pub open spec fn topic(self, topic: Seq<char>) -> TopicModel {
        topic_of(self.topics, topic)
    }

    /// The entries of a key in a topic.
    pub open spec fn metas(self, topic: Seq<char>, key: Seq<char>) -> Seq<MetaModel> {
        entries_of(self.topic(topic), key)
    }

    /// The pairs of topic and key that a process was tracked under.
    pub open spec fn pairs(self, pid: Pid) -> Set<(Seq<char>, Seq<char>)> {
        if self.pids.contains_key(pid) {
            self.pids[pid]
        } else {
            Set::empty()
        }
    }

    /// The store with one entry more.
    pub open spec fn with_entry(self, topic: Seq<char>, key: Seq<char>, m: MetaModel) -> StoreModel {
        StoreModel {
            topics: self.topics.insert(
                topic,
                self.topic(topic).insert(key, self.metas(topic, key).push(m)),
            ),
            pids: self.pids.insert(m.pid, self.pairs(m.pid).insert((topic, key))),
        }
    }

    /// The store without the entries of a process at one key.
    pub open spec fn untracked(self, topic: Seq<char>, key: Seq<char>, pid: Pid) -> StoreModel {
        StoreModel {
            topics: untracked_topics(self.topics, set![(topic, key)], pid),
            pids: if self.pids.contains_key(pid) {
                self.pids.insert(pid, self.pids[pid].remove((topic, key)))
            } else {
                self.pids
            },
        }
    }

    /// The store without the entries of a process at any pair that it was tracked under.
    pub open spec fn untracked_all(self, pid: Pid) -> StoreModel {
        StoreModel {
            topics: untracked_topics(self.topics, self.pairs(pid), pid),
            pids: self.pids.remove(pid),
        }
    }

    /// The store with the first entry of a process at a key replaced, if there is one.
    pub open spec fn updated(self, topic: Seq<char>, key: Seq<char>, m: MetaModel) -> StoreModel {
        if owns_one(self.metas(topic, key), m.pid) {
            StoreModel {
                topics: self.topics.insert(
                    topic,
                    self.topic(topic).insert(key, replaced(self.metas(topic, key), m)),
                ),
                pids: self.pids,
            }
        } else {
            self
        }
    }

    /// The store after a change of a topic.
    pub open spec fn changed(self, topic: Seq<char>, diff: DiffModel) -> StoreModel {
        StoreModel {
            topics: self.topics.insert(topic, changed_topic(self.topic(topic), diff)),
            pids: self.pids,
        }
    }

    /// The store after the entries of another one were merged into a topic.
    pub open spec fn merged(self, topic: Seq<char>, remote: TopicModel) -> StoreModel {
        StoreModel {
            topics: self.topics.insert(topic, merged_topic(self.topic(topic), remote)),
            pids: self.pids,
        }
    }
}

proof fn lemma_untrack_one_more(
    topics: Map<Seq<char>, TopicModel>,
    pairs: Set<(Seq<char>, Seq<char>)>,
    pid: Pid,
    topic: Seq<char>,
    key: Seq<char>,
)
    requires
        !pairs.contains((topic, key)),
    ensures
        topics.contains_key(topic) ==> {
            let now = untracked_topics(topics, pairs, pid);
            &&& untracked_topics(topics, pairs.insert((topic, key)), pid) == now.insert(
                topic,
                untracked_topic(now[topic], set![key], pid),
            )
            &&& entries_of(now[topic], key) == entries_of(topics[topic], key)
        },
        !topics.contains_key(topic) ==> untracked_topics(
            topics,
            pairs.insert((topic, key)),
            pid,
        ) == untracked_topics(topics, pairs, pid),
{
    let now = untracked_topics(topics, pairs, pid);
    let next = untracked_topics(topics, pairs.insert((topic, key)), pid);
    assert forall|t: Seq<char>| t != topic implies #[trigger] keys_in(
        pairs.insert((topic, key)),
        t,
    ) == keys_in(pairs, t) by {
        assert(keys_in(pairs.insert((topic, key)), t) =~= keys_in(pairs, t));
    }
    if topics.contains_key(topic) {
        assert(untracked_topic(now[topic], set![key], pid) =~= next[topic]);
        assert(next =~= now.insert(topic, untracked_topic(now[topic], set![key], pid)));
    } else {
        assert(next =~= now);
    }
}

proof fn lemma_leaves_one_more(
    topics: Map<Seq<char>, TopicModel>,
    pairs: Set<(Seq<char>, Seq<char>)>,
    pid: Pid,
    topic: Seq<char>,
    key: Seq<char>,
)
    requires
        !pairs.contains((topic, key)),
    ensures
        ({
            let now = untracked_leaves_by_topic(topics, pairs, pid);
            let next = untracked_leaves_by_topic(topics, pairs.insert((topic, key)), pid);
            let going = entries_of(topic_of(topics, topic), key).filter(owned_by(pid));
            next == (if going.len() > 0 {
                now.insert(topic, topic_of(now, topic).insert(key, going))
            } else {
                now
            })
        }),
{
    let now = untracked_leaves_by_topic(topics, pairs, pid);
    let next = untracked_leaves_by_topic(topics, pairs.insert((topic, key)), pid);
    let going = entries_of(topic_of(topics, topic), key).filter(owned_by(pid));
    assert forall|t: Seq<char>| t != topic implies #[trigger] keys_in(
        pairs.insert((topic, key)),
        t,
    ) == keys_in(pairs, t) by {
        assert(keys_in(pairs.insert((topic, key)), t) =~= keys_in(pairs, t));
    }
    reveal(Seq::filter);
    if topics.contains_key(topic) {
        let old_leaves = untracked_leaves(topics[topic], keys_in(pairs, topic), pid);
        let new_leaves = untracked_leaves(
            topics[topic],
            keys_in(pairs.insert((topic, key)), topic),
            pid,
        );
        assert(topic_of(now, topic) =~= old_leaves);
        if going.len() > 0 {
            assert(topics[topic].contains_key(key));
            assert(new_leaves =~= old_leaves.insert(key, going));
            assert(new_leaves.contains_key(key));
            assert(next =~= now.insert(topic, new_leaves));
        } else {
            assert(new_leaves =~= old_leaves);
            assert(next =~= now);
        }
    } else {
        assert(next =~= now);
    }
}

/// Entries by topic and key, with the pairs that each process was tracked under.
pub struct PresenceStore {
    topics: Directory<String, Presences>,
    pids: Directory<Pid, ListSet<(String, String)>>,
}

impl DeepView for PresenceStore {
    type V = StoreModel;

    closed spec fn deep_view(&self) -> StoreModel {
        StoreModel { topics: self.topics.deep_view(), pids: self.pids.deep_view() }
    }
}

impl PresenceStore {
    /// Both directories are in order.
    pub closed spec fn well_formed(&self) -> bool {
        self.topics.well_formed() && self.pids.well_formed()
    }

    /// A store without entries.
    pub fn new() -> (r: Self)
        ensures
            r.well_formed(),
            r.deep_view() == (StoreModel { topics: Map::empty(), pids: Map::empty() }),
    {
        PresenceStore { topics: Directory::new(), pids: Directory::new() }
    }

    fn take_topic(&mut self, topic: &String) -> (r: Presences)
        requires
            old(self).well_formed(),
        ensures
            final(self).well_formed(),
            final(self).topics.deep_view() == old(self).topics.deep_view().remove(topic@),
            final(self).pids == old(self).pids,
            r.deep_view() == old(self).deep_view().topic(topic@),
    {
        match self.topics.remove(topic) {
            Some(presences) => presences,
            None => Table::new(),
        }
    }

    /// Adds an entry, and notes the pair for its process.
    pub fn track(&mut self, topic: &str, key: &str, m: PresenceMeta)
        requires
            old(self).well_formed(),
        ensures
            final(self).well_formed(),
            final(self).deep_view() == old(self).deep_view().with_entry(topic@, key@, m.deep_view()),
    {
        let ghost before = self.deep_view();
        let pid = m.pid;
        let topic = topic.to_owned();
        let key = key.to_owned();
        let mut presences = self.take_topic(&topic);
        let mut metas = take_metas(&mut presences, &key);
        push_one(&mut metas, m);
        presences.insert(key.clone(), PresenceState { metas });
        proof {
            assert(presences.deep_view() =~= before.topic(topic@).insert(
                key@,
                before.metas(topic@, key@).push(m.deep_view()),
            ));
        }
        self.topics.insert(topic.clone(), presences);
        let mut pairs = match self.pids.remove(&pid) {
            Some(pairs) => pairs,
            None => ListSet::new(),
        };
        pairs.insert((topic, key));
        self.pids.insert(pid, pairs);
        proof {
            let after = before.with_entry(topic@, key@, m.deep_view());
            assert(self.deep_view().topics =~= after.topics);
            assert(self.deep_view().pids =~= after.pids);
        }
    }

    /// Takes out the entries of a process at one key, and returns them.
    pub fn untrack(&mut self, topic: &str, key: &str, pid: Pid) -> (r: Vec<PresenceMeta>)
        requires
            old(self).well_formed(),
        ensures
            final(self).well_formed(),
            final(self).deep_view() == old(self).deep_view().untracked(topic@, key@, pid),
            r.deep_view() == old(self).deep_view().metas(topic@, key@).filter(owned_by(pid)),
    {
        let ghost before = self.deep_view();
        let topic = topic.to_owned();
        let key = key.to_owned();
        proof {
            let none = Set::<(Seq<char>, Seq<char>)>::empty();
            lemma_untrack_one_more(before.topics, none, pid, topic@, key@);
            assert forall|t: Seq<char>| #[trigger] before.topics.contains_key(t) implies
                untracked_topic(before.topics[t], keys_in(none, t), pid) =~= before.topics[t] by {}
            assert(untracked_topics(before.topics, none, pid) =~= before.topics);
            assert(none.insert((topic@, key@)) =~= set![(topic@, key@)]);
        }
        let removed = self.untrack_pair(&topic, &key, pid);
        if let Some(pairs) = self.pids.remove(&pid) {
            let mut pairs = pairs;
            let pair = (topic, key);
            pairs.remove(&pair);
            self.pids.insert(pid, pairs);
        }
        proof {
            assert(self.deep_view().pids =~= before.untracked(topic@, key@, pid).pids);
            assert(self.deep_view().topics =~= before.untracked(topic@, key@, pid).topics);
        }
        removed
    }

    /// Takes out the entries of a process at one key, and leaves its pairs alone.
    fn untrack_pair(&mut self, topic: &String, key: &String, pid: Pid) -> (r: Vec<PresenceMeta>)
        requires
            old(self).well_formed(),
        ensures
            final(self).well_formed(),
            final(self).pids == old(self).pids,
            final(self).topics.deep_view() == (if old(self).topics.deep_view().contains_key(
                topic@,
            ) {
                old(self).topics.deep_view().insert(
                    topic@,
                    untracked_topic(old(self).topics.deep_view()[topic@], set![key@], pid),
                )
            } else {
                old(self).topics.deep_view()
            }),
            r.deep_view() == old(self).deep_view().metas(topic@, key@).filter(owned_by(pid)),
    {
        let ghost before = self.topics.deep_view();
        if self.topics.contains_key(topic) {
            let mut presences = self.take_topic(topic);
            let removed = untrack_key(&mut presences, key, pid);
            self.topics.insert(topic.clone(), presences);
            assert(self.topics.deep_view() =~= before.insert(
                topic@,
                untracked_topic(before[topic@], set![key@], pid),
            ));
            removed
        } else {
            let removed: Vec<PresenceMeta> = Vec::new();
            proof {
                reveal(Seq::filter);
                assert(removed.deep_view() =~= Seq::<MetaModel>::empty().filter(owned_by(pid)));
            }
            removed
        }
    }

    /// Takes out the entries of a process at every pair that it was tracked
    /// under, and returns them by topic and key.
    pub fn untrack_all(&mut self, pid: Pid) -> (r: Table<String, Presences>)
        requires
            old(self).well_formed(),
        ensures
            final(self).well_formed(),
            final(self).deep_view() == old(self).deep_view().untracked_all(pid),
            r.deep_view() == untracked_leaves_by_topic(
                old(self).deep_view().topics,
                old(self).deep_view().pairs(pid),
                pid,
            ),
    {
        let ghost before = self.deep_view();
        let pairs = match self.pids.remove(&pid) {
            Some(pairs) => pairs,
            None => ListSet::new(),
        };
        let n: usize = pairs.len();
        let ghost order = pairs.order();
        let mut by_topic: Table<String, Presences> = Table::new();
        let mut i: usize = 0;
        proof {
            let none = order.take(0).to_set();
            assert(none =~= Set::empty());
            assert forall|t: Seq<char>| #[trigger] before.topics.contains_key(t) implies
                untracked_topic(before.topics[t], keys_in(none, t), pid) =~= before.topics[t]
                && untracked_leaves(before.topics[t], keys_in(none, t), pid) =~= Map::empty() by {}
            assert(untracked_topics(before.topics, none, pid) =~= before.topics);
            assert(untracked_leaves_by_topic(before.topics, none, pid) =~= Map::empty());
        }
        while i < n
            invariant
                i <= n,
                n == order.len(),
                order == pairs.order(),
                order.no_duplicates(),
                self.well_formed(),
                self.pids.deep_view() == before.pids.remove(pid),
                self.topics.deep_view() == untracked_topics(
                    before.topics,
                    order.take(i as int).to_set(),
                    pid,
                ),
                by_topic.deep_view() == untracked_leaves_by_topic(
                    before.topics,
                    order.take(i as int).to_set(),
                    pid,
                ),
            decreases n - i,
        {
            let pair = pairs.at(i);
            let topic = pair.0.clone();
            let key = pair.1.clone();
            proof {
                let done = order.take(i as int).to_set();
                assert(order[i as int] == (topic@, key@));
                if done.contains((topic@, key@)) {
                    let j = choose|j: int|
                        0 <= j < i && order.take(i as int)[j] == (topic@, key@);
                    assert(order[j] == order[i as int]);
                }
                assert(order.take(i + 1).to_set() =~= done.insert((topic@, key@))) by {
                    lemma_take_push(order, i as int);
                    order.take(i as int).lemma_push_to_set_commute(order[i as int]);
                }
                lemma_untrack_one_more(before.topics, done, pid, topic@, key@);
                lemma_leaves_one_more(before.topics, done, pid, topic@, key@);
            }
            let removed = self.untrack_pair(&topic, &key, pid);
            if removed.len() > 0 {
                let mut leaves = match by_topic.remove(&topic) {
                    Some(leaves) => leaves,
                    None => Table::new(),
                };
                leaves.insert(key, PresenceState { metas: removed });
                by_topic.insert(topic, leaves);
            }
            assert(by_topic.deep_view() =~= untracked_leaves_by_topic(
                before.topics,
                order.take(i + 1).to_set(),
                pid,
            ));
            i += 1;
        }
        proof {
            assert(order.take(n as int) =~= order);
            assert(order.to_set() =~= before.pairs(pid));
        }
        by_topic
    }

    /// Replaces the first entry of a process at a key by `m`, which comes back
    /// with the reference of the entry that it replaced. Nothing happens if the
    /// process has no entry there.
    pub fn update(&mut self, topic: &str, key: &str, m: PresenceMeta) -> (r: Option<PresenceMeta>)
        requires
            old(self).well_formed(),
        ensures
            final(self).well_formed(),
            final(self).deep_view() == old(self).deep_view().updated(topic@, key@, m.deep_view()),
            match r {
                Some(new) => {
                    &&& owns_one(old(self).deep_view().metas(topic@, key@), m.pid)
                    &&& new.deep_view() == replacement(
                        old(self).deep_view().metas(topic@, key@),
                        m.deep_view(),
                    )
                },
                None => !owns_one(old(self).deep_view().metas(topic@, key@), m.pid),
            },
    {
        let ghost before = self.deep_view();
        let place = match self.find_owned(topic, key, m.pid) {
            Some(place) => place,
            None => {
                return None;
            },
        };
        let topic = topic.to_owned();
        let key = key.to_owned();
        let mut presences = self.take_topic(&topic);
        let mut metas = take_metas(&mut presences, &key);
        let ghost all = metas.deep_view();
        let mut new = m;
        new.phx_ref_prev = Some(metas[place].phx_ref.duplicate());
        proof {
            let i = choose|i: int| first_owned(all, m.pid, i);
            assert(i == place);
            assert(new.deep_view() == replacement(all, m.deep_view()));
        }
        metas[place] = new.duplicate();
        assert(metas.deep_view() =~= replaced(all, m.deep_view()));
        presences.insert(key, PresenceState { metas });
        assert(presences.deep_view() =~= before.topic(topic@).insert(
            key@,
            replaced(all, m.deep_view()),
        ));
        self.topics.insert(topic, presences);
        assert(self.deep_view().topics =~= before.updated(topic@, key@, m.deep_view()).topics);
        Some(new)
    }

    /// Where the first entry of a process stands among those of a key, if it has one.
    pub fn find_owned(&self, topic: &str, key: &str, pid: Pid) -> (r: Option<usize>)
        requires
            self.well_formed(),
        ensures
            match r {
                Some(i) => first_owned(self.deep_view().metas(topic@, key@), pid, i as int),
                None => !owns_one(self.deep_view().metas(topic@, key@), pid),
            },
    {
        let ghost all = self.deep_view().metas(topic@, key@);
        if let Some(presences) = self.topics.get(&topic.to_owned()) {
            if let Some(state) = presences.get(&key.to_owned()) {
                let mut i: usize = 0;
                while i < state.metas.len()
                    invariant
                        i <= state.metas.len(),
                        all == state.metas.deep_view(),
                        all == self.deep_view().metas(topic@, key@),
                        forall|j: int| 0 <= j < i ==> (#[trigger] all[j]).pid != pid,
                    decreases state.metas.len() - i,
                {
                    assert(all[i as int] == state.metas@[i as int].deep_view());
                    if state.metas[i].pid == pid {
                        assert(first_owned(all, pid, i as int));
                        return Some(i);
                    }
                    i += 1;
                }
            }
        }
        None
    }

    /// The entries of a topic, by key.
    pub fn list(&self, topic: &str) -> (r: Presences)
        requires
            self.well_formed(),
        ensures
            r.deep_view() == self.deep_view().topic(topic@),
    {
        match self.topics.get(&topic.to_owned()) {
            Some(presences) => presences.duplicate(),
            None => Table::new(),
        }
    }

    /// The entries of a key in a topic, if the key is there.
    pub fn get(&self, topic: &str, key: &str) -> (r: Option<PresenceState>)
        requires
            self.well_formed(),
        ensures
            match r {
                Some(state) => {
                    &&& self.deep_view().topic(topic@).contains_key(key@)
                    &&& state.deep_view() == self.deep_view().metas(topic@, key@)
                },
                None => !self.deep_view().topic(topic@).contains_key(key@),
            },
    {
        match self.topics.get(&topic.to_owned()) {
            Some(presences) => match presences.get(&key.to_owned()) {
                Some(state) => Some(state.duplicate()),
                None => None,
            },
            None => None,
        }
    }

    /// The keys of a topic, each once.
    pub fn keys(&self, topic: &str) -> (r: Vec<String>)
        requires
            self.well_formed(),
        ensures
            r.deep_view().no_duplicates(),
            r.deep_view().to_set() == self.deep_view().topic(topic@).dom(),
    {
        match self.topics.get(&topic.to_owned()) {
            Some(presences) => presences.keys(),
            None => {
                let r: Vec<String> = Vec::new();
                assert(r.deep_view().to_set() =~= Set::empty());
                r
            },
        }
    }

    /// The number of entries of a topic, or the greatest number where there are more.
    pub fn count(&self, topic: &str) -> (r: usize)
        requires
            self.well_formed(),
        ensures
            entry_places(self.deep_view().topic(topic@)).finite(),
            r == (if entry_places(self.deep_view().topic(topic@)).len() <= usize::MAX {
                entry_places(self.deep_view().topic(topic@)).len()
            } else {
                usize::MAX as nat
            }),
    {
        match self.topics.get(&topic.to_owned()) {
            Some(presences) => {
                let ghost rows = presences.rows();
                let n: usize = presences.len();
                let mut total: usize = 0;
                let mut i: usize = 0;
                assert(rows.take(0) =~= Seq::empty());
                while i < n
                    invariant
                        i <= n,
                        n == rows.len(),
                        rows == presences.rows(),
                        total == (if rows_size(rows.take(i as int)) <= usize::MAX {
                            rows_size(rows.take(i as int))
                        } else {
                            usize::MAX as nat
                        }),
                    decreases n - i,
                {
                    proof {
                        lemma_take_push(rows, i as int);
                        assert(rows.take(i + 1).drop_last() =~= rows.take(i as int));
                    }
                    total = total.saturating_add(presences.value_at(i).metas.len());
                    i += 1;
                }
                proof {
                    assert(rows.take(n as int) =~= rows);
                    lemma_rows_size(rows);
                }
                total
            },
            None => {
                assert(entry_places(self.deep_view().topic(topic@)) =~= Set::empty());
                0
            },
        }
    }

    /// Applies a change to a topic: first the leaves, then the joins.
    pub fn apply_delta(&mut self, topic: &str, diff: &PresenceDiff)
        requires
            old(self).well_formed(),
        ensures
            final(self).well_formed(),
            final(self).deep_view() == old(self).deep_view().changed(topic@, diff.deep_view()),
    {
        let ghost before = self.deep_view();
        let topic = topic.to_owned();
        let mut presences = self.take_topic(&topic);
        leave_topic(&mut presences, &diff.leaves);
        join_topic(&mut presences, &diff.joins);
        self.topics.insert(topic, presences);
        assert(self.deep_view().topics =~= before.changed(topic@, diff.deep_view()).topics);
    }

    /// Merges the entries of another tracker into a topic.
    pub fn merge_state(&mut self, topic: &str, remote: &Presences)
        requires
            old(self).well_formed(),
        ensures
            final(self).well_formed(),
            final(self).deep_view() == old(self).deep_view().merged(topic@, remote.deep_view()),
    {
        let ghost before = self.deep_view();
        let topic = topic.to_owned();
        let mut presences = self.take_topic(&topic);
        merge_topic(&mut presences, remote);
        self.topics.insert(topic, presences);
        assert(self.deep_view().topics =~= before.merged(topic@, remote.deep_view()).topics);
    }
}

/// The number of entries in rows of a topic.
pub open spec fn rows_size(rows: Seq<(Seq<char>, Seq<MetaModel>)>) -> nat
    decreases rows.len(),
{
    if rows.len() == 0 {
        0
    } else {
        rows_size(rows.drop_last()) + rows.last().1.len()
    }
}

proof fn lemma_places_of_key(key: Seq<char>, n: nat)
    ensures
        Set::new(|p: (Seq<char>, int)| p.0 == key && 0 <= p.1 < n).finite(),
        Set::new(|p: (Seq<char>, int)| p.0 == key && 0 <= p.1 < n).len() == n,
    decreases n,
{
    let places = Set::new(|p: (Seq<char>, int)| p.0 == key && 0 <= p.1 < n);
    if n == 0 {
        assert(places =~= Set::empty());
    } else {
        let m = (n - 1) as nat;
        let fewer = Set::new(|p: (Seq<char>, int)| p.0 == key && 0 <= p.1 < m);
        lemma_places_of_key(key, m);
        assert(places =~= fewer.insert((key, m as int)));
    }
}

/// A topic has as many entries as its rows.
proof fn lemma_rows_size(rows: Seq<(Seq<char>, Seq<MetaModel>)>)
    requires
        distinct_keys(rows),
    ensures
        entry_places(rows_map(rows)).finite(),
        entry_places(rows_map(rows)).len() == rows_size(rows),
    decreases rows.len(),
{
    let places = entry_places(rows_map(rows));
    if rows.len() == 0 {
        assert(places =~= Set::empty());
    } else {
        let less = rows.drop_last();
        let (key, metas) = rows.last();
        lemma_rows_size(less);
        lemma_rows_take(rows, rows.len() - 1);
        assert(rows.take(rows.len() - 1) =~= less);
        assert(rows.take(rows.len() as int) =~= rows);
        let own = Set::new(|p: (Seq<char>, int)| p.0 == key && 0 <= p.1 < metas.len());
        lemma_places_of_key(key, metas.len());
        assert(places =~= entry_places(rows_map(less)).union(own));
        vstd::set_lib::lemma_set_disjoint_lens(entry_places(rows_map(less)), own);
    }
}

} // verus!
