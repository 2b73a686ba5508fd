//! What becomes of presence entries, one by one.
use crate::atom::Atom;
use crate::base::node::LocalNode;
use crate::base::pid::Pid;
use crate::presence::server::{
    broadcasts_of, delta_broadcast, fresh_meta, leave_broadcasts, makes_entry, not_found_text,
    other_server, reply_to, store_after, store_told, BroadcastModel, DeltaBroadcast, PresenceCall,
    PresenceReply, ReplyModel,
};
use crate::presence::store::{
    entries_of, entry_places, first_owned, has_ref, joined, left_topic, merged, not_among,
    not_owned_by, not_ref, owned_by, owns_one, replaced, replacement, untracked_leaves,
    untracked_leaves_by_topic, without_replaced, StoreModel,
};
use crate::presence::tracker::{
    delta_action, group_of, join_diff, leave_action, leave_actions, leave_diff, on_other_node,
    state_action, ActionModel, PresenceAction, TrackerModel,
};
use crate::presence::types::{
    DiffModel, MessageModel, MetaModel, Moment, PresenceMessage, PresenceMeta, TopicModel,
};
use crate::text::numeral;
use vstd::prelude::*;

verus! {

/// The entries that a store holds under a key of a topic.
pub open spec fn found(s: StoreModel, topic: Seq<char>, key: Seq<char>) -> Seq<MetaModel> {
    if s.topics.contains_key(topic) && s.topics[topic].contains_key(key) {
        s.topics[topic][key]
    } else {
        Seq::empty()
    }
}

/// The entries listed under a key.
pub open spec fn listed(topic: TopicModel, key: Seq<char>) -> Seq<MetaModel> {
    if topic.contains_key(key) {
        topic[key]
    } else {
        Seq::empty()
    }
}

/// What is looked up is what the store holds.
pub proof fn lookups_find_entries(s: StoreModel, topic: Seq<char>, key: Seq<char>, pid: Pid)
    ensures
        s.metas(topic, key) == found(s, topic, key),
        s.topics.contains_key(topic) ==> s.topic(topic) == s.topics[topic],
        !s.topics.contains_key(topic) ==> s.topic(topic) == Map::<
            Seq<char>,
            Seq<MetaModel>,
        >::empty(),
        s.pids.contains_key(pid) ==> s.pairs(pid) == s.pids[pid],
        !s.pids.contains_key(pid) ==> s.pairs(pid) == Set::<(Seq<char>, Seq<char>)>::empty(),
{
}

/// To merge keeps the entries that were there, in front and as they were, and
/// adds whole entries of the other side, each with a reference that was not there
/// before. Of the other side's entries with a new reference the first comes.
pub proof fn merge_brings_whole_entries(local: Seq<MetaModel>, remote: Seq<MetaModel>)
    ensures
        ({
            let after = merged(local, remote);
            &&& local.len() <= after.len()
            &&& forall|a: int| 0 <= a < local.len() ==> after[a] == #[trigger] local[a]
            &&& forall|a: int|
                local.len() <= a < after.len() ==> {
                    &&& remote.contains(#[trigger] after[a])
                    &&& forall|b: int| 0 <= b < a ==> (#[trigger] after[b]).phx_ref
                        != after[a].phx_ref
                }
            &&& forall|i: int|
                0 <= i < remote.len() ==> exists|a: int|
                    0 <= a < after.len() && (#[trigger] after[a]).phx_ref == (
                    #[trigger] remote[i]).phx_ref
            &&& forall|i: int|
                0 <= i < remote.len() && (forall|a: int|
                    0 <= a < local.len() ==> (#[trigger] local[a]).phx_ref != remote[i].phx_ref)
                    && (forall|j: int|
                    0 <= j < i ==> (#[trigger] remote[j]).phx_ref != remote[i].phx_ref)
                    ==> after.contains(#[trigger] remote[i])
        }),
    decreases remote.len(),
{
    if remote.len() > 0 {
        let rest = remote.drop_last();
        let m = remote.last();
        let before = merged(local, rest);
        let after = merged(local, remote);
        merge_brings_whole_entries(local, rest);
        assert forall|a: int| local.len() <= a < after.len() implies {
            &&& remote.contains(#[trigger] after[a])
            &&& forall|b: int| 0 <= b < a ==> (#[trigger] after[b]).phx_ref != after[a].phx_ref
        } by {
            if a < before.len() {
                assert(before[a] == after[a]);
                let j = choose|j: int| 0 <= j < rest.len() && rest[j] == before[a];
                assert(remote[j] == after[a]);
                assert forall|b: int| 0 <= b < a implies (#[trigger] after[b]).phx_ref
                    != after[a].phx_ref by {
                    assert(before[b] == after[b]);
                }
            } else {
                assert(remote[remote.len() - 1] == after[a]);
                assert forall|b: int| 0 <= b < a implies (#[trigger] after[b]).phx_ref
                    != after[a].phx_ref by {
                    assert(before[b] == after[b]);
                }
            }
        }
        assert forall|i: int| 0 <= i < remote.len() implies exists|a: int|
            0 <= a < after.len() && (#[trigger] after[a]).phx_ref == (#[trigger] remote[i]).phx_ref by {
            if i < rest.len() {
                assert(rest[i] == remote[i]);
                let a = choose|a: int|
                    0 <= a < before.len() && (#[trigger] before[a]).phx_ref == rest[i].phx_ref;
                assert(after[a] == before[a]);
            } else if has_ref(before, m.phx_ref) {
                let a = choose|a: int|
                    0 <= a < before.len() && (#[trigger] before[a]).phx_ref == m.phx_ref;
                assert(after[a] == before[a]);
            } else {
                assert(after[before.len() as int] == m);
            }
        }
        assert forall|i: int|
            0 <= i < remote.len() && (forall|a: int|
                0 <= a < local.len() ==> (#[trigger] local[a]).phx_ref != remote[i].phx_ref) && (
            forall|j: int|
                0 <= j < i ==> (#[trigger] remote[j]).phx_ref != remote[i].phx_ref) implies after.contains(
            #[trigger] remote[i],
        ) by {
            if i < rest.len() {
                assert(rest[i] == remote[i]);
                assert forall|j: int| 0 <= j < i implies (#[trigger] rest[j]).phx_ref
                    != rest[i].phx_ref by {
                    assert(rest[j] == remote[j]);
                }
                assert(before.contains(rest[i]));
                let a = choose|a: int| 0 <= a < before.len() && before[a] == rest[i];
                assert(after[a] == remote[i]);
            } else {
                if has_ref(before, m.phx_ref) {
                    let a = choose|a: int|
                        0 <= a < before.len() && (#[trigger] before[a]).phx_ref == m.phx_ref;
                    if a < local.len() {
                        assert(local[a].phx_ref == m.phx_ref);
                    } else {
                        let j = choose|j: int| 0 <= j < rest.len() && rest[j] == before[a];
                        assert(remote[j].phx_ref == m.phx_ref);
                    }
                }
                assert(after[before.len() as int] == m);
            }
        }
    }
}

/// A full-state sync keeps the entries that were there, in front and as they
/// were, and adds whole entries of the other side: with the same reference,
/// previous reference, process, metadata and time. Each of the other side's
/// entries whose reference was not there comes, the first one where several have
/// it; no reference comes twice; and nothing else comes. Other keys and topics
/// stay as they are.
pub proof fn sync_brings_whole_entries(
    s: StoreModel,
    topic: Seq<char>,
    remote: TopicModel,
    key: Seq<char>,
    other: Seq<char>,
)
    ensures
        ({
            let before = found(s, topic, key);
            let after = found(s.merged(topic, remote), topic, key);
            let theirs = listed(remote, key);
            &&& before.len() <= after.len()
            &&& forall|a: int| 0 <= a < before.len() ==> after[a] == #[trigger] before[a]
            &&& forall|a: int|
                before.len() <= a < after.len() ==> {
                    &&& theirs.contains(#[trigger] after[a])
                    &&& forall|b: int| 0 <= b < a ==> (#[trigger] after[b]).phx_ref
                        != after[a].phx_ref
                }
            &&& forall|i: int|
                0 <= i < theirs.len() && (forall|a: int|
                    0 <= a < before.len() ==> (#[trigger] before[a]).phx_ref != theirs[i].phx_ref)
                    && (forall|j: int|
                    0 <= j < i ==> (#[trigger] theirs[j]).phx_ref != theirs[i].phx_ref)
                    ==> after.contains(#[trigger] theirs[i])
            &&& other != topic ==> found(s.merged(topic, remote), other, key) == found(
                s,
                other,
                key,
            )
            &&& s.merged(topic, remote).pids == s.pids
        }),
{
    let before = found(s, topic, key);
    let theirs = listed(remote, key);
    lemma_found_merged(s, topic, remote, key, other);
    merge_brings_whole_entries(before, theirs);
}

proof fn lemma_found_merged(
    s: StoreModel,
    topic: Seq<char>,
    remote: TopicModel,
    key: Seq<char>,
    other: Seq<char>,
)
    ensures
        found(s.merged(topic, remote), topic, key) == merged(
            found(s, topic, key),
            listed(remote, key),
        ),
        other != topic ==> found(s.merged(topic, remote), other, key) == found(s, other, key),
{
}

/// To track adds the entry at the end of those of its key, and notes the pair of
/// topic and key for its process. Nothing else changes.
pub proof fn track_adds_the_entry(
    s: StoreModel,
    topic: Seq<char>,
    key: Seq<char>,
    m: MetaModel,
    t: Seq<char>,
    k: Seq<char>,
    pid: Pid,
)
    ensures
        ({
            let after = s.with_entry(topic, key, m);
            &&& found(after, topic, key) == found(s, topic, key).push(m)
            &&& t != topic || k != key ==> found(after, t, k) == found(s, t, k)
            &&& after.pids.contains_key(m.pid) && after.pids[m.pid].contains((topic, key))
            &&& s.pids.contains_key(pid) ==> after.pids.contains_key(pid) && s.pids[pid].subset_of(
                after.pids[pid],
            )
            &&& after.pids.contains_key(pid) && after.pids[pid].contains((t, k)) ==> (pid == m.pid
                && t == topic && k == key) || (s.pids.contains_key(pid) && s.pids[pid].contains(
                (t, k),
            ))
        }),
{
}

proof fn lemma_filter_same(s: Seq<MetaModel>, p: spec_fn(MetaModel) -> bool, q: spec_fn(MetaModel) -> bool)
    requires
        forall|m: MetaModel| #[trigger] p(m) == q(m),
    ensures
        s.filter(p) == s.filter(q),
    decreases s.len(),
{
    reveal(Seq::filter);
    if s.len() > 0 {
        lemma_filter_same(s.drop_last(), p, q);
        assert(p(s.last()) == q(s.last()));
    }
}

/// To untrack takes the entries of the process under the key, and those alone.
/// What is said to have gone is just these. A key without entries goes.
pub proof fn untrack_takes_own_entries(
    s: StoreModel,
    topic: Seq<char>,
    key: Seq<char>,
    pid: Pid,
    t: Seq<char>,
    k: Seq<char>,
)
    ensures
        ({
            let after = s.untracked(topic, key, pid);
            &&& found(after, topic, key) == found(s, topic, key).filter(
                |m: MetaModel| m.pid != pid,
            )
            &&& s.metas(topic, key).filter(owned_by(pid)) == found(s, topic, key).filter(
                |m: MetaModel| m.pid == pid,
            )
            &&& t != topic || k != key ==> found(after, t, k) == found(s, t, k)
            &&& after.topics.contains_key(topic) && after.topics[topic].contains_key(key)
                ==> after.topics[topic][key].len() > 0
        }),
{
    lemma_filter_same(
        found(s, topic, key),
        not_owned_by(pid),
        |m: MetaModel| m.pid != pid,
    );
    lemma_filter_same(found(s, topic, key), owned_by(pid), |m: MetaModel| m.pid == pid);
    reveal(Seq::filter);
    if s.topics.contains_key(topic) {
        assert(crate::presence::store::keys_in(set![(topic, key)], topic) =~= set![key]);
    }
    if s.topics.contains_key(t) && t != topic {
        assert(crate::presence::store::keys_in(set![(topic, key)], t) =~= Set::empty());
    }
}

/// To end all tracking of a process takes its entries at every pair that it was
/// tracked under, and those alone, and notes that it is tracked nowhere. What is
/// said to have gone is just these.
pub proof fn untrack_all_takes_own_entries(
    s: StoreModel,
    pid: Pid,
    t: Seq<char>,
    k: Seq<char>,
    other: Pid,
)
    ensures
        ({
            let after = s.untracked_all(pid);
            let tracked_at = s.pids.contains_key(pid) && s.pids[pid].contains((t, k));
            let gone = untracked_leaves_by_topic(s.topics, s.pairs(pid), pid);
            let own = found(s, t, k).filter(|m: MetaModel| m.pid == pid);
            &&& tracked_at ==> found(after, t, k) == found(s, t, k).filter(
                |m: MetaModel| m.pid != pid,
            )
            &&& !tracked_at ==> found(after, t, k) == found(s, t, k)
            &&& !after.pids.contains_key(pid)
            &&& other != pid ==> after.pids.contains_key(other) == s.pids.contains_key(other)
            &&& other != pid && s.pids.contains_key(other) ==> after.pids[other] == s.pids[other]
            &&& gone.contains_key(t) && gone[t].contains_key(k) <==> tracked_at && own.len() > 0
            &&& gone.contains_key(t) && gone[t].contains_key(k) ==> gone[t][k] == own
        }),
{
    let own = found(s, t, k).filter(|m: MetaModel| m.pid == pid);
    lemma_filter_same(found(s, t, k), not_owned_by(pid), |m: MetaModel| m.pid != pid);
    lemma_filter_same(found(s, t, k), owned_by(pid), |m: MetaModel| m.pid == pid);
    reveal(Seq::filter);
    let keys = crate::presence::store::keys_in(s.pairs(pid), t);
    if s.topics.contains_key(t) {
        let leaves = untracked_leaves(s.topics[t], keys, pid);
        if s.topics[t].contains_key(k) && keys.contains(k) && own.len() > 0 {
            assert(leaves.contains_key(k));
        }
    }
}

/// To update replaces the first entry of the process under the key, in its place,
/// by the new one, which names the reference that it replaces. Nothing else
/// changes; and nothing at all where the process has no entry there.
pub proof fn update_replaces_the_first(
    s: StoreModel,
    topic: Seq<char>,
    key: Seq<char>,
    m: MetaModel,
    i: int,
    t: Seq<char>,
    k: Seq<char>,
)
    requires
        0 <= i <= found(s, topic, key).len(),
        forall|j: int| 0 <= j < i ==> (#[trigger] found(s, topic, key)[j]).pid != m.pid,
        i < found(s, topic, key).len() ==> found(s, topic, key)[i].pid == m.pid,
    ensures
        ({
            let before = found(s, topic, key);
            let after = s.updated(topic, key, m);
            let new = MetaModel {
                phx_ref: m.phx_ref,
                phx_ref_prev: Some(before[i].phx_ref),
                pid: m.pid,
                meta: m.meta,
                updated_at: m.updated_at,
            };
            &&& i < before.len() ==> {
                &&& owns_one(s.metas(topic, key), m.pid)
                &&& replacement(s.metas(topic, key), m) == new
                &&& found(after, topic, key) == before.update(i, new)
            }
            &&& i == before.len() ==> after == s && !owns_one(s.metas(topic, key), m.pid)
            &&& t != topic || k != key ==> found(after, t, k) == found(s, t, k)
            &&& after.pids == s.pids
        }),
{
    let before = found(s, topic, key);
    assert(s.metas(topic, key) == before);
    if i < before.len() {
        assert(first_owned(before, m.pid, i));
        let j = choose|j: int| first_owned(before, m.pid, j);
        assert(first_owned(before, m.pid, j));
        assert(i == j);
    } else if owns_one(before, m.pid) {
        let j = choose|j: int| first_owned(before, m.pid, j);
        assert(before[j].pid == m.pid);
    }
}

proof fn lemma_in_filter(s: Seq<MetaModel>, p: spec_fn(MetaModel) -> bool, m: MetaModel)
    ensures
        s.filter(p).contains(m) <==> s.contains(m) && p(m),
{
    let f = s.filter(p);
    if f.contains(m) {
        let i = choose|i: int| 0 <= i < f.len() && f[i] == m;
        s.lemma_filter_pred(p, i);
        s.lemma_filter_contains_rev(p, m);
    }
    if s.contains(m) && p(m) {
        let i = choose|i: int| 0 <= i < s.len() && s[i] == m;
        s.lemma_filter_contains(p, i);
    }
}

/// Whether one of the entries has the reference.
pub open spec fn some_has(metas: Seq<MetaModel>, phx_ref: Seq<char>) -> bool {
    exists|a: int| 0 <= a < metas.len() && (#[trigger] metas[a]).phx_ref == phx_ref
}

/// To join brings and keeps whole entries. What is there afterwards was there or
/// joins; what was there and is not replaced stays; and what joins with a new
/// reference comes, unless it is replaced later on.
pub proof fn join_brings_whole_entries(local: Seq<MetaModel>, joins: Seq<MetaModel>, m: MetaModel)
    ensures
        ({
            let after = joined(local, joins);
            &&& after.contains(m) ==> local.contains(m) || joins.contains(m)
            &&& local.contains(m) && (forall|j: int|
                0 <= j < joins.len() ==> (#[trigger] joins[j]).phx_ref_prev != Some(m.phx_ref))
                ==> after.contains(m)
            &&& forall|i: int|
                0 <= i < joins.len() && !some_has(local, joins[i].phx_ref) && (forall|j: int|
                    0 <= j < i ==> (#[trigger] joins[j]).phx_ref != joins[i].phx_ref) && (forall|
                    j: int,
                |
                    i < j < joins.len() ==> (#[trigger] joins[j]).phx_ref_prev != Some(
                        joins[i].phx_ref,
                    )) ==> after.contains(#[trigger] joins[i])
        }),
    decreases joins.len(),
{
    if joins.len() > 0 {
        let rest = joins.drop_last();
        let last = joins.last();
        let before = joined(local, rest);
        let base = without_replaced(before, last);
        let after = joined(local, joins);
        join_brings_whole_entries(local, rest, m);
        assert forall|x: MetaModel| #[trigger] base.contains(x) <==> before.contains(x)
            && last.phx_ref_prev != Some(x.phx_ref) by {
            if let Some(prev) = last.phx_ref_prev {
                lemma_in_filter(before, not_ref(prev), x);
            }
        }
        assert forall|x: MetaModel| #[trigger] after.contains(x) <==> base.contains(x) || (x == last
            && !has_ref(base, last.phx_ref)) by {
            if !has_ref(base, last.phx_ref) {
                if base.contains(x) {
                    let a = choose|a: int| 0 <= a < base.len() && base[a] == x;
                    assert(after[a] == x);
                }
                assert(after[base.len() as int] == last);
                if after.contains(x) && x != last {
                    let a = choose|a: int| 0 <= a < after.len() && after[a] == x;
                    assert(base[a] == x);
                }
            }
        }
        if rest.contains(m) {
            let j = choose|j: int| 0 <= j < rest.len() && rest[j] == m;
            assert(joins[j] == m);
        }
        assert(joins[joins.len() - 1] == last);
        if local.contains(m) && (forall|j: int|
            0 <= j < joins.len() ==> (#[trigger] joins[j]).phx_ref_prev != Some(m.phx_ref)) {
            assert forall|j: int| 0 <= j < rest.len() implies (#[trigger] rest[j]).phx_ref_prev
                != Some(m.phx_ref) by {
                assert(rest[j] == joins[j]);
            }
            assert(base.contains(m));
            assert(after.contains(m));
        }
        assert forall|i: int|
            0 <= i < joins.len() && !some_has(local, joins[i].phx_ref) && (forall|j: int|
                0 <= j < i ==> (#[trigger] joins[j]).phx_ref != joins[i].phx_ref) && (forall|
                j: int,
            |
                i < j < joins.len() ==> (#[trigger] joins[j]).phx_ref_prev != Some(
                    joins[i].phx_ref,
                )) implies after.contains(#[trigger] joins[i]) by {
            if i < rest.len() {
                assert(rest[i] == joins[i]);
                assert forall|j: int| 0 <= j < i implies (#[trigger] rest[j]).phx_ref
                    != rest[i].phx_ref by {
                    assert(rest[j] == joins[j]);
                }
                assert forall|j: int| i < j < rest.len() implies (#[trigger] rest[j]).phx_ref_prev
                    != Some(rest[i].phx_ref) by {
                    assert(rest[j] == joins[j]);
                }
                assert(before.contains(rest[i]));
                assert(base.contains(rest[i]));
            } else {
                if has_ref(base, last.phx_ref) {
                    let a = choose|a: int|
                        0 <= a < base.len() && (#[trigger] base[a]).phx_ref == last.phx_ref;
                    let x = base[a];
                    assert(base.contains(x));
                    join_brings_whole_entries(local, rest, x);
                    if local.contains(x) {
                        let b = choose|b: int| 0 <= b < local.len() && local[b] == x;
                        assert(local[b].phx_ref == last.phx_ref);
                    } else {
                        let b = choose|b: int| 0 <= b < rest.len() && rest[b] == x;
                        assert(joins[b].phx_ref == last.phx_ref);
                    }
                }
                assert(after.contains(last));
            }
        }
    }
}

/// A change brings and keeps whole entries: with the same reference, previous
/// reference, process, metadata and time. What is there afterwards was there and
/// does not leave, or joins. What was there, does not leave and is not replaced
/// stays. What joins is there, where its reference was not, no entry before it
/// joins with that reference, and none behind it replaces it. Other topics stay
/// as they are.
pub proof fn change_brings_whole_entries(
    s: StoreModel,
    topic: Seq<char>,
    diff: DiffModel,
    key: Seq<char>,
    m: MetaModel,
    other: Seq<char>,
)
    ensures
        ({
            let before = found(s, topic, key);
            let after = found(s.changed(topic, diff), topic, key);
            let joins = listed(diff.joins, key);
            let leaves = listed(diff.leaves, key);
            &&& after.contains(m) ==> (before.contains(m) && !some_has(leaves, m.phx_ref))
                || joins.contains(m)
            &&& before.contains(m) && !some_has(leaves, m.phx_ref) && (forall|j: int|
                0 <= j < joins.len() ==> (#[trigger] joins[j]).phx_ref_prev != Some(m.phx_ref))
                ==> after.contains(m)
            &&& forall|i: int|
                0 <= i < joins.len() && (!some_has(before, joins[i].phx_ref) || some_has(
                    leaves,
                    joins[i].phx_ref,
                )) && (forall|j: int|
                    0 <= j < i ==> (#[trigger] joins[j]).phx_ref != joins[i].phx_ref) && (forall|
                    j: int,
                |
                    i < j < joins.len() ==> (#[trigger] joins[j]).phx_ref_prev != Some(
                        joins[i].phx_ref,
                    )) ==> after.contains(#[trigger] joins[i])
            &&& other != topic ==> found(s.changed(topic, diff), other, key) == found(s, other, key)
            &&& s.changed(topic, diff).pids == s.pids
        }),
{
    let before = found(s, topic, key);
    let joins = listed(diff.joins, key);
    let leaves = listed(diff.leaves, key);
    let left = entries_of(left_topic(s.topic(topic), diff.leaves), key);
    lemma_found_changed(s, topic, diff, key, other);
    assert forall|r: Seq<char>| some_has(left, r) implies #[trigger] some_has(before, r)
        && !some_has(leaves, r) by {
        let a = choose|a: int| 0 <= a < left.len() && (#[trigger] left[a]).phx_ref == r;
        assert(left.contains(left[a]));
        let b = choose|b: int| 0 <= b < before.len() && before[b] == left[a];
        assert(before[b].phx_ref == r);
    }
    join_brings_whole_entries(left, joins, m);
}

proof fn lemma_found_changed(
    s: StoreModel,
    topic: Seq<char>,
    diff: DiffModel,
    key: Seq<char>,
    other: Seq<char>,
)
    ensures
        ({
            let left = entries_of(left_topic(s.topic(topic), diff.leaves), key);
            let leaves = listed(diff.leaves, key);
            &&& forall|x: MetaModel| #[trigger]
                left.contains(x) <==> found(s, topic, key).contains(x) && !some_has(
                    leaves,
                    x.phx_ref,
                )
            &&& found(s.changed(topic, diff), topic, key) == joined(
                left,
                listed(diff.joins, key),
            )
            &&& other != topic ==> found(s.changed(topic, diff), other, key) == found(s, other, key)
        }),
{
    let before = found(s, topic, key);
    let left = entries_of(left_topic(s.topic(topic), diff.leaves), key);
    let leaves = listed(diff.leaves, key);
    assert(left == before.filter(not_among(leaves))) by {
        if !s.topic(topic).contains_key(key) {
            reveal(Seq::filter);
        } else if !diff.leaves.contains_key(key) {
            lemma_filter_all(before, not_among(leaves));
        }
    }
    assert forall|x: MetaModel| #[trigger] left.contains(x) <==> before.contains(x) && !some_has(
        leaves,
        x.phx_ref,
    ) by {
        lemma_in_filter(before, not_among(leaves), x);
    }
}

proof fn lemma_filter_all(s: Seq<MetaModel>, p: spec_fn(MetaModel) -> bool)
    requires
        forall|m: MetaModel| #[trigger] p(m),
    ensures
        s.filter(p) == s,
    decreases s.len(),
{
    reveal(Seq::filter);
    if s.len() > 0 {
        lemma_filter_all(s.drop_last(), p);
        assert(p(s.last()));
    }
}

/// What a message of another node comes to: the entries of a topic are synced, a
/// change is applied, a sign of life is noted with its time and moves the clock
/// on, and a request changes nothing.
pub proof fn messages_are_taken_in(tracker: TrackerModel, msg: MessageModel, now: u64)
    ensures
        ({
            let after = tracker.after_message(msg, now);
            &&& store_told(tracker.store, msg) == after.store
            &&& match msg {
                MessageModel::SyncRequest { topic } => after == tracker,
                MessageModel::SyncResponse { topic, state } => {
                    &&& after.store == tracker.store.merged(topic, state)
                    &&& after.clock == tracker.clock
                    &&& after.heartbeats == tracker.heartbeats
                },
                MessageModel::Delta { topic, diff } => {
                    &&& after.store == tracker.store.changed(topic, diff)
                    &&& after.clock == tracker.clock
                    &&& after.heartbeats == tracker.heartbeats
                },
                MessageModel::Heartbeat { node, clock } => {
                    &&& after.store == tracker.store
                    &&& after.clock == (if clock > tracker.clock {
                        clock
                    } else {
                        tracker.clock
                    })
                    &&& after.heartbeats.contains_key(node) && after.heartbeats[node] == now
                    &&& forall|other: Seq<char>|
                        other != node ==> #[trigger] after.heartbeats.contains_key(other)
                            == tracker.heartbeats.contains_key(other)
                    &&& forall|other: Seq<char>|
                        other != node && tracker.heartbeats.contains_key(other)
                            ==> #[trigger] after.heartbeats[other] == tracker.heartbeats[other]
                },
            }
        }),
{
}

/// What a tracker sends back: to a request the entries of the topic, to the node
/// that asked; after a change with joins the entries of the topic, if there are
/// any, to the group of the topic; and nothing otherwise.
pub proof fn messages_are_answered(tracker: TrackerModel, msg: MessageModel, from_node: Atom)
    ensures
        ({
            let sent = tracker.answer(msg, from_node);
            match msg {
                MessageModel::SyncRequest { topic } => {
                    &&& sent.len() == 1
                    &&& sent[0] matches ActionModel::Respond { node, message }
                    &&& node == from_node
                    &&& message matches MessageModel::SyncResponse { topic: t, state }
                    &&& t == topic
                    &&& tracker.store.topics.contains_key(topic) ==> state
                        == tracker.store.topics[topic]
                    &&& !tracker.store.topics.contains_key(topic) ==> state.dom() == Set::<
                        Seq<char>,
                    >::empty()
                },
                MessageModel::Delta { topic, diff } => if (exists|k: Seq<char>|
                    #[trigger] diff.joins.contains_key(k)) && tracker.store.topics.contains_key(topic)
                    && (exists|k: Seq<char>| #[trigger]
                    tracker.store.topics[topic].contains_key(k)) {
                    &&& sent.len() == 1
                    &&& sent[0] matches ActionModel::Broadcast { group, message }
                    &&& group == "presence:"@ + topic
                    &&& message matches MessageModel::SyncResponse { topic: t, state }
                    &&& t == topic
                    &&& state == tracker.store.topics[topic]
                } else {
                    sent.len() == 0
                },
                _ => sent.len() == 0,
            }
        }),
{
    if let MessageModel::Delta { topic, diff } = msg {
        let none = Map::<Seq<char>, Seq<MetaModel>>::empty();
        if !(exists|k: Seq<char>| #[trigger] diff.joins.contains_key(k)) {
            assert(diff.joins =~= none);
        }
        if exists|k: Seq<char>| #[trigger] diff.joins.contains_key(k) {
            let k = choose|k: Seq<char>| #[trigger] diff.joins.contains_key(k);
            assert(!none.contains_key(k));
        }
        if tracker.store.topics.contains_key(topic) {
            let held = tracker.store.topics[topic];
            if exists|k: Seq<char>| #[trigger] held.contains_key(k) {
                let k = choose|k: Seq<char>| #[trigger] held.contains_key(k);
                assert(!none.contains_key(k));
            } else {
                assert(held =~= none);
            }
        }
    }
}

/// What other nodes hear of a new or replaced entry, and of entries that went:
/// the topic's group gets a change with just these under just this key.
pub proof fn changes_are_told_whole(
    topic: Seq<char>,
    key: Seq<char>,
    metas: Seq<MetaModel>,
    diff: DiffModel,
    k: Seq<char>,
)
    ensures
        delta_action(topic, diff) == (ActionModel::Broadcast {
            group: "presence:"@ + topic,
            message: MessageModel::Delta { topic, diff },
        }),
        join_diff(key, metas).joins.contains_key(k) <==> k == key,
        join_diff(key, metas).joins[key] == metas,
        !join_diff(key, metas).leaves.contains_key(k),
        leave_diff(key, metas).leaves.contains_key(k) <==> k == key,
        leave_diff(key, metas).leaves[key] == metas,
        !leave_diff(key, metas).joins.contains_key(k),
{
}

/// When all tracking of a process ends, each topic's group hears of the entries
/// that went in that topic, and no other group hears anything.
pub proof fn departures_are_told_by_topic(gone: Map<Seq<char>, TopicModel>, a: ActionModel)
    ensures
        leave_actions(gone).contains(a) <==> {
            &&& a matches ActionModel::Broadcast { group, message }
            &&& message matches MessageModel::Delta { topic, diff }
            &&& gone.contains_key(topic)
            &&& group == "presence:"@ + topic
            &&& diff.leaves == gone[topic]
            &&& diff.joins == Map::<Seq<char>, Seq<MetaModel>>::empty()
        },
{
    if let ActionModel::Broadcast { group, message } = a {
        if let MessageModel::Delta { topic, diff } = message {
            if gone.contains_key(topic) {
                assert(leave_action(topic, gone[topic]) == delta_action(
                    topic,
                    DiffModel { joins: Map::empty(), leaves: gone[topic] },
                ));
            }
        }
    }
}

/// A presence server does what it is asked. `m` is the entry that a call to track
/// or update makes: it has the process and the metadata of the call, and the time
/// of the moment. The reply names its reference.
pub proof fn calls_do_what_they_ask(
    store: StoreModel,
    request: PresenceCall,
    node: &LocalNode,
    now: Moment,
    count: u64,
)
    ensures
        ({
            let after = store_after(store, request, node, now, count);
            let reply = reply_to(store, request, node, now, count);
            match request {
                PresenceCall::Track { topic, key, pid, meta } => {
                    let m = found(after, topic@, key@).last();
                    &&& makes_entry(store, request)
                    &&& after == store.with_entry(topic@, key@, m)
                    &&& m.pid == pid && m.meta == meta.deep_view() && m.updated_at == now.secs
                    &&& m.phx_ref == fresh_meta(node, now, count, pid, meta.deep_view()).phx_ref
                    &&& m.phx_ref_prev is None
                    &&& reply == ReplyModel::Done(Some(m.phx_ref))
                },
                PresenceCall::Untrack { topic, key, pid } => {
                    &&& !makes_entry(store, request)
                    &&& after == store.untracked(topic@, key@, pid)
                    &&& reply == ReplyModel::Done(None)
                },
                PresenceCall::UntrackAll { pid } => {
                    &&& !makes_entry(store, request)
                    &&& after == store.untracked_all(pid)
                    &&& reply == ReplyModel::Done(None)
                },
                PresenceCall::Update { topic, key, pid, meta } => if exists|i: int|
                    0 <= i < found(store, topic@, key@).len() && (#[trigger] found(
                        store,
                        topic@,
                        key@,
                    )[i]).pid == pid {
                    &&& makes_entry(store, request)
                    &&& reply matches ReplyModel::Done(Some(phx_ref))
                    &&& phx_ref == fresh_meta(node, now, count, pid, meta.deep_view()).phx_ref
                    &&& exists|m: MetaModel|
                        {
                            &&& m.phx_ref == phx_ref && m.pid == pid
                            &&& m.meta == meta.deep_view() && m.updated_at == now.secs
                            &&& after == #[trigger] store.updated(topic@, key@, m)
                        }
                } else {
                    &&& !makes_entry(store, request)
                    &&& after == store
                    &&& reply == ReplyModel::Done(None)
                },
                PresenceCall::List { topic } => {
                    &&& !makes_entry(store, request)
                    &&& after == store
                    &&& reply matches ReplyModel::List(held)
                    &&& store.topics.contains_key(topic@) ==> held == store.topics[topic@]
                    &&& !store.topics.contains_key(topic@) ==> held.dom() == Set::<
                        Seq<char>,
                    >::empty()
                },
                PresenceCall::Get { topic, key } => {
                    &&& !makes_entry(store, request)
                    &&& after == store
                    &&& reply == ReplyModel::Get(
                        if store.topics.contains_key(topic@) && store.topics[topic@].contains_key(
                            key@,
                        ) {
                            Some(store.topics[topic@][key@])
                        } else {
                            None
                        },
                    )
                },
            }
        }),
{
    match request {
        PresenceCall::Track { topic, key, pid, meta } => {
            let m = fresh_meta(node, now, count, pid, meta.deep_view());
            assert(found(store.with_entry(topic@, key@, m), topic@, key@) == found(
                store,
                topic@,
                key@,
            ).push(m));
        },
        PresenceCall::Update { topic, key, pid, meta } => {
            let metas = found(store, topic@, key@);
            let m = fresh_meta(node, now, count, pid, meta.deep_view());
            assert(store.metas(topic@, key@) == metas);
            assert(m.pid == pid);
            if exists|i: int| 0 <= i < metas.len() && (#[trigger] metas[i]).pid == pid {
                let i = choose|i: int| 0 <= i < metas.len() && (#[trigger] metas[i]).pid == pid;
                lemma_has_first(metas, pid, i);
                assert(store_after(store, request, node, now, count) == store.updated(
                    topic@,
                    key@,
                    m,
                ));
            } else {
                if owns_one(metas, pid) {
                    let j = choose|j: int| first_owned(metas, pid, j);
                    assert(metas[j].pid == pid);
                }
            }
        },
        _ => {},
    }
}

proof fn lemma_has_first(metas: Seq<MetaModel>, pid: Pid, i: int)
    requires
        0 <= i < metas.len(),
        metas[i].pid == pid,
    ensures
        owns_one(metas, pid),
    decreases i,
{
    if exists|j: int| 0 <= j < i && (#[trigger] metas[j]).pid == pid {
        let j = choose|j: int| 0 <= j < i && (#[trigger] metas[j]).pid == pid;
        lemma_has_first(metas, pid, j);
    } else {
        assert(first_owned(metas, pid, i));
    }
}

/// What others hear of a call: the subscribers of the topic and the servers of
/// other nodes get a change with just the entries that came or went, and nothing
/// where none did.
pub proof fn calls_are_told(
    name: Seq<char>,
    pubsub: Seq<char>,
    store: StoreModel,
    request: PresenceCall,
    node: &LocalNode,
    now: Moment,
    count: u64,
    sent: Seq<BroadcastModel>,
)
    requires
        broadcasts_of(name, pubsub, store, request, node, now, count, sent),
    ensures
        forall|i: int|
            0 <= i < sent.len() ==> {
                let b = #[trigger] sent[i];
                &&& b.pubsub == pubsub
                &&& b.pg_group == "presence:"@ + name
                &&& b.message is Delta
                &&& b.presence_topic == "presence:"@ + b.message->Delta_topic
            },
        match request {
            PresenceCall::Track { topic, key, pid, meta } => {
                let m = found(
                    store_after(store, request, node, now, count),
                    topic@,
                    key@,
                ).last();
                &&& sent.len() == 1
                &&& sent[0].message->Delta_topic == topic@
                &&& sent[0].message->diff.joins == Map::<Seq<char>, Seq<MetaModel>>::empty().insert(
                    key@,
                    seq![m],
                )
                &&& sent[0].message->diff.leaves == Map::<Seq<char>, Seq<MetaModel>>::empty()
            },
            PresenceCall::Untrack { topic, key, pid } => {
                let gone = found(store, topic@, key@).filter(|m: MetaModel| m.pid == pid);
                &&& sent.len() == (if gone.len() > 0 {
                    1nat
                } else {
                    0nat
                })
                &&& gone.len() > 0 ==> {
                    &&& sent[0].message->Delta_topic == topic@
                    &&& sent[0].message->diff.leaves == Map::<
                        Seq<char>,
                        Seq<MetaModel>,
                    >::empty().insert(key@, gone)
                    &&& sent[0].message->diff.joins == Map::<Seq<char>, Seq<MetaModel>>::empty()
                }
            },
            PresenceCall::UntrackAll { pid } => {
                let gone = untracked_leaves_by_topic(store.topics, store.pairs(pid), pid);
                &&& sent.no_duplicates()
                &&& forall|i: int|
                    0 <= i < sent.len() ==> {
                        let b = #[trigger] sent[i];
                        &&& gone.contains_key(b.message->Delta_topic)
                        &&& b.message->diff.leaves == gone[b.message->Delta_topic]
                        &&& b.message->diff.joins == Map::<Seq<char>, Seq<MetaModel>>::empty()
                    }
                &&& forall|t: Seq<char>| #[trigger]
                    gone.contains_key(t) ==> exists|i: int|
                        0 <= i < sent.len() && (#[trigger] sent[i]).message->Delta_topic == t
            },
            PresenceCall::Update { topic, key, pid, meta } => {
                let owns = exists|i: int|
                    0 <= i < found(store, topic@, key@).len() && (#[trigger] found(
                        store,
                        topic@,
                        key@,
                    )[i]).pid == pid;
                &&& sent.len() == (if owns {
                    1nat
                } else {
                    0nat
                })
                &&& owns ==> {
                    let joins = sent[0].message->diff.joins;
                    let after = store_after(store, request, node, now, count);
                    &&& sent[0].message->Delta_topic == topic@
                    &&& joins.dom() == set![key@]
                    &&& joins[key@].len() == 1
                    &&& found(after, topic@, key@).contains(joins[key@][0])
                    &&& joins[key@][0].pid == pid && joins[key@][0].meta == meta.deep_view()
                    &&& joins[key@][0].phx_ref_prev is Some
                    &&& joins[key@][0].updated_at == now.secs
                    &&& joins[key@][0].phx_ref == fresh_meta(
                        node,
                        now,
                        count,
                        pid,
                        meta.deep_view(),
                    ).phx_ref
                    &&& sent[0].message->diff.leaves == Map::<Seq<char>, Seq<MetaModel>>::empty()
                }
            },
            _ => sent.len() == 0,
        },
{
    match request {
        PresenceCall::Track { topic, key, pid, meta } => {
            let m = fresh_meta(node, now, count, pid, meta.deep_view());
            assert(found(store.with_entry(topic@, key@, m), topic@, key@) == found(
                store,
                topic@,
                key@,
            ).push(m));
        },
        PresenceCall::Untrack { topic, key, pid } => {
            lemma_filter_same(
                found(store, topic@, key@),
                owned_by(pid),
                |m: MetaModel| m.pid == pid,
            );
            assert(store.metas(topic@, key@) == found(store, topic@, key@));
        },
        PresenceCall::UntrackAll { pid } => {
            let gone = untracked_leaves_by_topic(store.topics, store.pairs(pid), pid);
            let wanted = leave_broadcasts(pubsub, name, gone);
            assert forall|i: int| 0 <= i < sent.len() implies {
                let b = #[trigger] sent[i];
                &&& b.pubsub == pubsub
                &&& b.pg_group == "presence:"@ + name
                &&& b.message is Delta
                &&& b.presence_topic == "presence:"@ + b.message->Delta_topic
                &&& gone.contains_key(b.message->Delta_topic)
                &&& b.message->diff.leaves == gone[b.message->Delta_topic]
                &&& b.message->diff.joins == Map::<Seq<char>, Seq<MetaModel>>::empty()
            } by {
                assert(sent.to_set().contains(sent[i]));
                assert(wanted.contains(sent[i]));
            }
            assert forall|t: Seq<char>| #[trigger] gone.contains_key(t) implies exists|i: int|
                0 <= i < sent.len() && (#[trigger] sent[i]).message->Delta_topic == t by {
                let b = delta_broadcast(
                    pubsub,
                    name,
                    t,
                    DiffModel { joins: Map::empty(), leaves: gone[t] },
                );
                assert(wanted.contains(b));
                assert(sent.to_set().contains(b));
                let i = choose|i: int| 0 <= i < sent.len() && sent[i] == b;
                assert(sent[i].message->Delta_topic == t);
            }
        },
        PresenceCall::Update { topic, key, pid, meta } => {
            let metas = found(store, topic@, key@);
            assert(store.metas(topic@, key@) == metas);
            let m = fresh_meta(node, now, count, pid, meta.deep_view());
            if exists|i: int| 0 <= i < metas.len() && (#[trigger] metas[i]).pid == pid {
                let i = choose|i: int| 0 <= i < metas.len() && (#[trigger] metas[i]).pid == pid;
                lemma_has_first(metas, pid, i);
                let j = choose|j: int| first_owned(metas, pid, j);
                let after = found(store.updated(topic@, key@, m), topic@, key@);
                assert(after == replaced(metas, m));
                assert(after[j] == replacement(metas, m));
                assert(sent[0].message->diff.joins.dom() =~= set![key@]);
            } else if owns_one(metas, pid) {
                let j = choose|j: int| first_owned(metas, pid, j);
                assert(metas[j].pid == pid);
            }
        },
        _ => {},
    }
}

/// What is told to others goes to the processes of other nodes, and a presence
/// server does not tell itself.
pub proof fn others_are_told(my_node: Atom, self_pid: Pid, pid: Pid)
    ensures
        on_other_node(my_node)(pid) <==> pid.spec_node() != my_node,
        other_server(self_pid, my_node)(pid) <==> pid != self_pid && pid.spec_node() != my_node,
{
}

/// Entries that say the same are the same in every part.
pub proof fn entries_are_read_whole(a: PresenceMeta, b: PresenceMeta)
    requires
        a.deep_view() == b.deep_view(),
    ensures
        a.phx_ref.deep_view() == b.phx_ref.deep_view(),
        a.phx_ref_prev is Some == b.phx_ref_prev is Some,
        a.phx_ref_prev is Some ==> a.phx_ref_prev->Some_0.deep_view()
            == b.phx_ref_prev->Some_0.deep_view(),
        a.pid == b.pid,
        a.meta@ == b.meta@,
        a.updated_at == b.updated_at,
{
    assert(a.meta.deep_view() =~= a.meta@);
    assert(b.meta.deep_view() =~= b.meta@);
}

/// Messages that say the same are the same in every part.
pub proof fn messages_are_read_whole(a: PresenceMessage, b: PresenceMessage)
    requires
        a.deep_view() == b.deep_view(),
    ensures
        match (a, b) {
            (
                PresenceMessage::SyncRequest { topic: t },
                PresenceMessage::SyncRequest { topic: u },
            ) => t@ == u@,
            (
                PresenceMessage::SyncResponse { topic: t, state: s },
                PresenceMessage::SyncResponse { topic: u, state: r },
            ) => t@ == u@ && s.deep_view() == r.deep_view(),
            (
                PresenceMessage::Delta { topic: t, diff: d },
                PresenceMessage::Delta { topic: u, diff: e },
            ) => {
                &&& t@ == u@
                &&& d.joins.deep_view() == e.joins.deep_view()
                &&& d.leaves.deep_view() == e.leaves.deep_view()
            },
            (
                PresenceMessage::Heartbeat { node: n, clock: c },
                PresenceMessage::Heartbeat { node: o, clock: d },
            ) => n@ == o@ && c == d,
            _ => false,
        },
{
}

/// To merge, or to join, one part after the other comes to the same as all at once,
/// and each entry comes behind those that are there: a merged one unless its reference
/// is there; a joining one too, once the one that it replaces is gone.
pub proof fn entries_come_in_order(
    local: Seq<MetaModel>,
    a: Seq<MetaModel>,
    b: Seq<MetaModel>,
    m: MetaModel,
)
    ensures
        merged(local, a + b) == merged(merged(local, a), b),
        merged(local, seq![m]) == (if some_has(local, m.phx_ref) {
            local
        } else {
            local.push(m)
        }),
        joined(local, a + b) == joined(joined(local, a), b),
        ({
            let kept = local.filter(|e: MetaModel| m.phx_ref_prev != Some(e.phx_ref));
            joined(local, seq![m]) == (if some_has(kept, m.phx_ref) {
                kept
            } else {
                kept.push(m)
            })
        }),
    decreases b.len(),
{
    let one = seq![m];
    assert(one.drop_last() =~= Seq::<MetaModel>::empty());
    assert(merged(local, one.drop_last()) == local);
    assert(joined(local, one.drop_last()) == local);
    match m.phx_ref_prev {
        Some(prev) => {
            lemma_filter_same(
                local,
                not_ref(prev),
                |e: MetaModel| m.phx_ref_prev != Some(e.phx_ref),
            );
        },
        None => {
            lemma_filter_all(local, |e: MetaModel| m.phx_ref_prev != Some(e.phx_ref));
        },
    }
    if b.len() == 0 {
        assert(a + b =~= a);
    } else {
        entries_come_in_order(local, a, b.drop_last(), m);
        assert((a + b).drop_last() =~= a + b.drop_last());
        assert((a + b).last() == b.last());
    }
}

/// A change takes the entries with a reference that leaves, and then the others join.
pub proof fn change_takes_leaves_first(
    s: StoreModel,
    topic: Seq<char>,
    diff: DiffModel,
    key: Seq<char>,
)
    ensures
        found(s.changed(topic, diff), topic, key) == joined(
            found(s, topic, key).filter(
                |m: MetaModel| !some_has(listed(diff.leaves, key), m.phx_ref),
            ),
            listed(diff.joins, key),
        ),
{
    lemma_found_changed(s, topic, diff, key, topic);
    let before = found(s, topic, key);
    let leaves = listed(diff.leaves, key);
    let left = entries_of(left_topic(s.topic(topic), diff.leaves), key);
    assert(left == before.filter(not_among(leaves))) by {
        if !s.topic(topic).contains_key(key) {
            reveal(Seq::filter);
        } else if !diff.leaves.contains_key(key) {
            lemma_filter_all(before, not_among(leaves));
        }
    }
    lemma_filter_same(
        before,
        not_among(leaves),
        |m: MetaModel| !some_has(leaves, m.phx_ref),
    );
}

/// To untrack notes that the process is no longer tracked under the pair, and leaves
/// what is noted otherwise.
pub proof fn untrack_takes_note(
    s: StoreModel,
    topic: Seq<char>,
    key: Seq<char>,
    pid: Pid,
    p: Pid,
    pair: (Seq<char>, Seq<char>),
)
    ensures
        ({
            let after = s.untracked(topic, key, pid);
            &&& after.pids.contains_key(p) == s.pids.contains_key(p)
            &&& s.pids.contains_key(p) ==> (after.pids[p].contains(pair) <==> s.pids[p].contains(
                pair,
            ) && !(p == pid && pair == (topic, key)))
        }),
{
}

/// What is counted are the entries of a topic, all of them, and the first entry of a
/// process is its first.
pub proof fn entries_are_counted(topic: TopicModel, place: (Seq<char>, int), pid: Pid)
    ensures
        entry_places(topic).contains(place) <==> 0 <= place.1 < listed(topic, place.0).len(),
        first_owned(listed(topic, place.0), pid, place.1) <==> {
            &&& 0 <= place.1 < listed(topic, place.0).len()
            &&& listed(topic, place.0)[place.1].pid == pid
            &&& forall|j: int|
                0 <= j < place.1 ==> (#[trigger] listed(topic, place.0)[j]).pid != pid
        },
{
}

/// The groups of presence have the names of their topics, and all entries of a topic
/// are told to its group. A change is none where nothing comes and nothing goes.
pub proof fn topics_are_told_to_their_groups(
    tracker: TrackerModel,
    topic: Seq<char>,
    state: TopicModel,
    diff: DiffModel,
    from_node: Atom,
    presence: Seq<char>,
)
    ensures
        group_of(topic) == "presence:"@ + topic,
        state_action(topic, state) == (ActionModel::Broadcast {
            group: "presence:"@ + topic,
            message: MessageModel::SyncResponse { topic, state },
        }),
        tracker.answer_to_delta(topic, diff) == tracker.answer(
            MessageModel::Delta { topic, diff },
            from_node,
        ),
        diff.is_empty() <==> diff.joins.dom() == Set::<Seq<char>>::empty() && diff.leaves.dom()
            == Set::<Seq<char>>::empty(),
        not_found_text(presence) == "Presence '"@ + presence + "' not found"@,
{
    let none = Map::<Seq<char>, Seq<MetaModel>>::empty();
    if diff.joins.dom() == Set::<Seq<char>>::empty() {
        assert(diff.joins =~= none);
    }
    if diff.leaves.dom() == Set::<Seq<char>>::empty() {
        assert(diff.leaves =~= none);
    }
    assert(none.dom() =~= Set::<Seq<char>>::empty());
}

/// A reply says what is in it, every part of it.
pub proof fn replies_are_read_whole(reply: PresenceReply, model: ReplyModel)
    ensures
        reply.deep_view() == model <==> match (reply, model) {
            (PresenceReply::Done(Some(r)), ReplyModel::Done(Some(t))) => r.deep_view() == t,
            (PresenceReply::Done(None), ReplyModel::Done(None)) => true,
            (PresenceReply::List(p), ReplyModel::List(t)) => p.deep_view() == t,
            (PresenceReply::Get(Some(s)), ReplyModel::Get(Some(t))) => s.metas.deep_view() == t,
            (PresenceReply::Get(None), ReplyModel::Get(None)) => true,
            _ => false,
        },
{
}

/// A broadcast says what is in it, every part of it.
pub proof fn broadcasts_are_read_whole(sent: DeltaBroadcast, model: BroadcastModel)
    ensures
        sent.deep_view() == model <==> {
            &&& sent.pubsub@ == model.pubsub
            &&& sent.presence_topic@ == model.presence_topic
            &&& sent.pg_group@ == model.pg_group
            &&& sent.message.deep_view() == model.message
        },
{
}

/// An action says what is in it, every part of it.
pub proof fn actions_are_read_whole(action: PresenceAction, model: ActionModel)
    ensures
        action.deep_view() == model <==> match (action, model) {
            (
                PresenceAction::Join { group: g, pid: p },
                ActionModel::Join { group, pid },
            ) => g@ == group && p == pid,
            (
                PresenceAction::Leave { group: g, pid: p },
                ActionModel::Leave { group, pid },
            ) => g@ == group && p == pid,
            (
                PresenceAction::Broadcast { group: g, message: m },
                ActionModel::Broadcast { group, message },
            ) => g@ == group && m.deep_view() == message,
            (
                PresenceAction::Respond { node: n, message: m },
                ActionModel::Respond { node, message },
            ) => n == node && m.deep_view() == message,
            _ => false,
        },
{
}

/// A new entry has the reference that names the node, the time and the running
/// number.
pub proof fn new_entry_has_new_reference(
    node: &LocalNode,
    now: Moment,
    count: u64,
    pid: Pid,
    meta: Seq<u8>,
)
    ensures
        ({
            let m = fresh_meta(node, now, count, pid, meta);
            &&& m.phx_ref == node.atoms.string(node.name_atom()) + ":"@ + numeral(
                now.micros as nat,
                10,
            ) + ":"@ + numeral(count as nat, 10)
            &&& m.phx_ref_prev is None
            &&& m.pid == pid
            &&& m.meta == meta
            &&& m.updated_at == now.secs
        }),
{
}

} // verus!
