//! What holds of presence entries across operations and nodes.
use crate::base::pid::Pid;
use crate::presence::store::{
    changed_topic, entries_of, entry_places, first_owned, has_ref, joined, joined_topic, left_topic,
    merged, merged_topic, not_among, not_owned_by, not_ref, owned_by, owns_one, replacement,
    with_meta, without_replaced, StoreModel,
};
use crate::presence::tracker::{join_diff, leave_diff, TrackerModel};
use crate::presence::types::{DiffModel, MessageModel, MetaModel, TopicModel};
use vstd::prelude::*;

verus! {

/// Whether no two entries have the same reference.
pub open spec fn distinct_refs(metas: Seq<MetaModel>) -> bool {
    forall|i: int, j: int|
        0 <= i < j < metas.len() ==> (#[trigger] metas[i]).phx_ref != (#[trigger] metas[j]).phx_ref
}

proof fn lemma_filter_agrees(
    s: Seq<MetaModel>,
    p: spec_fn(MetaModel) -> bool,
    q: spec_fn(MetaModel) -> bool,
)
    requires
        forall|i: int| 0 <= i < s.len() ==> p(#[trigger] s[i]) == q(s[i]),
    ensures
        s.filter(p) == s.filter(q),
    decreases s.len(),
{
    reveal(Seq::filter);
    if s.len() > 0 {
        let t = s.drop_last();
        assert forall|i: int| 0 <= i < t.len() implies p(#[trigger] t[i]) == q(t[i]) by {
            assert(t[i] == s[i]);
        }
        lemma_filter_agrees(t, p, q);
        assert(p(s[s.len() - 1]) == q(s[s.len() - 1]));
    }
}

proof fn lemma_filter_keeps_all(s: Seq<MetaModel>, p: spec_fn(MetaModel) -> bool)
    requires
        forall|i: int| 0 <= i < s.len() ==> p(#[trigger] s[i]),
    ensures
        s.filter(p) == s,
    decreases s.len(),
{
    reveal(Seq::filter);
    if s.len() > 0 {
        let t = s.drop_last();
        assert forall|i: int| 0 <= i < t.len() implies p(#[trigger] t[i]) by {
            assert(t[i] == s[i]);
        }
        lemma_filter_keeps_all(t, p);
        assert(p(s[s.len() - 1]));
        assert(t.push(s.last()) =~= s);
    } else {
        assert(s.filter(p) =~= s);
    }
}

proof fn lemma_filter_drops_one(s: Seq<MetaModel>, p: spec_fn(MetaModel) -> bool, i: int)
    requires
        0 <= i < s.len(),
        forall|j: int| 0 <= j < s.len() ==> p(#[trigger] s[j]) == (j != i),
    ensures
        s.filter(p) == s.remove(i),
    decreases s.len(),
{
    reveal(Seq::filter);
    let t = s.drop_last();
    assert(p(s[s.len() - 1]) == (s.len() - 1 != i));
    if i == s.len() - 1 {
        assert forall|j: int| 0 <= j < t.len() implies p(#[trigger] t[j]) by {
            assert(t[j] == s[j]);
        }
        lemma_filter_keeps_all(t, p);
        assert(t =~= s.remove(i));
    } else {
        assert forall|j: int| 0 <= j < t.len() implies p(#[trigger] t[j]) == (j != i) by {
            assert(t[j] == s[j]);
        }
        lemma_filter_drops_one(t, p, i);
        assert(t.remove(i).push(s.last()) =~= s.remove(i));
    }
}

proof fn lemma_filter_source(s: Seq<MetaModel>, p: spec_fn(MetaModel) -> bool, i: int) -> (j: int)
    requires
        0 <= i < s.filter(p).len(),
    ensures
        0 <= j < s.len(),
        s[j] == s.filter(p)[i],
        p(s[j]),
{
    s.lemma_filter_pred(p, i);
    s.lemma_filter_contains_rev(p, s.filter(p)[i]);
    choose|j: int| 0 <= j < s.len() && s[j] == s.filter(p)[i]
}

proof fn lemma_filter_distinct(s: Seq<MetaModel>, p: spec_fn(MetaModel) -> bool)
    requires
        distinct_refs(s),
    ensures
        distinct_refs(s.filter(p)),
    decreases s.len(),
{
    reveal(Seq::filter);
    if s.len() > 0 {
        let t = s.drop_last();
        assert forall|i: int, j: int| 0 <= i < j < t.len() implies (#[trigger] t[i]).phx_ref != (
        #[trigger] t[j]).phx_ref by {
            assert(t[i] == s[i] && t[j] == s[j]);
        }
        lemma_filter_distinct(t, p);
        let f = t.filter(p);
        if p(s.last()) {
            assert forall|i: int| 0 <= i < f.len() implies (#[trigger] f[i]).phx_ref
                != s.last().phx_ref by {
                let k = lemma_filter_source(t, p, i);
                assert(t[k] == s[k]);
            }
        }
    }
}

/// A merge brings together the references of both sides, and no others.
pub proof fn merge_unites_refs(local: Seq<MetaModel>, remote: Seq<MetaModel>, phx_ref: Seq<char>)
    ensures
        has_ref(merged(local, remote), phx_ref) <==> has_ref(local, phx_ref) || has_ref(
            remote,
            phx_ref,
        ),
    decreases remote.len(),
{
    if remote.len() > 0 {
        let rest = remote.drop_last();
        let m = remote.last();
        merge_unites_refs(local, rest, phx_ref);
        let before = merged(local, rest);
        assert(has_ref(remote, phx_ref) <==> has_ref(rest, phx_ref) || m.phx_ref == phx_ref) by {
            if has_ref(rest, phx_ref) {
                let i = choose|i: int| 0 <= i < rest.len() && (#[trigger] rest[i]).phx_ref == phx_ref;
                assert(remote[i].phx_ref == phx_ref);
            }
            if m.phx_ref == phx_ref {
                assert(remote[remote.len() - 1].phx_ref == phx_ref);
            }
            if has_ref(remote, phx_ref) && m.phx_ref != phx_ref {
                let i = choose|i: int|
                    0 <= i < remote.len() && (#[trigger] remote[i]).phx_ref == phx_ref;
                assert(rest[i].phx_ref == phx_ref);
            }
        }
        lemma_with_meta_refs(before, m, phx_ref);
    }
}

proof fn lemma_with_meta_refs(local: Seq<MetaModel>, m: MetaModel, phx_ref: Seq<char>)
    ensures
        has_ref(with_meta(local, m), phx_ref) <==> has_ref(local, phx_ref) || m.phx_ref == phx_ref,
{
    let after = with_meta(local, m);
    if !has_ref(local, m.phx_ref) {
        assert(after[local.len() as int] == m);
        if has_ref(local, phx_ref) {
            let i = choose|i: int| 0 <= i < local.len() && (#[trigger] local[i]).phx_ref == phx_ref;
            assert(after[i].phx_ref == phx_ref);
        }
        if has_ref(after, phx_ref) && m.phx_ref != phx_ref {
            let i = choose|i: int| 0 <= i < after.len() && (#[trigger] after[i]).phx_ref == phx_ref;
            assert(local[i].phx_ref == phx_ref);
        }
    }
}

/// Two trackers that merge each other's entries know the same references,
/// whoever merges first.
pub proof fn merges_converge(a: Seq<MetaModel>, b: Seq<MetaModel>, phx_ref: Seq<char>)
    ensures
        has_ref(merged(a, b), phx_ref) == has_ref(merged(b, a), phx_ref),
{
    merge_unites_refs(a, b, phx_ref);
    merge_unites_refs(b, a, phx_ref);
}

proof fn lemma_merge_known(local: Seq<MetaModel>, remote: Seq<MetaModel>)
    requires
        forall|i: int| 0 <= i < remote.len() ==> has_ref(local, (#[trigger] remote[i]).phx_ref),
    ensures
        merged(local, remote) == local,
    decreases remote.len(),
{
    if remote.len() > 0 {
        let rest = remote.drop_last();
        assert forall|i: int| 0 <= i < rest.len() implies has_ref(
            local,
            (#[trigger] rest[i]).phx_ref,
        ) by {
            assert(rest[i] == remote[i]);
        }
        lemma_merge_known(local, rest);
        assert(has_ref(local, remote[remote.len() - 1].phx_ref));
    }
}

/// To merge the same entries a second time changes nothing.
pub proof fn merge_is_idempotent(local: Seq<MetaModel>, remote: Seq<MetaModel>)
    ensures
        merged(merged(local, remote), remote) == merged(local, remote),
{
    assert forall|i: int| 0 <= i < remote.len() implies has_ref(
        merged(local, remote),
        (#[trigger] remote[i]).phx_ref,
    ) by {
        merge_unites_refs(local, remote, remote[i].phx_ref);
    }
    lemma_merge_known(merged(local, remote), remote);
}

/// A merge leaves the entries that were there as they were, in front.
pub proof fn merge_keeps_local(local: Seq<MetaModel>, remote: Seq<MetaModel>)
    ensures
        local.is_prefix_of(merged(local, remote)),
    decreases remote.len(),
{
    if remote.len() > 0 {
        merge_keeps_local(local, remote.drop_last());
    }
}

/// A merge gives no reference to a second entry.
pub proof fn merge_keeps_refs_distinct(local: Seq<MetaModel>, remote: Seq<MetaModel>)
    requires
        distinct_refs(local),
    ensures
        distinct_refs(merged(local, remote)),
    decreases remote.len(),
{
    if remote.len() > 0 {
        merge_keeps_refs_distinct(local, remote.drop_last());
    }
}

/// A join gives no reference to a second entry.
pub proof fn join_keeps_refs_distinct(local: Seq<MetaModel>, joins: Seq<MetaModel>)
    requires
        distinct_refs(local),
    ensures
        distinct_refs(joined(local, joins)),
    decreases joins.len(),
{
    if joins.len() > 0 {
        let before = joined(local, joins.drop_last());
        join_keeps_refs_distinct(local, joins.drop_last());
        if let Some(prev) = joins.last().phx_ref_prev {
            lemma_filter_distinct(before, not_ref(prev));
        }
    }
}

/// To merge the same topic a second time changes nothing.
pub proof fn topic_merge_is_idempotent(local: TopicModel, remote: TopicModel)
    ensures
        merged_topic(merged_topic(local, remote), remote) == merged_topic(local, remote),
{
    let once = merged_topic(local, remote);
    let twice = merged_topic(once, remote);
    assert forall|key: Seq<char>| #[trigger] once.contains_key(key) implies once[key]
        == twice[key] by {
        if remote.contains_key(key) {
            merge_is_idempotent(entries_of(local, key), remote[key]);
        }
    }
    assert(once =~= twice);
}

/// A node that holds the same entries of a topic and hears of a new one holds
/// the same entries afterwards.
pub proof fn track_replicates(here: StoreModel, there: StoreModel, topic: Seq<char>, key: Seq<char>, m: MetaModel)
    requires
        here.topic(topic) == there.topic(topic),
        m.phx_ref_prev is None,
        !has_ref(here.metas(topic, key), m.phx_ref),
    ensures
        there.changed(topic, join_diff(key, seq![m])).topic(topic) == here.with_entry(
            topic,
            key,
            m,
        ).topic(topic),
{
    let local = there.topic(topic);
    let diff = join_diff(key, seq![m]);
    assert(left_topic(local, diff.leaves) =~= local);
    lemma_join_one(entries_of(local, key), m);
    assert(changed_topic(local, diff) =~= here.with_entry(topic, key, m).topic(topic));
}

proof fn lemma_join_one(local: Seq<MetaModel>, m: MetaModel)
    ensures
        joined(local, seq![m]) == with_meta(without_replaced(local, m), m),
{
    let one = seq![m];
    assert(one.drop_last() =~= Seq::empty());
    assert(one.last() == m);
    assert(joined(local, one.drop_last()) == local);
}

/// To hear of a new or replaced entry a second time changes nothing.
pub proof fn join_is_idempotent(local: Seq<MetaModel>, m: MetaModel)
    ensures
        joined(joined(local, seq![m]), seq![m]) == joined(local, seq![m]),
{
    let once = joined(local, seq![m]);
    lemma_join_one(local, m);
    lemma_join_one(once, m);
    lemma_with_meta_refs(without_replaced(local, m), m, m.phx_ref);
    if let Some(prev) = m.phx_ref_prev {
        let base = local.filter(not_ref(prev));
        assert forall|i: int| 0 <= i < base.len() implies not_ref(prev)(#[trigger] base[i]) by {
            local.lemma_filter_pred(not_ref(prev), i);
        }
        lemma_filter_keeps_all(base, not_ref(prev));
        if prev == m.phx_ref {
            assert(!has_ref(base, prev));
            base.lemma_filter_push(m, not_ref(prev));
            assert(once == base.push(m));
            assert(without_replaced(once, m) == base);
        } else {
            if !has_ref(base, m.phx_ref) {
                base.lemma_filter_push(m, not_ref(prev));
            }
            assert(without_replaced(once, m) == once);
        }
    }
}

/// Whether a joining entry brings or takes a reference: `Some(true)` where the
/// last one that concerns it has it, `Some(false)` where that one replaces it,
/// and nothing where none concerns it.
pub open spec fn fate(joins: Seq<MetaModel>, phx_ref: Seq<char>) -> Option<bool>
    decreases joins.len(),
{
    if joins.len() == 0 {
        None
    } else if joins.last().phx_ref == phx_ref {
        Some(true)
    } else if joins.last().phx_ref_prev == Some(phx_ref) {
        Some(false)
    } else {
        fate(joins.drop_last(), phx_ref)
    }
}

/// Whether a key has a reference after a change: a join brings it, or it was
/// there, does not leave and is not replaced.
pub open spec fn ref_stays(
    local: Seq<MetaModel>,
    leaves: Seq<MetaModel>,
    joins: Seq<MetaModel>,
    phx_ref: Seq<char>,
) -> bool {
    match fate(joins, phx_ref) {
        Some(stays) => stays,
        None => has_ref(local, phx_ref) && !has_ref(leaves, phx_ref),
    }
}

proof fn lemma_filter_refs(
    s: Seq<MetaModel>,
    p: spec_fn(MetaModel) -> bool,
    phx_ref: Seq<char>,
    keep: bool,
)
    requires
        forall|i: int| 0 <= i < s.len() && (#[trigger] s[i]).phx_ref == phx_ref ==> p(s[i]) == keep,
    ensures
        has_ref(s.filter(p), phx_ref) <==> has_ref(s, phx_ref) && keep,
{
    let f = s.filter(p);
    if has_ref(f, phx_ref) {
        let i = choose|i: int| 0 <= i < f.len() && (#[trigger] f[i]).phx_ref == phx_ref;
        let j = lemma_filter_source(s, p, i);
        assert(s[j].phx_ref == phx_ref);
    }
    if has_ref(s, phx_ref) && keep {
        let j = choose|j: int| 0 <= j < s.len() && (#[trigger] s[j]).phx_ref == phx_ref;
        s.lemma_filter_contains(p, j);
        let i = choose|i: int| 0 <= i < f.len() && f[i] == s[j];
        assert(f[i].phx_ref == phx_ref);
    }
}

proof fn lemma_joined_refs(local: Seq<MetaModel>, joins: Seq<MetaModel>, phx_ref: Seq<char>)
    ensures
        has_ref(joined(local, joins), phx_ref) == (match fate(joins, phx_ref) {
            Some(stays) => stays,
            None => has_ref(local, phx_ref),
        }),
    decreases joins.len(),
{
    if joins.len() > 0 {
        let less = joins.drop_last();
        let m = joins.last();
        let before = joined(local, less);
        lemma_joined_refs(local, less, phx_ref);
        lemma_with_meta_refs(without_replaced(before, m), m, phx_ref);
        if let Some(prev) = m.phx_ref_prev {
            lemma_filter_refs(before, not_ref(prev), phx_ref, phx_ref != prev);
        }
    }
}

/// After a change a key has exactly the references that a join brings, and those
/// that were there, do not leave and are not replaced.
pub proof fn change_decides_refs(
    local: TopicModel,
    diff: DiffModel,
    key: Seq<char>,
    phx_ref: Seq<char>,
)
    ensures
        has_ref(entries_of(changed_topic(local, diff), key), phx_ref) == ref_stays(
            entries_of(local, key),
            entries_of(diff.leaves, key),
            entries_of(diff.joins, key),
            phx_ref,
        ),
{
    let left = left_topic(local, diff.leaves);
    let metas = entries_of(local, key);
    let leaves = entries_of(diff.leaves, key);
    assert(has_ref(entries_of(left, key), phx_ref) == (has_ref(metas, phx_ref) && !has_ref(
        leaves,
        phx_ref,
    ))) by {
        lemma_filter_refs(metas, not_among(leaves), phx_ref, !has_ref(leaves, phx_ref));
        reveal(Seq::filter);
    }
    lemma_joined_refs(entries_of(left, key), entries_of(diff.joins, key), phx_ref);
}

/// A change gives no reference of a key to a second entry.
pub proof fn change_keeps_refs_distinct(local: TopicModel, diff: DiffModel, key: Seq<char>)
    requires
        distinct_refs(entries_of(local, key)),
    ensures
        distinct_refs(entries_of(changed_topic(local, diff), key)),
{
    let left = left_topic(local, diff.leaves);
    if diff.leaves.contains_key(key) {
        lemma_filter_distinct(entries_of(local, key), not_among(diff.leaves[key]));
    }
    assert(distinct_refs(entries_of(left, key)));
    join_keeps_refs_distinct(entries_of(left, key), entries_of(diff.joins, key));
}

/// A change leaves the keys alone that it does not name.
pub proof fn change_leaves_other_keys(local: TopicModel, diff: DiffModel, key: Seq<char>)
    requires
        !diff.leaves.contains_key(key),
        !diff.joins.contains_key(key),
    ensures
        changed_topic(local, diff).contains_key(key) == local.contains_key(key),
        local.contains_key(key) ==> changed_topic(local, diff)[key] == local[key],
{
}

/// A reference that leaves a key and does not join it is gone from it.
pub proof fn change_removes_leaves(
    local: TopicModel,
    diff: DiffModel,
    key: Seq<char>,
    phx_ref: Seq<char>,
)
    requires
        has_ref(entries_of(diff.leaves, key), phx_ref),
        !has_ref(entries_of(diff.joins, key), phx_ref),
    ensures
        !has_ref(entries_of(changed_topic(local, diff), key), phx_ref),
{
    change_decides_refs(local, diff, key, phx_ref);
    lemma_fate_of_missing(entries_of(diff.joins, key), phx_ref);
}

proof fn lemma_fate_of_missing(joins: Seq<MetaModel>, phx_ref: Seq<char>)
    requires
        !has_ref(joins, phx_ref),
    ensures
        fate(joins, phx_ref) != Some(true),
    decreases joins.len(),
{
    if joins.len() > 0 {
        let less = joins.drop_last();
        assert(joins[joins.len() - 1].phx_ref != phx_ref);
        if has_ref(less, phx_ref) {
            let i = choose|i: int| 0 <= i < less.len() && (#[trigger] less[i]).phx_ref == phx_ref;
            assert(joins[i].phx_ref == phx_ref);
        }
        lemma_fate_of_missing(less, phx_ref);
    }
}

proof fn lemma_fate_of_replaced(joins: Seq<MetaModel>, i: int, phx_ref: Seq<char>)
    requires
        0 <= i < joins.len(),
        joins[i].phx_ref_prev == Some(phx_ref),
        forall|j: int| i <= j < joins.len() ==> (#[trigger] joins[j]).phx_ref != phx_ref,
    ensures
        fate(joins, phx_ref) == Some(false),
    decreases joins.len(),
{
    let less = joins.drop_last();
    assert(joins[joins.len() - 1].phx_ref != phx_ref);
    if i < less.len() {
        assert forall|j: int| i <= j < less.len() implies (#[trigger] less[j]).phx_ref
            != phx_ref by {
            assert(joins[j].phx_ref != phx_ref);
        }
        lemma_fate_of_replaced(less, i, phx_ref);
    }
}

/// A reference that a joining entry replaces is gone, unless it joins again with
/// that entry or a later one.
pub proof fn change_removes_replaced(
    local: TopicModel,
    diff: DiffModel,
    key: Seq<char>,
    i: int,
    phx_ref: Seq<char>,
)
    requires
        0 <= i < entries_of(diff.joins, key).len(),
        entries_of(diff.joins, key)[i].phx_ref_prev == Some(phx_ref),
        forall|j: int|
            i <= j < entries_of(diff.joins, key).len() ==> (#[trigger] entries_of(
                diff.joins,
                key,
            )[j]).phx_ref != phx_ref,
    ensures
        !has_ref(entries_of(changed_topic(local, diff), key), phx_ref),
{
    change_decides_refs(local, diff, key, phx_ref);
    lemma_fate_of_replaced(entries_of(diff.joins, key), i, phx_ref);
}

proof fn lemma_fate_of_joined(joins: Seq<MetaModel>, i: int, phx_ref: Seq<char>)
    requires
        0 <= i < joins.len(),
        joins[i].phx_ref == phx_ref,
        forall|j: int| i < j < joins.len() ==> (#[trigger] joins[j]).phx_ref_prev != Some(phx_ref),
    ensures
        fate(joins, phx_ref) == Some(true),
    decreases joins.len(),
{
    let less = joins.drop_last();
    if i < less.len() {
        assert(joins[joins.len() - 1].phx_ref_prev != Some(phx_ref));
        assert forall|j: int| i < j < less.len() implies (#[trigger] less[j]).phx_ref_prev != Some(
            phx_ref,
        ) by {
            assert(joins[j].phx_ref_prev != Some(phx_ref));
        }
        lemma_fate_of_joined(less, i, phx_ref);
    }
}

/// A reference that joins is there, unless a later joining entry replaces it.
pub proof fn change_brings_joins(
    local: TopicModel,
    diff: DiffModel,
    key: Seq<char>,
    i: int,
)
    requires
        0 <= i < entries_of(diff.joins, key).len(),
        forall|j: int|
            i < j < entries_of(diff.joins, key).len() ==> (#[trigger] entries_of(
                diff.joins,
                key,
            )[j]).phx_ref_prev != Some(entries_of(diff.joins, key)[i].phx_ref),
    ensures
        has_ref(
            entries_of(changed_topic(local, diff), key),
            entries_of(diff.joins, key)[i].phx_ref,
        ),
{
    let phx_ref = entries_of(diff.joins, key)[i].phx_ref;
    change_decides_refs(local, diff, key, phx_ref);
    lemma_fate_of_joined(entries_of(diff.joins, key), i, phx_ref);
}

/// To apply the same change a second time leaves the same references under every
/// key.
pub proof fn change_is_idempotent(
    local: TopicModel,
    diff: DiffModel,
    key: Seq<char>,
    phx_ref: Seq<char>,
)
    ensures
        ({
            let once = changed_topic(local, diff);
            let twice = changed_topic(once, diff);
            has_ref(entries_of(twice, key), phx_ref) == has_ref(entries_of(once, key), phx_ref)
        }),
{
    change_decides_refs(local, diff, key, phx_ref);
    change_decides_refs(changed_topic(local, diff), diff, key, phx_ref);
}

/// A node that holds the same entries of a topic and hears that those of a
/// process went holds the same entries afterwards.
pub proof fn untrack_replicates(
    here: StoreModel,
    there: StoreModel,
    topic: Seq<char>,
    key: Seq<char>,
    pid: Pid,
)
    requires
        here.topic(topic) == there.topic(topic),
        distinct_refs(here.metas(topic, key)),
        here.metas(topic, key).filter(owned_by(pid)).len() > 0,
    ensures
        there.changed(
            topic,
            leave_diff(key, here.metas(topic, key).filter(owned_by(pid))),
        ).topic(topic) == here.untracked(topic, key, pid).topic(topic),
{
    let local = there.topic(topic);
    let metas = entries_of(local, key);
    let gone = metas.filter(owned_by(pid));
    let diff = leave_diff(key, gone);
    reveal(Seq::filter);
    assert(local.contains_key(key));
    assert forall|i: int| 0 <= i < metas.len() implies not_among(gone)(#[trigger] metas[i])
        == not_owned_by(pid)(metas[i]) by {
        if metas[i].pid == pid {
            metas.lemma_filter_contains(owned_by(pid), i);
            let j = choose|j: int| 0 <= j < gone.len() && gone[j] == metas[i];
            assert(gone[j].phx_ref == metas[i].phx_ref);
        } else if has_ref(gone, metas[i].phx_ref) {
            let j = choose|j: int|
                0 <= j < gone.len() && (#[trigger] gone[j]).phx_ref == metas[i].phx_ref;
            let k = lemma_filter_source(metas, owned_by(pid), j);
            assert(metas[k].phx_ref == metas[i].phx_ref);
            assert(k != i);
        }
    }
    lemma_filter_agrees(metas, not_among(gone), not_owned_by(pid));
    let after = here.untracked(topic, key, pid).topic(topic);
    assert(left_topic(local, diff.leaves) =~= after);
    assert(joined_topic(left_topic(local, diff.leaves), diff.joins) =~= after);
}

/// A node that holds the same entries of a key and hears that one was replaced
/// holds the same entries afterwards, the new one at the end.
pub proof fn update_replicates(
    here: StoreModel,
    there: StoreModel,
    topic: Seq<char>,
    key: Seq<char>,
    m: MetaModel,
)
    requires
        here.topic(topic) == there.topic(topic),
        distinct_refs(here.metas(topic, key)),
        owns_one(here.metas(topic, key), m.pid),
        !has_ref(here.metas(topic, key), m.phx_ref),
    ensures
        there.changed(
            topic,
            join_diff(key, seq![replacement(here.metas(topic, key), m)]),
        ).metas(topic, key).to_multiset() == here.updated(topic, key, m).metas(
            topic,
            key,
        ).to_multiset(),
{
    let local = there.topic(topic);
    let metas = entries_of(local, key);
    let new = replacement(metas, m);
    let i = choose|i: int| first_owned(metas, m.pid, i);
    let prev = metas[i].phx_ref;
    let diff = join_diff(key, seq![new]);
    assert(left_topic(local, diff.leaves) =~= local);
    lemma_join_one(metas, new);
    lemma_filter_drops_one(metas, not_ref(prev), i);
    let rest = metas.remove(i);
    assert(!has_ref(rest, m.phx_ref)) by {
        if has_ref(rest, m.phx_ref) {
            let j = choose|j: int| 0 <= j < rest.len() && (#[trigger] rest[j]).phx_ref == m.phx_ref;
            let x = if j < i { j } else { j + 1 };
            assert(metas[x].phx_ref == m.phx_ref);
        }
    }
    assert(joined(metas, seq![new]) == rest.push(new));
    assert(there.changed(topic, diff).metas(topic, key) == rest.push(new));
    assert(here.updated(topic, key, m).metas(topic, key) == metas.update(i, new));
    vstd::seq_lib::to_multiset_remove(metas, i);
    vstd::seq_lib::to_multiset_update(metas, i, new);
    vstd::seq_lib::to_multiset_build(rest, new);
}

/// To untrack a process right after it was tracked gives back the topic as it
/// was. Left out are a process that had entries there, which go too, and a key
/// without entries, which is cleaned up.
pub proof fn untrack_undoes_track(
    store: StoreModel,
    topic: Seq<char>,
    key: Seq<char>,
    m: MetaModel,
)
    requires
        !owns_one(store.metas(topic, key), m.pid),
        store.topic(topic).contains_key(key) ==> store.metas(topic, key).len() > 0,
    ensures
        store.with_entry(topic, key, m).untracked(topic, key, m.pid).topic(topic) == store.topic(
            topic,
        ),
{
    let metas = store.metas(topic, key);
    assert forall|i: int| 0 <= i < metas.len() implies not_owned_by(m.pid)(#[trigger] metas[i]) by {
        if metas[i].pid == m.pid {
            lemma_first_owned(metas, m.pid, i);
        }
    }
    lemma_filter_keeps_all(metas, not_owned_by(m.pid));
    metas.lemma_filter_push(m, not_owned_by(m.pid));
    assert(store.with_entry(topic, key, m).untracked(topic, key, m.pid).topic(topic)
        =~= store.topic(topic));
}

proof fn lemma_first_owned(metas: Seq<MetaModel>, pid: Pid, i: int)
    requires
        0 <= i < metas.len(),
        metas[i].pid == pid,
    ensures
        owns_one(metas, pid),
    decreases i,
{
    if exists|j: int| 0 <= j < i && (#[trigger] metas[j]).pid == pid {
        let j = choose|j: int| 0 <= j < i && (#[trigger] metas[j]).pid == pid;
        lemma_first_owned(metas, pid, j);
    } else {
        assert(first_owned(metas, pid, i));
    }
}

/// A process that is tracked has one entry more in the topic.
pub proof fn track_counts_one_more(
    store: StoreModel,
    topic: Seq<char>,
    key: Seq<char>,
    m: MetaModel,
)
    requires
        entry_places(store.topic(topic)).finite(),
    ensures
        entry_places(store.with_entry(topic, key, m).topic(topic)).len() == entry_places(
            store.topic(topic),
        ).len() + 1,
{
    let before = entry_places(store.topic(topic));
    let place = (key, store.metas(topic, key).len() as int);
    assert(entry_places(store.with_entry(topic, key, m).topic(topic)) =~= before.insert(place));
}

/// Whether every entry of a process stands at a pair that the process was
/// tracked under.
pub open spec fn all_noted(store: StoreModel, pid: Pid) -> bool {
    forall|topic: Seq<char>, key: Seq<char>|
        owns_one(#[trigger] store.metas(topic, key), pid) ==> store.pairs(pid).contains(
            (topic, key),
        )
}

/// To track, untrack or update one process keeps the pairs of every process complete.
pub proof fn pairs_stay_complete(
    store: StoreModel,
    topic: Seq<char>,
    key: Seq<char>,
    m: MetaModel,
    pid: Pid,
)
    requires
        all_noted(store, pid),
    ensures
        all_noted(store.with_entry(topic, key, m), pid),
        all_noted(store.untracked(topic, key, m.pid), pid),
        all_noted(store.updated(topic, key, m), pid),
{
    let a = store.with_entry(topic, key, m);
    assert forall|t: Seq<char>, k: Seq<char>| owns_one(#[trigger] a.metas(t, k), pid) implies a.pairs(
        pid,
    ).contains((t, k)) by {
        let metas = a.metas(t, k);
        let i = choose|i: int| first_owned(metas, pid, i);
        let old_metas = store.metas(t, k);
        if t == topic && k == key {
            if i < old_metas.len() {
                assert(old_metas[i] == metas[i]);
                lemma_first_owned(old_metas, pid, i);
            }
        } else {
            assert(metas =~= old_metas);
        }
    }
    let b = store.untracked(topic, key, m.pid);
    assert forall|t: Seq<char>, k: Seq<char>| owns_one(#[trigger] b.metas(t, k), pid) implies b.pairs(
        pid,
    ).contains((t, k)) by {
        let metas = b.metas(t, k);
        let i = choose|i: int| first_owned(metas, pid, i);
        let old_metas = store.metas(t, k);
        if t == topic && k == key {
            let j = lemma_filter_source(old_metas, not_owned_by(m.pid), i);
            lemma_first_owned(old_metas, pid, j);
        } else {
            assert(metas == old_metas);
        }
    }
    let c = store.updated(topic, key, m);
    assert forall|t: Seq<char>, k: Seq<char>| owns_one(#[trigger] c.metas(t, k), pid) implies c.pairs(
        pid,
    ).contains((t, k)) by {
        let metas = c.metas(t, k);
        let old_metas = store.metas(t, k);
        let i = choose|i: int| first_owned(metas, pid, i);
        if owns_one(store.metas(topic, key), m.pid) && t == topic && k == key {
            let j = choose|j: int| first_owned(old_metas, m.pid, j);
            assert(old_metas[i].pid == pid);
            lemma_first_owned(old_metas, pid, i);
        } else {
            assert(metas =~= old_metas);
        }
    }
}

/// After all tracking of a process ended, no entry of it is left anywhere, and
/// the entries of the others are all there.
pub proof fn untrack_all_leaves_none(store: StoreModel, pid: Pid)
    requires
        all_noted(store, pid),
    ensures
        forall|topic: Seq<char>, key: Seq<char>|
            (#[trigger] store.untracked_all(pid).metas(topic, key)) == store.metas(
                topic,
                key,
            ).filter(not_owned_by(pid)),
        forall|topic: Seq<char>, key: Seq<char>|
            !owns_one(#[trigger] store.untracked_all(pid).metas(topic, key), pid),
        store.untracked_all(pid).pairs(pid) == Set::<(Seq<char>, Seq<char>)>::empty(),
{
    let after = store.untracked_all(pid);
    assert forall|t: Seq<char>, k: Seq<char>| #[trigger] after.metas(t, k) == store.metas(
        t,
        k,
    ).filter(not_owned_by(pid)) && !owns_one(after.metas(t, k), pid) by {
        let metas = store.metas(t, k);
        let rest = metas.filter(not_owned_by(pid));
        if !store.pairs(pid).contains((t, k)) {
            assert(!owns_one(metas, pid));
            assert forall|i: int| 0 <= i < metas.len() implies not_owned_by(pid)(
                #[trigger] metas[i],
            ) by {
                if metas[i].pid == pid {
                    lemma_first_owned(metas, pid, i);
                }
            }
            lemma_filter_keeps_all(metas, not_owned_by(pid));
            assert(after.metas(t, k) == metas);
        } else {
            assert(after.metas(t, k) =~= rest) by {
                reveal(Seq::filter);
            }
        }
        if owns_one(rest, pid) {
            let i = choose|i: int| first_owned(rest, pid, i);
            metas.lemma_filter_pred(not_owned_by(pid), i);
        }
    }
}

/// The logical clock never runs backwards, and is never behind one it heard of.
pub proof fn clock_never_decreases(tracker: TrackerModel, msg: MessageModel, now: u64)
    ensures
        tracker.after_message(msg, now).clock >= tracker.clock,
        msg matches MessageModel::Heartbeat { node, clock } ==> tracker.after_message(
            msg,
            now,
        ).clock >= clock,
{
}

} // verus!
