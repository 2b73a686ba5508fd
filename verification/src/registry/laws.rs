//! What holds of a registry across registrations.
use crate::atom::AtomTable;
use crate::base::exit_reason::ExitModel;
use crate::base::message::SystemModel;
use crate::base::node::LocalNode;
use crate::base::pid::Pid;
use crate::base::reference::Ref;
use crate::registry::{
    consistent, first_of, has_pid, not_of, owners_of, without_pid, RegistryModel,
};
use crate::runtime::context::{monitoring, noproc};
use crate::runtime::exit::{after_downs, after_lost_links};
use crate::runtime::laws::{exit_reaches_watchers, lost_links_keep_messages};
use crate::runtime::process::ProcessesModel;
use crate::table::{distinct_keys, lemma_rows_map, place_of, rows_map};
use crate::wire::primitive::Wire;
use crate::wire::system::{
    knows_system, portable_system, system_bytes, system_message_survives_wire, PortableSystem,
};
use vstd::prelude::*;

verus! {

proof fn lemma_filtered<B>(entries: Seq<(Pid, B)>, pid: Pid, other: Pid)
    ensures
        has_pid(entries.filter(not_of(pid)), other) <==> other != pid && has_pid(entries, other),
        entries.filter(not_of(pid)).len() <= entries.len(),
{
    let rest = entries.filter(not_of(pid));
    entries.lemma_filter_len(not_of(pid));
    if has_pid(rest, other) {
        let i = choose|i: int| 0 <= i < rest.len() && (#[trigger] rest[i]).0 == other;
        entries.lemma_filter_pred(not_of(pid), i);
        entries.lemma_filter_contains_rev(not_of(pid), rest[i]);
        let j = choose|j: int| 0 <= j < entries.len() && entries[j] == rest[i];
        assert(entries[j].0 == other);
    }
    if other != pid && has_pid(entries, other) {
        let j = choose|j: int| 0 <= j < entries.len() && (#[trigger] entries[j]).0 == other;
        entries.lemma_filter_contains(not_of(pid), j);
        let i = choose|i: int| 0 <= i < rest.len() && rest[i] == entries[j];
        assert(rest[i].0 == other);
    }
}

proof fn lemma_pushed<B>(entries: Seq<(Pid, B)>, pid: Pid, value: B, other: Pid)
    ensures
        has_pid(entries.push((pid, value)), other) <==> has_pid(entries, other) || other == pid,
{
    let more = entries.push((pid, value));
    assert(more[entries.len() as int].0 == pid);
    if has_pid(entries, other) {
        let i = choose|i: int| 0 <= i < entries.len() && (#[trigger] entries[i]).0 == other;
        assert(more[i].0 == other);
    }
    if has_pid(more, other) && other != pid {
        let i = choose|i: int| 0 <= i < more.len() && (#[trigger] more[i]).0 == other;
        assert(entries[i].0 == other);
    }
}

/// An empty registry is consistent.
pub proof fn empty_is_consistent<A, B>(unique: bool)
    ensures
        consistent(
            RegistryModel::<A, B> {
                unique,
                entries: Map::empty(),
                pids: Map::empty(),
                monitors: Map::empty(),
            },
        ),
{
}

/// Monitors have no part in whether a registry is consistent.
pub proof fn monitors_keep_consistent<A, B>(m: RegistryModel<A, B>, monitors: Map<Pid, Ref>)
    requires
        consistent(m),
    ensures
        consistent(RegistryModel { monitors, ..m }),
{
    let next = RegistryModel { monitors, ..m };
    assert forall|p: Pid, k: A|
        #![trigger next.keys_of(p).contains(k)]
        #![trigger has_pid(next.at(k), p)]
        next.keys_of(p).contains(k) <==> has_pid(next.at(k), p) by {
        assert(m.keys_of(p).contains(k) <==> has_pid(m.at(k), p));
    }
}

/// A registration keeps a registry consistent.
pub proof fn register_keeps_consistent<A, B>(m: RegistryModel<A, B>, key: A, pid: Pid, value: B)
    requires
        consistent(m),
    ensures
        consistent(m.registered(key, pid, value)),
{
    if m.accepts(key) {
        let next = m.registered(key, pid, value);
        assert forall|p: Pid, k: A|
            #![trigger next.keys_of(p).contains(k)]
            #![trigger has_pid(next.at(k), p)]
            next.keys_of(p).contains(k) <==> has_pid(next.at(k), p) by {
            assert(m.keys_of(p).contains(k) <==> has_pid(m.at(k), p));
            if k == key {
                lemma_pushed(m.at(key), pid, value, p);
            }
        }
        assert(next.pids[pid].contains(key));
    }
}

proof fn lemma_unregister_some<A, B>(m: RegistryModel<A, B>, keys: Set<A>, pid: Pid, p: Pid, k: A)
    requires
        consistent(m),
    ensures
        ({
            let entries = without_pid(m.entries, keys, pid);
            let at = if entries.contains_key(k) {
                entries[k]
            } else {
                Seq::empty()
            };
            &&& has_pid(at, p) <==> has_pid(m.at(k), p) && !(keys.contains(k) && p == pid)
            &&& entries.contains_key(k) ==> at.len() > 0 && at.len() <= m.at(k).len()
        }),
{
    reveal(Seq::filter);
    lemma_filtered(m.at(k), pid, p);
    let rest = m.at(k).filter(not_of(pid));
    if m.entries.contains_key(k) && keys.contains(k) && rest.len() == 0 {
        assert(!has_pid(rest, p));
    }
}

/// To unregister a process from a key keeps a registry consistent, and takes
/// away the entries of that process under that key alone.
pub proof fn unregister_keeps_consistent<A, B>(m: RegistryModel<A, B>, key: A, pid: Pid)
    requires
        consistent(m),
    ensures
        consistent(m.unregistered(key, pid)),
        m.unregistered(key, pid).at(key) == m.at(key).filter(not_of(pid)),
        forall|other: A| other != key ==> m.unregistered(key, pid).at(other) == m.at(other),
{
    let next = m.unregistered(key, pid);
    reveal(Seq::filter);
    assert forall|p: Pid, k: A|
        #![trigger next.keys_of(p).contains(k)]
        #![trigger has_pid(next.at(k), p)]
        next.keys_of(p).contains(k) <==> has_pid(next.at(k), p) by {
        assert(m.keys_of(p).contains(k) <==> has_pid(m.at(k), p));
        lemma_unregister_some(m, set![key], pid, p, k);
        if p == pid && m.pids.contains_key(pid) && m.pids[pid].remove(key) == Set::<A>::empty() {
            assert(!m.pids[pid].remove(key).contains(k));
        }
    }
    assert forall|k: A| #[trigger] next.entries.contains_key(k) implies next.entries[k].len() > 0
        && (next.unique ==> next.entries[k].len() == 1) by {
        assert(m.entries.contains_key(k));
        lemma_unregister_some(m, set![key], pid, pid, k);
    }
    assert(next.at(key) =~= m.at(key).filter(not_of(pid)));
}

/// To unregister a process from all keys keeps a registry consistent, leaves no
/// entry of the process, and leaves those of the others.
pub proof fn unregister_all_keeps_consistent<A, B>(m: RegistryModel<A, B>, pid: Pid)
    requires
        consistent(m),
    ensures
        consistent(m.unregistered_all(pid)),
        forall|key: A| (#[trigger] m.unregistered_all(pid).at(key)) == m.at(key).filter(not_of(pid)),
        forall|key: A| !has_pid(#[trigger] m.unregistered_all(pid).at(key), pid),
        m.unregistered_all(pid).keys_of(pid) == Set::<A>::empty(),
        forall|other: Pid|
            other != pid ==> m.unregistered_all(pid).keys_of(other) == m.keys_of(other),
        forall|key: A| #[trigger]
            m.unregistered_all(pid).entries.contains_key(key) <==> m.unregistered_all(pid).at(
                key,
            ).len() > 0,
{
    let next = m.unregistered_all(pid);
    let keys = m.keys_of(pid);
    reveal(Seq::filter);
    assert forall|p: Pid, k: A|
        #![trigger next.keys_of(p).contains(k)]
        #![trigger has_pid(next.at(k), p)]
        next.keys_of(p).contains(k) <==> has_pid(next.at(k), p) by {
        assert(m.keys_of(p).contains(k) <==> has_pid(m.at(k), p));
        lemma_unregister_some(m, keys, pid, p, k);
    }
    assert forall|k: A| #[trigger] next.entries.contains_key(k) implies next.entries[k].len() > 0
        && (next.unique ==> next.entries[k].len() == 1) by {
        assert(m.entries.contains_key(k));
        lemma_unregister_some(m, keys, pid, pid, k);
    }
    assert forall|k: A| (#[trigger] next.at(k)) == m.at(k).filter(not_of(pid)) && !has_pid(
        next.at(k),
        pid,
    ) by {
        lemma_filtered(m.at(k), pid, pid);
        if !keys.contains(k) {
            assert(!has_pid(m.at(k), pid));
            lemma_keeps_all(m.at(k), pid);
        }
        assert(next.at(k) =~= m.at(k).filter(not_of(pid)));
    }
}

proof fn lemma_keeps_all<B>(entries: Seq<(Pid, B)>, pid: Pid)
    requires
        !has_pid(entries, pid),
    ensures
        entries.filter(not_of(pid)) == entries,
    decreases entries.len(),
{
    reveal(Seq::filter);
    if entries.len() > 0 {
        let less = entries.drop_last();
        if has_pid(less, pid) {
            let i = choose|i: int| 0 <= i < less.len() && (#[trigger] less[i]).0 == pid;
            assert(entries[i].0 == pid);
        }
        lemma_keeps_all(less, pid);
        assert(entries[entries.len() - 1].0 != pid);
        assert(less.push(entries.last()) =~= entries);
    } else {
        assert(entries.filter(not_of(pid)) =~= entries);
    }
}

/// To forget a key keeps a registry consistent, and leaves the other keys as they are.
pub proof fn forget_keeps_consistent<A, B>(m: RegistryModel<A, B>, key: A)
    requires
        consistent(m),
    ensures
        consistent(m.forgotten(key)),
        m.forgotten(key).at(key).len() == 0,
        forall|other: A| other != key ==> m.forgotten(key).at(other) == m.at(other),
{
    let next = m.forgotten(key);
    let owners = owners_of(m.at(key));
    assert forall|p: Pid, k: A|
        #![trigger next.keys_of(p).contains(k)]
        #![trigger has_pid(next.at(k), p)]
        next.keys_of(p).contains(k) <==> has_pid(next.at(k), p) by {
        assert(m.keys_of(p).contains(k) <==> has_pid(m.at(k), p));
        assert(m.keys_of(p).contains(key) <==> has_pid(m.at(key), p));
        if owners.contains(p) && m.pids.contains_key(p) && m.pids[p].remove(key) == Set::<
            A,
        >::empty() {
            assert(!m.pids[p].remove(key).contains(k));
        }
    }
}

/// A changed value keeps a registry consistent.
pub proof fn revalue_keeps_consistent<A, B>(m: RegistryModel<A, B>, key: A, pid: Pid, value: B)
    requires
        consistent(m),
    ensures
        consistent(m.revalued(key, pid, value)),
{
    let next = m.revalued(key, pid, value);
    if m.unique && has_pid(m.at(key), pid) {
        let entries = m.at(key);
        assert(m.entries.contains_key(key));
        let i = choose|i: int| 0 <= i < entries.len() && (#[trigger] entries[i]).0 == pid;
        assert(first_of(entries, pid, 0));
        let j = choose|j: int| first_of(entries, pid, j);
        let changed = entries.update(j, (pid, value));
        assert forall|p: Pid| has_pid(changed, p) <==> #[trigger] has_pid(entries, p) by {
            if has_pid(changed, p) {
                let x = choose|x: int| 0 <= x < changed.len() && (#[trigger] changed[x]).0 == p;
                assert(entries[x].0 == p);
            }
            if has_pid(entries, p) {
                let x = choose|x: int| 0 <= x < entries.len() && (#[trigger] entries[x]).0 == p;
                assert(changed[x].0 == p);
            }
        }
        assert forall|p: Pid, k: A|
            #![trigger next.keys_of(p).contains(k)]
            #![trigger has_pid(next.at(k), p)]
            next.keys_of(p).contains(k) <==> has_pid(next.at(k), p) by {
            assert(m.keys_of(p).contains(k) <==> has_pid(m.at(k), p));
            assert(next.keys_of(p) == m.keys_of(p));
        }
    }
}

/// What was registered is found: as the only entry where keys are unique, and
/// behind the older ones where they are not. The process is to be monitored,
/// unless it is already.
pub proof fn registered_is_found<A, B>(m: RegistryModel<A, B>, key: A, pid: Pid, value: B)
    requires
        consistent(m),
        m.accepts(key),
    ensures
        m.registered(key, pid, value).at(key) == m.at(key).push((pid, value)),
        m.unique ==> m.registered(key, pid, value).at(key) == seq![(pid, value)],
        m.registered(key, pid, value).keys_of(pid).contains(key),
        m.registered(key, pid, value).to_monitor().contains(pid)
            == !m.monitors.contains_key(pid),
        forall|other: A| other != key ==> m.registered(key, pid, value).at(other) == m.at(other),
{
    if m.unique {
        assert(m.registered(key, pid, value).at(key) =~= seq![(pid, value)]);
    }
}

/// How many entries of other processes stand before a place.
spec fn rank<B>(entries: Seq<(Pid, B)>, pid: Pid, i: int) -> nat {
    entries.take(i).filter(not_of(pid)).len()
}

proof fn lemma_rank_grows<B>(entries: Seq<(Pid, B)>, pid: Pid, i: int, j: int)
    requires
        0 <= i < j <= entries.len(),
        entries[i].0 != pid,
    ensures
        rank(entries, pid, i) < rank(entries, pid, j),
    decreases j,
{
    let k = j - 1;
    assert(entries.take(j) =~= entries.take(k).push(entries[k]));
    entries.take(k).lemma_filter_len_push(not_of(pid), entries[k]);
    if i < k {
        lemma_rank_grows(entries, pid, i, k);
    }
}

proof fn lemma_rank_reaches<B>(entries: Seq<(Pid, B)>, pid: Pid, n: int, r: int) -> (i: int)
    requires
        0 <= n <= entries.len(),
        0 <= r < rank(entries, pid, n),
    ensures
        0 <= i < n,
        entries[i].0 != pid,
        rank(entries, pid, i) == r,
    decreases n,
{
    if n == 0 {
        reveal(Seq::filter);
        assert(entries.take(0).filter(not_of(pid)).len() == 0);
        0
    } else {
        let k = n - 1;
        assert(entries.take(n) =~= entries.take(k).push(entries[k]));
        entries.take(k).lemma_filter_len_push(not_of(pid), entries[k]);
        if r < rank(entries, pid, k) {
            lemma_rank_reaches(entries, pid, k, r)
        } else {
            k
        }
    }
}

/// To unregister a process from all keys makes the number of entries fall by the
/// number of its own.
pub proof fn unregister_all_lowers_count<A, B>(m: RegistryModel<A, B>, pid: Pid)
    requires
        consistent(m),
        m.places().finite(),
    ensures
        m.unregistered_all(pid).places().finite(),
        m.unregistered_all(pid).places().len() + m.places_of(pid).len() == m.places().len(),
{
    let next = m.unregistered_all(pid);
    let own = m.places_of(pid);
    let kept = m.places().difference(own);
    let f = |p: (A, int)| (p.0, rank(m.entries[p.0], pid, p.1) as int);
    unregister_all_keeps_consistent(m, pid);
    m.places().lemma_len_filter(|p: (A, int)| m.entries[p.0][p.1].0 == pid);
    assert forall|p: (A, int)| kept.contains(p) implies next.places().contains(#[trigger] f(p)) by {
        let entries = m.entries[p.0];
        assert(entries == m.at(p.0));
        lemma_rank_grows(entries, pid, p.1, entries.len() as int);
        assert(entries.take(entries.len() as int) =~= entries);
        assert(next.at(p.0).len() > 0);
    }
    assert forall|a: (A, int), b: (A, int)|
        kept.contains(a) && kept.contains(b) && #[trigger] f(a) == #[trigger] f(b) implies a == b by {
        if a.1 < b.1 {
            lemma_rank_grows(m.entries[a.0], pid, a.1, b.1);
        } else if b.1 < a.1 {
            lemma_rank_grows(m.entries[a.0], pid, b.1, a.1);
        }
    }
    assert forall|q: (A, int)| #[trigger] next.places().contains(q) implies kept.map(f).contains(
        q,
    ) by {
        let entries = m.at(q.0);
        assert(next.at(q.0) == entries.filter(not_of(pid)));
        assert(entries.take(entries.len() as int) =~= entries);
        let i = lemma_rank_reaches(entries, pid, entries.len() as int, q.1);
        assert(m.entries.contains_key(q.0));
        assert(kept.contains((q.0, i)));
        assert(f((q.0, i)) == q);
    }
    assert(kept.map(f) =~= next.places());
    vstd::set_lib::lemma_map_size(kept, next.places(), f);
    assert(own.union(kept) =~= m.places());
    vstd::set_lib::lemma_set_disjoint_lens(own, kept);
}

/// The message that a process is down takes away what the process registered
/// under any key, and leaves what the others did.
pub proof fn down_ends_registrations<A, B>(
    m: RegistryModel<A, B>,
    monitor_ref: Ref,
    pid: Pid,
    reason: ExitModel,
)
    requires
        consistent(m),
    ensures
        ({
            let after = m.after_message(SystemModel::Down { monitor_ref, pid, reason });
            &&& consistent(after)
            &&& forall|key: A| !has_pid(#[trigger] after.at(key), pid)
            &&& forall|key: A| (#[trigger] after.at(key)) == m.at(key).filter(not_of(pid))
            &&& after.keys_of(pid) == Set::<A>::empty()
            &&& !after.monitors.contains_key(pid)
        }),
{
    unregister_all_keeps_consistent(m, pid);
}

/// Once the registry's own process monitors a process, the monitor is noted with
/// the latter. If it is not there, the registry's own process finds a message at
/// once that says so, and that ends its registrations.
pub proof fn registered_process_is_monitored(
    p: ProcessesModel,
    owner: Pid,
    pid: Pid,
    reference: Ref,
    atoms: &AtomTable,
)
    requires
        p.processes.contains_key(owner),
        p.processes[owner].open,
    ensures
        ({
            let after = monitoring(p, owner, pid, reference, atoms);
            let down = noproc(reference, pid);
            &&& p.processes.contains_key(pid) ==> {
                &&& after.processes[pid].monitored_by.contains_key(reference)
                &&& after.processes[pid].monitored_by[reference] == owner
            }
            &&& !p.processes.contains_key(pid)
                ==> after.processes[owner].mailbox.last() == system_bytes(atoms, down)
            &&& down is Down && down->pid == pid
        }),
{
}

/// The registrations of a process end with it. When a process ends that the
/// registry's own process monitors, the latter finds a message that, however it
/// reads it, leaves no entry of the process under any key.
pub proof fn registrations_end_with_process<A, B>(
    m: RegistryModel<A, B>,
    p: ProcessesModel,
    owner: Pid,
    reference: Ref,
    watchers: Seq<(Ref, Pid)>,
    linked: Seq<Pid>,
    node: &LocalNode,
    pid: Pid,
    reason: ExitModel,
)
    requires
        consistent(m),
        node.atoms.well_formed(),
        node.atoms.knows(pid.spec_node()),
        p.processes.contains_key(owner),
        p.processes[owner].open,
        distinct_keys(watchers),
        rows_map(watchers).contains_key(reference),
        rows_map(watchers)[reference] == owner,
        PortableSystem::fits(
            portable_system(
                &node.atoms,
                SystemModel::Down { monitor_ref: reference, pid, reason },
            ),
        ),
    ensures
        ({
            let after = after_lost_links(
                after_downs(p, watchers, node, pid, reason),
                linked,
                node,
                pid,
                reason,
            );
            let down = SystemModel::Down { monitor_ref: reference, pid, reason };
            let message = system_bytes(&node.atoms, down);
            &&& after.processes.contains_key(owner)
            &&& after.processes[owner].mailbox.contains(message)
            &&& PortableSystem::read(message) == Some(
                (portable_system(&node.atoms, down), Seq::<u8>::empty()),
            )
            &&& forall|told: SystemModel, key: A|
                knows_system(&node.atoms, told) && portable_system(&node.atoms, told)
                    == portable_system(&node.atoms, down) ==> !has_pid(
                    #[trigger] m.after_message(told).at(key),
                    pid,
                )
        }),
{
    let down = SystemModel::Down { monitor_ref: reference, pid, reason };
    let message = system_bytes(&node.atoms, down);
    lemma_rows_map(watchers);
    exit_reaches_watchers(p, watchers, node, pid, reason, place_of(watchers, reference));
    lost_links_keep_messages(
        after_downs(p, watchers, node, pid, reason),
        linked,
        node,
        pid,
        reason,
        owner,
        message,
    );
    PortableSystem::round_trip(portable_system(&node.atoms, down), Seq::empty());
    assert(message + Seq::<u8>::empty() =~= message);
    down_ends_registrations(m, reference, pid, reason);
    assert forall|told: SystemModel, key: A|
        knows_system(&node.atoms, told) && portable_system(&node.atoms, told) == portable_system(
            &node.atoms,
            down,
        ) implies !has_pid(#[trigger] m.after_message(told).at(key), pid) by {
        system_message_survives_wire(node.atoms, told, down);
    }
}

} // verus!
