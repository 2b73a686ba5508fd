//! What becomes of each entry of a registry.
use crate::base::exit_reason::ExitModel;
use crate::base::message::SystemModel;
use crate::base::pid::Pid;
use crate::base::reference::Ref;
use crate::registry::{first_of, has_pid, not_of, RegistryModel};
use vstd::prelude::*;

verus! {

/// The entries that a registry holds under a key.
pub open spec fn found<A, B>(m: RegistryModel<A, B>, key: A) -> Seq<(Pid, B)> {
    if m.entries.contains_key(key) {
        m.entries[key]
    } else {
        Seq::empty()
    }
}

/// Whether a registry notes the key for the process.
pub open spec fn noted<A, B>(m: RegistryModel<A, B>, pid: Pid, key: A) -> bool {
    m.pids.contains_key(pid) && m.pids[pid].contains(key)
}

/// Whether what is not about entries is as it was.
pub open spec fn same_rest<A, B>(m: RegistryModel<A, B>, n: RegistryModel<A, B>) -> bool {
    n.unique == m.unique && n.monitors == m.monitors
}

proof fn lemma_filter_same<B>(
    s: Seq<(Pid, B)>,
    p: spec_fn((Pid, B)) -> bool,
    q: spec_fn((Pid, B)) -> bool,
)
    requires
        forall|e: (Pid, B)| #[trigger] p(e) == q(e),
    ensures
        s.filter(p) == s.filter(q),
    decreases s.len(),
{
    reveal(Seq::filter);
    if s.len() > 0 {
        lemma_filter_same(s.drop_last(), p, q);
        assert(p(s.last()) == q(s.last()));
    }
}

/// What is looked up is what the registry holds, and what is counted are its
/// entries, all of them.
pub proof fn lookups_find_entries<A, B>(m: RegistryModel<A, B>, key: A, pid: Pid, place: (A, int))
    ensures
        m.at(key) == found(m, key),
        m.keys_of(pid).contains(key) <==> noted(m, pid, key),
        m.places().contains(place) <==> 0 <= place.1 < found(m, place.0).len(),
        m.places_of(pid).contains(place) <==> 0 <= place.1 < found(m, place.0).len() && found(
            m,
            place.0,
        )[place.1].0 == pid,
        m.to_monitor().contains(pid) <==> m.pids.contains_key(pid) && !m.monitors.contains_key(pid),
{
}

/// A process is registered with its value behind those that are under the key
/// already; but where keys are unique, only if there is none. Nothing else changes.
pub proof fn register_adds_the_entry<A, B>(
    m: RegistryModel<A, B>,
    key: A,
    pid: Pid,
    value: B,
    k: A,
    p: Pid,
)
    ensures
        m.accepts(key) <==> !(m.unique && m.entries.contains_key(key)),
        ({
            let after = m.registered(key, pid, value);
            &&& same_rest(m, after)
            &&& k != key ==> found(after, k) == found(m, k)
            &&& m.accepts(key) ==> {
                &&& found(after, key) == found(m, key).push((pid, value))
                &&& noted(after, p, k) <==> noted(m, p, k) || (p == pid && k == key)
            }
            &&& !m.accepts(key) ==> after == m
        }),
{
}

/// To unregister takes the entries of the process under the key, and no others,
/// and the key is no longer noted for it.
pub proof fn unregister_takes_own_entries<A, B>(
    m: RegistryModel<A, B>,
    key: A,
    pid: Pid,
    k: A,
    p: Pid,
)
    ensures
        ({
            let after = m.unregistered(key, pid);
            &&& same_rest(m, after)
            &&& found(after, key) == found(m, key).filter(|e: (Pid, B)| e.0 != pid)
            &&& k != key ==> found(after, k) == found(m, k)
            &&& noted(after, p, k) <==> noted(m, p, k) && !(p == pid && k == key)
        }),
{
    lemma_filter_same(found(m, key), not_of(pid), |e: (Pid, B)| e.0 != pid);
    reveal(Seq::filter);
    let after = m.unregistered(key, pid);
    if noted(m, p, k) && !(p == pid && k == key) && p == pid {
        assert(m.pids[p].remove(key).contains(k));
        assert(!Set::<A>::empty().contains(k));
    }
}

/// To unregister a process altogether takes its entries under the keys that are
/// noted for it, and no others, and no key is noted for it any more.
pub proof fn unregister_all_takes_own_entries<A, B>(
    m: RegistryModel<A, B>,
    pid: Pid,
    k: A,
    p: Pid,
)
    ensures
        ({
            let after = m.unregistered_all(pid);
            &&& same_rest(m, after)
            &&& noted(m, pid, k) ==> found(after, k) == found(m, k).filter(
                |e: (Pid, B)| e.0 != pid,
            )
            &&& !noted(m, pid, k) ==> found(after, k) == found(m, k)
            &&& noted(after, p, k) <==> noted(m, p, k) && p != pid
        }),
{
    lemma_filter_same(found(m, k), not_of(pid), |e: (Pid, B)| e.0 != pid);
    reveal(Seq::filter);
}

/// A process that is down is unregistered altogether, and its monitor goes. Other
/// monitors stay, and an exit signal changes nothing.
pub proof fn down_unregisters<A, B>(
    m: RegistryModel<A, B>,
    monitor_ref: Ref,
    pid: Pid,
    reason: ExitModel,
    p: Pid,
)
    ensures
        ({
            let after = m.after_message(SystemModel::Down { monitor_ref, pid, reason });
            &&& after.unique == m.unique
            &&& after.entries == m.unregistered_all(pid).entries
            &&& after.pids == m.unregistered_all(pid).pids
            &&& after.monitors.contains_key(p) <==> m.monitors.contains_key(p) && p != pid
            &&& after.monitors.contains_key(p) ==> after.monitors[p] == m.monitors[p]
        }),
        m.after_message(SystemModel::Exit { from: pid, reason }) == m,
{
}

/// To forget a key takes all its entries, and the key is noted for none of their
/// processes any more.
pub proof fn forget_takes_key<A, B>(m: RegistryModel<A, B>, key: A, k: A, p: Pid)
    ensures
        ({
            let after = m.forgotten(key);
            &&& same_rest(m, after)
            &&& !after.entries.contains_key(key)
            &&& k != key ==> found(after, k) == found(m, k)
            &&& noted(after, p, k) <==> noted(m, p, k) && !(k == key && exists|i: int|
                0 <= i < found(m, key).len() && (#[trigger] found(m, key)[i]).0 == p)
        }),
{
    let after = m.forgotten(key);
    assert(m.at(key) == found(m, key));
    assert(has_pid(m.at(key), p) <==> exists|i: int|
        0 <= i < found(m, key).len() && (#[trigger] found(m, key)[i]).0 == p);
    if noted(m, p, k) && k != key {
        assert(m.pids[p].remove(key).contains(k));
        assert(!Set::<A>::empty().contains(k));
    }
}

/// To update replaces the value of the first entry of the process under the key,
/// in its place, where keys are unique. Nothing else changes, and nothing at all
/// otherwise.
pub proof fn update_replaces_value<A, B>(
    m: RegistryModel<A, B>,
    key: A,
    pid: Pid,
    value: B,
    i: int,
    k: A,
)
    requires
        0 <= i <= found(m, key).len(),
        forall|j: int| 0 <= j < i ==> (#[trigger] found(m, key)[j]).0 != pid,
        i < found(m, key).len() ==> found(m, key)[i].0 == pid,
    ensures
        ({
            let after = m.revalued(key, pid, value);
            &&& same_rest(m, after)
            &&& after.pids == m.pids
            &&& k != key ==> found(after, k) == found(m, k)
            &&& m.unique && i < found(m, key).len() ==> {
                &&& has_pid(m.at(key), pid)
                &&& found(after, key) == found(m, key).update(i, (pid, value))
                &&& m.at(key)[choose|j: int| first_of(m.at(key), pid, j)] == found(m, key)[i]
            }
            &&& i == found(m, key).len() ==> !has_pid(m.at(key), pid)
            &&& !m.unique || i == found(m, key).len() ==> after == m
        }),
{
    let entries = found(m, key);
    assert(m.at(key) == entries);
    if i < entries.len() {
        assert(first_of(entries, pid, i));
        let j = choose|j: int| first_of(entries, pid, j);
        assert(first_of(entries, pid, j));
        assert(i == j);
        assert(has_pid(entries, pid));
    } else if has_pid(entries, pid) {
        let j = choose|j: int| 0 <= j < entries.len() && (#[trigger] entries[j]).0 == pid;
        assert(entries[j].0 != pid);
    }
}

} // verus!
