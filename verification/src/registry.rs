//! A local registry of processes under keys.
use crate::atom::AtomTable;
use crate::base::message::{SystemMessage, SystemModel};
use crate::base::node::LocalNode;
use crate::base::pid::Pid;
use crate::base::reference::Ref;
use crate::data::{next_number, push_one, Data};
use crate::directory::{Directory, Key};
use crate::registry::laws::{
    forget_keeps_consistent, monitors_keep_consistent, register_keeps_consistent,
    revalue_keeps_consistent,
    unregister_all_keeps_consistent, unregister_all_lowers_count, unregister_keeps_consistent,
};
use crate::runtime::context::{monitoring, Context};
use crate::runtime::process::ProcessRegistry;
use crate::table::{distinct_keys, lemma_rows_push, rows_map, ListSet};
use crate::wire::primitive::Wire;
use crate::wire::system::{
    after_reading_system, knows_system, portable_system, PortableSystem,
};
use vstd::prelude::*;

pub mod entries;
pub mod laws;

verus! {

/// How many processes a key can stand for.
#[derive(Clone, Copy, Debug, PartialEq, Eq, Structural)]
pub enum RegistryType {
    /// One.
    Unique,
    /// Any number.
    Duplicate,
}

/// What can go wrong with a registration.
#[derive(Clone, Copy, Debug, PartialEq, Eq, Structural)]
pub enum RegistryError {
    /// The key stands for a process already.
    AlreadyRegistered,
    /// There is no such key.
    NotFound,
}

impl RegistryError {
    /// The error as text.
    pub fn display(&self) -> (r: String)
        ensures
            r@ == (match self {
                RegistryError::AlreadyRegistered => "key already registered"@,
                RegistryError::NotFound => "key not found"@,
            }),
    {
        match self {
            RegistryError::AlreadyRegistered => "key already registered".to_owned(),
            RegistryError::NotFound => "key not found".to_owned(),
        }
    }
}

/// What a registry holds: the processes and values under each key, oldest first,
/// the keys of each process, and the monitors of processes.
#[verifier::reject_recursive_types(A)]
#[verifier::reject_recursive_types(B)]
pub struct RegistryModel<A, B> {
    pub unique: bool,
    pub entries: Map<A, Seq<(Pid, B)>>,
    pub pids: Map<Pid, Set<A>>,
    pub monitors: Map<Pid, Ref>,
}

/// Selects the entries of other processes.
pub open spec fn not_of<B>(pid: Pid) -> spec_fn((Pid, B)) -> bool {
    |e: (Pid, B)| e.0 != pid
}

/// Whether an entry is one of the process.
pub open spec fn has_pid<B>(entries: Seq<(Pid, B)>, pid: Pid) -> bool {
    exists|i: int| 0 <= i < entries.len() && (#[trigger] entries[i]).0 == pid
}

/// Whether the first entry of a process stands at the place.
pub open spec fn first_of<B>(entries: Seq<(Pid, B)>, pid: Pid, i: int) -> bool {
    &&& 0 <= i < entries.len()
    &&& entries[i].0 == pid
    &&& forall|j: int| 0 <= j < i ==> (#[trigger] entries[j]).0 != pid
}

/// The keys of which a process lost its entries. A key without entries goes.
pub open spec fn without_pid<A, B>(
    entries: Map<A, Seq<(Pid, B)>>,
    keys: Set<A>,
    pid: Pid,
) -> Map<A, Seq<(Pid, B)>> {
    Map::new(
        |key: A|
            entries.contains_key(key) && !(keys.contains(key) && entries[key].filter(
                not_of(pid),
            ).len() == 0),
        |key: A|
            if keys.contains(key) {
                entries[key].filter(not_of(pid))
            } else {
                entries[key]
            },
    )
}

/// The keys of processes of which some lost a key. A process without keys goes.
pub open spec fn without_key<A>(pids: Map<Pid, Set<A>>, owners: Set<Pid>, key: A) -> Map<
    Pid,
    Set<A>,
> {
    Map::new(
        |pid: Pid|
            pids.contains_key(pid) && !(owners.contains(pid) && pids[pid].remove(key) == Set::<
                A,
            >::empty()),
        |pid: Pid|
            if owners.contains(pid) {
                pids[pid].remove(key)
            } else {
                pids[pid]
            },
    )
}

/// The processes of entries.
pub open spec fn owners_of<B>(entries: Seq<(Pid, B)>) -> Set<Pid> {
    Set::new(|pid: Pid| has_pid(entries, pid))
}

impl<A, B> RegistryModel<A, B> {
    /// The entries under a key.
    pub open spec fn at(self, key: A) -> Seq<(Pid, B)> {
        if self.entries.contains_key(key) {
            self.entries[key]
        } else {
            Seq::empty()
        }
    }

    /// The keys of a process.
    pub open spec fn keys_of(self, pid: Pid) -> Set<A> {
        if self.pids.contains_key(pid) {
            self.pids[pid]
        } else {
            Set::empty()
        }
    }

    /// Whether a key can stand for one more process.
    pub open spec fn accepts(self, key: A) -> bool {
        !self.unique || !self.entries.contains_key(key)
    }

    /// With one entry more, where the key can stand for one more process.
    pub open spec fn registered(self, key: A, pid: Pid, value: B) -> RegistryModel<A, B> {
        if self.accepts(key) {
            RegistryModel {
                entries: self.entries.insert(key, self.at(key).push((pid, value))),
                pids: self.pids.insert(pid, self.keys_of(pid).insert(key)),
                ..self
            }
        } else {
            self
        }
    }

    /// Without the entries of a process under a key.
    pub open spec fn unregistered(self, key: A, pid: Pid) -> RegistryModel<A, B> {
        RegistryModel {
            entries: without_pid(self.entries, set![key], pid),
            pids: without_key(self.pids, set![pid], key),
            ..self
        }
    }

    /// Without the entries of a process.
    pub open spec fn unregistered_all(self, pid: Pid) -> RegistryModel<A, B> {
        RegistryModel {
            entries: without_pid(self.entries, self.keys_of(pid), pid),
            pids: self.pids.remove(pid),
            ..self
        }
    }

    /// The processes that are to be monitored: they have entries and no monitor.
    pub open spec fn to_monitor(self) -> Set<Pid> {
        self.pids.dom().difference(self.monitors.dom())
    }

    /// After a message of the runtime: a process that is down has no entries and
    /// no monitor.
    pub open spec fn after_message(self, message: SystemModel) -> RegistryModel<A, B> {
        match message {
            SystemModel::Down { monitor_ref, pid, reason } => RegistryModel {
                monitors: self.monitors.remove(pid),
                ..self.unregistered_all(pid)
            },
            SystemModel::Exit { from, reason } => self,
        }
    }

    /// Without a key.
    pub open spec fn forgotten(self, key: A) -> RegistryModel<A, B> {
        RegistryModel {
            entries: self.entries.remove(key),
            pids: without_key(self.pids, owners_of(self.at(key)), key),
            ..self
        }
    }

    /// With the value of the first entry of a process under a key replaced, in a
    /// registry of unique keys.
    pub open spec fn revalued(self, key: A, pid: Pid, value: B) -> RegistryModel<A, B> {
        if self.unique && has_pid(self.at(key), pid) {
            let i = choose|i: int| first_of(self.at(key), pid, i);
            RegistryModel {
                entries: self.entries.insert(key, self.at(key).update(i, (pid, value))),
                ..self
            }
        } else {
            self
        }
    }

    /// The places of entries: a key, and a place under it.
    pub open spec fn places(self) -> Set<(A, int)> {
        Set::new(
            |p: (A, int)| self.entries.contains_key(p.0) && 0 <= p.1 < self.entries[p.0].len(),
        )
    }

    /// The places of the entries of a process.
    pub open spec fn places_of(self, pid: Pid) -> Set<(A, int)> {
        self.places().filter(|p: (A, int)| self.entries[p.0][p.1].0 == pid)
    }
}

/// Whether every key stands for a process, and for one alone where keys are
/// unique, and the keys of each process are exactly those it has entries under.
pub open spec fn consistent<A, B>(m: RegistryModel<A, B>) -> bool {
    &&& forall|key: A| #[trigger]
        m.entries.contains_key(key) ==> m.entries[key].len() > 0 && (m.unique ==> m.entries[key].len()
            == 1)
    &&& forall|pid: Pid, key: A|
        #![trigger m.keys_of(pid).contains(key)]
        #![trigger has_pid(m.at(key), pid)]
        m.keys_of(pid).contains(key) <==> has_pid(m.at(key), pid)
    &&& forall|pid: Pid| #[trigger] m.pids.contains_key(pid) ==> m.pids[pid] != Set::<A>::empty()
}

/// A registry of processes, with values, under keys. A registry with a process of
/// its own monitors those that it registers: what a process registered goes when
/// the process ends.
pub struct Registry<K: Key, V: Data> {
    name: String,
    registry_type: RegistryType,
    entries: Directory<K, Vec<(Pid, V)>>,
    pid_to_keys: Directory<Pid, ListSet<K>>,
    monitors: Directory<Pid, Ref>,
}

impl<K: Key, V: Data> DeepView for Registry<K, V> {
    type V = RegistryModel<K::V, V::V>;

    closed spec fn deep_view(&self) -> RegistryModel<K::V, V::V> {
        RegistryModel {
            unique: self.registry_type == RegistryType::Unique,
            entries: self.entries.deep_view(),
            pids: self.pid_to_keys.deep_view(),
            monitors: self.monitors.deep_view(),
        }
    }
}

fn others<V: Data>(entries: &Vec<(Pid, V)>, pid: Pid) -> (r: Vec<(Pid, V)>)
    ensures
        r.deep_view() == entries.deep_view().filter(not_of(pid)),
{
    let ghost all = entries.deep_view();
    let ghost keep = not_of::<V::V>(pid);
    let mut r: Vec<(Pid, V)> = Vec::new();
    let mut i: usize = 0;
    proof {
        reveal(Seq::filter);
        assert(r.deep_view() =~= all.take(0).filter(keep));
    }
    while i < entries.len()
        invariant
            i <= entries.len(),
            all == entries.deep_view(),
            keep == not_of::<V::V>(pid),
            r.deep_view() == all.take(i as int).filter(keep),
        decreases entries.len() - i,
    {
        proof {
            assert(all.take(i + 1) =~= all.take(i as int).push(all[i as int]));
            all.take(i as int).lemma_filter_push(all[i as int], keep);
        }
        if entries[i].0 != pid {
            push_one(&mut r, entries[i].duplicate());
        }
        i += 1;
    }
    assert(all.take(all.len() as int) =~= all);
    r
}

impl<K: Key, V: Data> Registry<K, V> {
    /// The registry is in order: every key stands for processes, and the keys of
    /// each process are those that it has entries under.
    pub closed spec fn well_formed(&self) -> bool {
        self.filed() && consistent(self.deep_view())
    }

    /// The directories are in order.
    closed spec fn filed(&self) -> bool {
        &&& self.entries.well_formed()
        &&& self.pid_to_keys.well_formed()
        &&& self.monitors.well_formed()
    }

    /// A registry that is in order is consistent.
    pub proof fn lemma_consistent(&self)
        requires
            self.well_formed(),
        ensures
            consistent(self.deep_view()),
    {
    }

    fn make(name: &str, registry_type: RegistryType) -> (r: Self)
        ensures
            r.well_formed(),
            r.deep_view() == (RegistryModel::<K::V, V::V> {
                unique: registry_type == RegistryType::Unique,
                entries: Map::empty(),
                pids: Map::empty(),
                monitors: Map::empty(),
            }),
    {
        Registry {
            name: name.to_owned(),
            registry_type,
            entries: Directory::new(),
            pid_to_keys: Directory::new(),
            monitors: Directory::new(),
        }
    }

    /// A registry in which a key stands for at most one process.
    pub fn new_unique(name: &str) -> (r: Self)
        ensures
            r.well_formed(),
            r.deep_view() == (RegistryModel::<K::V, V::V> {
                unique: true,
                entries: Map::empty(),
                pids: Map::empty(),
                monitors: Map::empty(),
            }),
    {
        Registry::make(name, RegistryType::Unique)
    }

    /// A registry in which a key can stand for many processes.
    pub fn new_duplicate(name: &str) -> (r: Self)
        ensures
            r.well_formed(),
            r.deep_view() == (RegistryModel::<K::V, V::V> {
                unique: false,
                entries: Map::empty(),
                pids: Map::empty(),
                monitors: Map::empty(),
            }),
    {
        Registry::make(name, RegistryType::Duplicate)
    }

    /// Registers a process under a key, with a value. In a registry of unique
    /// keys this fails where the key stands for a process already.
    pub fn register(&mut self, key: K, pid: Pid, value: V) -> (r: Result<(), RegistryError>)
        requires
            old(self).well_formed(),
        ensures
            final(self).well_formed(),
            final(self).deep_view() == old(self).deep_view().registered(
                key.deep_view(),
                pid,
                value.deep_view(),
            ),
            r == (if old(self).deep_view().accepts(key.deep_view()) {
                Ok::<(), RegistryError>(())
            } else {
                Err::<(), RegistryError>(RegistryError::AlreadyRegistered)
            }),
    {
        let ghost before = self.deep_view();
        let ghost goal = before.registered(key.deep_view(), pid, value.deep_view());
        match self.registry_type {
            RegistryType::Unique => {
                if self.entries.contains_key(&key) {
                    return Err(RegistryError::AlreadyRegistered);
                }
            },
            RegistryType::Duplicate => {},
        }
        let mut entries = match self.entries.remove(&key) {
            Some(entries) => entries,
            None => {
                let entries: Vec<(Pid, V)> = Vec::new();
                assert(entries.deep_view() =~= Seq::empty());
                entries
            },
        };
        push_one(&mut entries, (pid, value));
        self.entries.insert(key.duplicate(), entries);
        let mut keys = match self.pid_to_keys.remove(&pid) {
            Some(keys) => keys,
            None => ListSet::new(),
        };
        keys.insert(key);
        self.pid_to_keys.insert(pid, keys);
        proof {
            assert(self.deep_view().entries =~= goal.entries);
            assert(self.deep_view().pids =~= goal.pids);
            register_keeps_consistent(before, key.deep_view(), pid, value.deep_view());
        }
        Ok(())
    }

    /// The processes that are to be monitored, each once: they have entries and no
    /// monitor.
    pub fn to_monitor(&self) -> (r: Vec<Pid>)
        requires
            self.well_formed(),
        ensures
            r@.no_duplicates(),
            r@.to_set() == self.deep_view().to_monitor(),
    {
        let pids = self.pid_to_keys.keys();
        let ghost all = pids@;
        let ghost wanted = |pid: Pid| !self.deep_view().monitors.contains_key(pid);
        let mut r: Vec<Pid> = Vec::new();
        let mut i: usize = 0;
        proof {
            assert(pids.deep_view() =~= all);
            reveal(Seq::filter);
            assert(r@ =~= all.take(0).filter(wanted));
        }
        while i < pids.len()
            invariant
                i <= pids.len(),
                all == pids@,
                self.well_formed(),
                wanted == (|pid: Pid| !self.deep_view().monitors.contains_key(pid)),
                r@ == all.take(i as int).filter(wanted),
            decreases pids.len() - i,
        {
            proof {
                assert(all.take(i + 1) =~= all.take(i as int).push(all[i as int]));
                all.take(i as int).lemma_filter_push(all[i as int], wanted);
            }
            if !self.monitors.contains_key(&pids[i]) {
                r.push(pids[i]);
            }
            i += 1;
        }
        proof {
            assert(all.take(all.len() as int) =~= all);
            lemma_picked(all, wanted);
            assert(r@.to_set() =~= self.deep_view().to_monitor());
        }
        r
    }

    /// Has the registry's own process `owner` monitor a process, unless it does
    /// already, and returns the new monitor. When the process ends, the owner is
    /// told.
    pub fn monitor(
        &mut self,
        pid: Pid,
        owner: &Context,
        processes: &mut ProcessRegistry,
        node: &mut LocalNode,
    ) -> (r: Option<Ref>)
        requires
            old(self).well_formed(),
            owner.in_registry(old(processes)),
            old(node).atoms.knows(pid.spec_node()),
        ensures
            final(self).well_formed(),
            final(processes).well_formed(),
            ({
                let reference = Ref(old(node).next_ref);
                if old(self).deep_view().monitors.contains_key(pid) {
                    &&& r is None
                    &&& *final(self) == *old(self)
                    &&& *final(processes) == *old(processes)
                    &&& *final(node) == *old(node)
                } else {
                    &&& r == Some(reference)
                    &&& final(self).deep_view() == (RegistryModel {
                        monitors: old(self).deep_view().monitors.insert(pid, reference),
                        ..old(self).deep_view()
                    })
                    &&& final(processes).deep_view() == monitoring(
                        old(processes).deep_view(),
                        owner.me(),
                        pid,
                        reference,
                        &old(node).atoms,
                    )
                    &&& *final(node) == (LocalNode {
                        next_ref: next_number(old(node).next_ref),
                        ..*old(node)
                    })
                }
            }),
    {
        if self.monitors.contains_key(&pid) {
            return None;
        }
        match owner.monitor(processes, node, pid) {
            Ok(reference) => {
                let ghost before = self.deep_view();
                self.monitors.insert(pid, reference);
                proof {
                    monitors_keep_consistent(before, self.deep_view().monitors);
                }
                Some(reference)
            },
            Err(_) => None,
        }
    }

    /// Handles a message of the runtime to the registry's own process: a process
    /// that is down loses all its entries and its monitor.
    pub fn process_down(&mut self, message: &SystemMessage)
        requires
            old(self).well_formed(),
        ensures
            final(self).well_formed(),
            final(self).deep_view() == old(self).deep_view().after_message(message.deep_view()),
    {
        match message {
            SystemMessage::Down { monitor_ref: _, pid, reason: _ } => {
                self.unregister_all(*pid);
                let ghost before = self.deep_view();
                self.monitors.remove(pid);
                proof {
                    monitors_keep_consistent(before, self.deep_view().monitors);
                }
            },
            SystemMessage::Exit { from: _, reason: _ } => {},
        }
    }

    /// Handles bytes in the mailbox of the registry's own process. Those that are
    /// no message of the runtime are passed over.
    pub fn handle_info(&mut self, atoms: &mut AtomTable, data: &[u8])
        requires
            old(self).well_formed(),
            old(atoms).well_formed(),
            old(atoms).room_for(1),
        ensures
            final(self).well_formed(),
            final(atoms).well_formed(),
            match PortableSystem::read(data@) {
                Some((model, rest)) => {
                    &&& final(atoms)@ == after_reading_system(old(atoms)@, model)
                    &&& exists|message: SystemModel|
                        {
                            &&& knows_system(final(atoms), message)
                            &&& portable_system(final(atoms), message) == model
                            &&& final(self).deep_view() == #[trigger] old(
                                self,
                            ).deep_view().after_message(message)
                        }
                },
                None => {
                    &&& final(atoms)@ == old(atoms)@
                    &&& *final(self) == *old(self)
                },
            },
    {
        match SystemMessage::decode(atoms, data) {
            Some(message) => self.process_down(&message),
            None => {},
        }
    }

    /// Takes out the entries of a process under a key, and leaves its keys alone.
    fn drop_entries(&mut self, key: &K, pid: Pid)
        requires
            old(self).filed(),
        ensures
            final(self).filed(),
            final(self).deep_view() == (RegistryModel {
                entries: without_pid(old(self).deep_view().entries, set![key.deep_view()], pid),
                ..old(self).deep_view()
            }),
    {
        let ghost before = self.deep_view();
        if let Some(entries) = self.entries.remove(key) {
            let rest = others(&entries, pid);
            if rest.len() > 0 {
                self.entries.insert(key.duplicate(), rest);
            }
        }
        assert(self.deep_view().entries =~= without_pid(
            before.entries,
            set![key.deep_view()],
            pid,
        ));
    }

    /// Takes a key from a process, and leaves the entries alone.
    fn drop_key(&mut self, key: &K, pid: Pid)
        requires
            old(self).filed(),
        ensures
            final(self).filed(),
            final(self).deep_view() == (RegistryModel {
                pids: without_key(old(self).deep_view().pids, set![pid], key.deep_view()),
                ..old(self).deep_view()
            }),
    {
        let ghost before = self.deep_view();
        if let Some(keys) = self.pid_to_keys.remove(&pid) {
            let mut keys = keys;
            keys.remove(key);
            if !keys.is_empty() {
                self.pid_to_keys.insert(pid, keys);
            }
        }
        assert(self.deep_view().pids =~= without_key(before.pids, set![pid], key.deep_view()));
    }

    /// Takes out the entries of a process under a key.
    pub fn unregister(&mut self, key: &K, pid: Pid)
        requires
            old(self).well_formed(),
        ensures
            final(self).well_formed(),
            final(self).deep_view() == old(self).deep_view().unregistered(key.deep_view(), pid),
    {
        let ghost before = self.deep_view();
        self.drop_entries(key, pid);
        self.drop_key(key, pid);
        proof {
            unregister_keeps_consistent(before, key.deep_view(), pid);
        }
    }

    /// Takes out all entries of a process. Those of the others stay, in order, and
    /// the number of entries falls by that of the process's own.
    pub fn unregister_all(&mut self, pid: Pid)
        requires
            old(self).well_formed(),
        ensures
            final(self).well_formed(),
            final(self).deep_view() == old(self).deep_view().unregistered_all(pid),
            final(self).deep_view().keys_of(pid) == Set::<K::V>::empty(),
            forall|other: Pid|
                other != pid ==> final(self).deep_view().keys_of(other) == old(
                    self,
                ).deep_view().keys_of(other),
            forall|key: K::V| (#[trigger] final(self).deep_view().at(key)) == old(
                self,
            ).deep_view().at(key).filter(not_of(pid)),
            forall|key: K::V| #[trigger]
                final(self).deep_view().entries.contains_key(key) <==> final(self).deep_view().at(
                    key,
                ).len() > 0,
            final(self).deep_view().places().finite(),
            final(self).deep_view().places().len() + old(self).deep_view().places_of(pid).len()
                == old(self).deep_view().places().len(),
    {
        let ghost before = self.deep_view();
        let ghost unchanged = *self;
        let keys = match self.pid_to_keys.remove(&pid) {
            Some(keys) => keys,
            None => ListSet::new(),
        };
        let n: usize = keys.len();
        let ghost order = keys.order();
        let mut i: usize = 0;
        assert(without_pid(before.entries, order.take(0).to_set(), pid) =~= before.entries);
        while i < n
            invariant
                i <= n,
                n == order.len(),
                order == keys.order(),
                order.no_duplicates(),
                self.filed(),
                self.deep_view().unique == before.unique,
                self.deep_view().monitors == before.monitors,
                self.deep_view().pids == before.pids.remove(pid),
                self.deep_view().entries == without_pid(
                    before.entries,
                    order.take(i as int).to_set(),
                    pid,
                ),
            decreases n - i,
        {
            let ghost done = order.take(i as int).to_set();
            let ghost key = order[i as int];
            proof {
                assert(!done.contains(key)) by {
                    if done.contains(key) {
                        let j = choose|j: int| 0 <= j < i && order.take(i as int)[j] == key;
                        assert(order[j] == order[i as int]);
                    }
                }
                assert(order.take(i + 1) =~= order.take(i as int).push(key));
                order.take(i as int).lemma_push_to_set_commute(key);
                assert(without_pid(
                    without_pid(before.entries, done, pid),
                    set![key],
                    pid,
                ) =~= without_pid(before.entries, done.insert(key), pid));
            }
            self.drop_entries(keys.at(i), pid);
            i += 1;
        }
        proof {
            assert(order.take(order.len() as int) =~= order);
            assert(order.to_set() =~= before.keys_of(pid));
            unregister_all_keeps_consistent(before, pid);
            unchanged.lemma_places();
            unregister_all_lowers_count(before, pid);
        }
    }

    /// The processes and values under a key, oldest first.
    pub fn lookup(&self, key: &K) -> (r: Vec<(Pid, V)>)
        requires
            self.well_formed(),
        ensures
            r.deep_view() == self.deep_view().at(key.deep_view()),
    {
        match self.entries.get(key) {
            Some(entries) => entries.duplicate(),
            None => {
                let r: Vec<(Pid, V)> = Vec::new();
                assert(r.deep_view() =~= Seq::empty());
                r
            },
        }
    }

    /// The oldest process and value under a key, if there is one.
    pub fn lookup_one(&self, key: &K) -> (r: Option<(Pid, V)>)
        requires
            self.well_formed(),
        ensures
            match r {
                Some(e) => {
                    &&& self.deep_view().at(key.deep_view()).len() > 0
                    &&& e.deep_view() == self.deep_view().at(key.deep_view())[0]
                },
                None => self.deep_view().at(key.deep_view()).len() == 0,
            },
    {
        match self.entries.get(key) {
            Some(entries) => {
                if entries.len() > 0 {
                    assert(entries.deep_view()[0] == entries@[0].deep_view());
                    Some(entries[0].duplicate())
                } else {
                    None
                }
            },
            None => None,
        }
    }

    /// The keys of a process, each once.
    pub fn keys(&self, pid: Pid) -> (r: Vec<K>)
        requires
            self.well_formed(),
        ensures
            r.deep_view().no_duplicates(),
            r.deep_view().to_set() == self.deep_view().keys_of(pid),
    {
        match self.pid_to_keys.get(&pid) {
            Some(keys) => keys.to_vec(),
            None => {
                let r: Vec<K> = Vec::new();
                assert(r.deep_view().to_set() =~= Set::empty());
                r
            },
        }
    }

    /// Calls back with the processes and values under a key, oldest first, if
    /// there are any, and returns what the callback returns.
    pub fn dispatch<R, F: FnOnce(&Vec<(Pid, V)>) -> R>(&self, key: &K, callback: F) -> (r: Option<
        R,
    >)
        requires
            self.well_formed(),
            forall|pairs: &Vec<(Pid, V)>|
                pairs.deep_view() == self.deep_view().at(key.deep_view()) ==> callback.requires(
                    (pairs,),
                ),
        ensures
            match r {
                Some(x) => {
                    &&& self.deep_view().entries.contains_key(key.deep_view())
                    &&& exists|pairs: &Vec<(Pid, V)>|
                        pairs.deep_view() == self.deep_view().at(key.deep_view())
                            && callback.ensures((pairs,), x)
                },
                None => !self.deep_view().entries.contains_key(key.deep_view()),
            },
    {
        match self.entries.get(key) {
            Some(entries) => {
                let pairs = entries.duplicate();
                Some(callback(&pairs))
            },
            None => None,
        }
    }

    /// Calls back with the processes and values under a key, if there are any,
    /// and returns the processes that the callback picks.
    pub fn dispatch_filter<F: FnOnce(&Vec<(Pid, V)>) -> Vec<Pid>>(&self, key: &K, callback: F)
        -> (r: Option<Vec<Pid>>)
        requires
            self.well_formed(),
            forall|pairs: &Vec<(Pid, V)>|
                pairs.deep_view() == self.deep_view().at(key.deep_view()) ==> callback.requires(
                    (pairs,),
                ),
        ensures
            match r {
                Some(picked) => {
                    &&& self.deep_view().entries.contains_key(key.deep_view())
                    &&& exists|pairs: &Vec<(Pid, V)>|
                        pairs.deep_view() == self.deep_view().at(key.deep_view())
                            && callback.ensures((pairs,), picked)
                },
                None => !self.deep_view().entries.contains_key(key.deep_view()),
            },
    {
        self.dispatch(key, callback)
    }

    /// The number of entries under a key.
    pub fn count(&self, key: &K) -> (r: usize)
        requires
            self.well_formed(),
        ensures
            r == self.deep_view().at(key.deep_view()).len(),
    {
        match self.entries.get(key) {
            Some(entries) => entries.len(),
            None => 0,
        }
    }

    proof fn lemma_places(&self)
        requires
            self.filed(),
        ensures
            self.deep_view().places().finite(),
            self.deep_view().places().len() == entries_size(self.entries.rows()),
    {
        let rows = self.entries.rows();
        self.entries.lemma_distinct();
        lemma_entries_size(rows);
        assert(self.deep_view().places() =~= places_in(rows_map(rows)));
    }

    /// The number of entries, or the greatest number where there are more.
    pub fn count_all(&self) -> (r: usize)
        requires
            self.well_formed(),
        ensures
            self.deep_view().places().finite(),
            r == (if self.deep_view().places().len() <= usize::MAX {
                self.deep_view().places().len()
            } else {
                usize::MAX as nat
            }),
    {
        let ghost rows = self.entries.rows();
        let n: usize = self.entries.len();
        let mut total: usize = 0;
        let mut i: usize = 0;
        assert(rows.take(0) =~= Seq::empty());
        while i < n
            invariant
                i <= n,
                n == rows.len(),
                rows == self.entries.rows(),
                total == (if entries_size(rows.take(i as int)) <= usize::MAX {
                    entries_size(rows.take(i as int))
                } else {
                    usize::MAX as nat
                }),
            decreases n - i,
        {
            proof {
                assert(rows.take(i + 1).drop_last() =~= rows.take(i as int));
                assert(rows.take(i + 1).last() == rows[i as int]);
            }
            total = total.saturating_add(self.entries.value_at(i).len());
            i += 1;
        }
        proof {
            assert(rows.take(n as int) =~= rows);
            self.lemma_places();
        }
        total
    }

    /// Whether a key stands for a process.
    pub fn has_key(&self, key: &K) -> (r: bool)
        requires
            self.well_formed(),
        ensures
            r == self.deep_view().entries.contains_key(key.deep_view()),
            r == (self.deep_view().at(key.deep_view()).len() > 0),
    {
        self.entries.contains_key(key)
    }

    /// The keys that stand for processes, each once.
    pub fn all_keys(&self) -> (r: Vec<K>)
        requires
            self.well_formed(),
        ensures
            r.deep_view().no_duplicates(),
            r.deep_view().to_set() == self.deep_view().entries.dom(),
    {
        self.entries.keys()
    }

    /// Replaces the value of a process under a key, in a registry of unique
    /// keys, and returns the old one.
    pub fn update_value(&mut self, key: &K, pid: Pid, new_value: V) -> (r: Option<V>)
        requires
            old(self).well_formed(),
        ensures
            final(self).well_formed(),
            final(self).deep_view() == old(self).deep_view().revalued(
                key.deep_view(),
                pid,
                new_value.deep_view(),
            ),
            ({
                let m = old(self).deep_view();
                let entries = m.at(key.deep_view());
                match r {
                    Some(value) => {
                        &&& m.unique && has_pid(entries, pid)
                        &&& value.deep_view() == entries[choose|i: int|
                            first_of(entries, pid, i)].1
                    },
                    None => !m.unique || !has_pid(entries, pid),
                }
            }),
    {
        let ghost before = self.deep_view();
        if self.registry_type != RegistryType::Unique {
            return None;
        }
        let place = match self.find_pid(key, pid) {
            Some(place) => place,
            None => {
                return None;
            },
        };
        let ghost all = before.at(key.deep_view());
        match self.entries.remove(key) {
            Some(entries) => {
                let mut entries = entries;
                assert(all[place as int] == entries@[place as int].deep_view());
                let old_value = entries[place].1.duplicate();
                entries[place] = (pid, new_value);
                proof {
                    let i = choose|i: int| first_of(all, pid, i);
                    assert(i == place);
                    assert(entries.deep_view() =~= all.update(i, (pid, new_value.deep_view())));
                }
                self.entries.insert(key.duplicate(), entries);
                assert(self.deep_view().entries =~= before.revalued(
                    key.deep_view(),
                    pid,
                    new_value.deep_view(),
                ).entries);
                proof {
                    revalue_keeps_consistent(
                        before,
                        key.deep_view(),
                        pid,
                        new_value.deep_view(),
                    );
                }
                Some(old_value)
            },
            None => None,
        }
    }

    fn find_pid(&self, key: &K, pid: Pid) -> (r: Option<usize>)
        requires
            self.well_formed(),
        ensures
            match r {
                Some(i) => {
                    &&& first_of(self.deep_view().at(key.deep_view()), pid, i as int)
                    &&& has_pid(self.deep_view().at(key.deep_view()), pid)
                },
                None => !has_pid(self.deep_view().at(key.deep_view()), pid),
            },
    {
        let ghost all = self.deep_view().at(key.deep_view());
        if let Some(entries) = self.entries.get(key) {
            let mut i: usize = 0;
            while i < entries.len()
                invariant
                    i <= entries.len(),
                    all == entries.deep_view(),
                    all == self.deep_view().at(key.deep_view()),
                    forall|j: int| 0 <= j < i ==> (#[trigger] all[j]).0 != pid,
                decreases entries.len() - i,
            {
                assert(all[i as int] == entries@[i as int].deep_view());
                if entries[i].0 == pid {
                    return Some(i);
                }
                i += 1;
            }
        }
        None
    }

    /// The oldest process under a key, if there is one.
    pub fn whereis_term(&self, key: &K) -> (r: Option<Pid>)
        requires
            self.well_formed(),
        ensures
            r == (if self.deep_view().at(key.deep_view()).len() > 0 {
                Some(self.deep_view().at(key.deep_view())[0].0)
            } else {
                None
            }),
    {
        match self.lookup_one(key) {
            Some(e) => Some(e.0),
            None => None,
        }
    }

    /// Takes out all entries under a key, and the key from their processes.
    pub fn unregister_term(&mut self, key: &K)
        requires
            old(self).well_formed(),
        ensures
            final(self).well_formed(),
            final(self).deep_view() == old(self).deep_view().forgotten(key.deep_view()),
    {
        let ghost before = self.deep_view();
        let ghost k = key.deep_view();
        let entries = self.lookup(key);
        let ghost all = entries.deep_view();
        self.entries.remove(key);
        let mut i: usize = 0;
        proof {
            assert(before.entries.remove(k) == self.deep_view().entries);
            assert(without_key(before.pids, owners_of(all.take(0)), k) =~= before.pids);
        }
        while i < entries.len()
            invariant
                i <= entries.len(),
                all == entries.deep_view(),
                k == key.deep_view(),
                self.filed(),
                self.deep_view().unique == before.unique,
                self.deep_view().monitors == before.monitors,
                self.deep_view().entries == before.entries.remove(k),
                self.deep_view().pids == without_key(
                    before.pids,
                    owners_of(all.take(i as int)),
                    k,
                ),
            decreases entries.len() - i,
        {
            let pid = entries[i].0;
            proof {
                let some = all.take(i as int);
                let more = all.take(i + 1);
                assert(all[i as int].0 == pid);
                assert(owners_of(more) =~= owners_of(some).insert(pid)) by {
                    assert forall|p: Pid| has_pid(more, p) <==> has_pid(some, p) || p == pid by {
                        if has_pid(more, p) {
                            let j = choose|j: int|
                                0 <= j < more.len() && (#[trigger] more[j]).0 == p;
                            if j < i {
                                assert(some[j].0 == p);
                            }
                        }
                        if has_pid(some, p) {
                            let j = choose|j: int|
                                0 <= j < some.len() && (#[trigger] some[j]).0 == p;
                            assert(more[j].0 == p);
                        }
                        if p == pid {
                            assert(more[i as int].0 == p);
                        }
                    }
                }
                assert forall|p: Pid| #[trigger] before.pids.contains_key(p) implies
                    before.pids[p].remove(k).remove(k) =~= before.pids[p].remove(k) by {}
                assert(without_key(
                    without_key(before.pids, owners_of(some), k),
                    set![pid],
                    k,
                ) =~= without_key(before.pids, owners_of(more), k));
            }
            self.drop_key(key, pid);
            i += 1;
        }
        proof {
            assert(all.take(all.len() as int) =~= all);
            forget_keeps_consistent(before, k);
        }
    }
}

impl<K: Key, V: Data + Default> Registry<K, V> {
    /// Registers a process under a key, with the default value, and says whether
    /// that was possible.
    pub fn register_term(&mut self, key: K, pid: Pid) -> (r: bool)
        requires
            old(self).well_formed(),
            call_requires(V::default, ()),
        ensures
            final(self).well_formed(),
            r == old(self).deep_view().accepts(key.deep_view()),
            exists|value: V|
                call_ensures(V::default, (), value) && final(self).deep_view() == old(
                    self,
                ).deep_view().registered(key.deep_view(), pid, #[trigger] value.deep_view()),
    {
        let value = V::default();
        self.register(key, pid, value).is_ok()
    }
}

proof fn lemma_picked(s: Seq<Pid>, p: spec_fn(Pid) -> bool)
    requires
        s.no_duplicates(),
    ensures
        s.filter(p).no_duplicates(),
        forall|x: Pid| #[trigger] s.filter(p).contains(x) <==> s.contains(x) && p(x),
    decreases s.len(),
{
    reveal(Seq::filter);
    if s.len() > 0 {
        let less = s.drop_last();
        lemma_picked(less, p);
        less.lemma_filter_push(s.last(), p);
        assert(less.push(s.last()) =~= s);
        assert forall|x: Pid| s.contains(x) <==> less.contains(x) || x == s.last() by {
            if s.contains(x) {
                let i = choose|i: int| 0 <= i < s.len() && s[i] == x;
                if i < less.len() {
                    assert(less[i] == x);
                }
            }
            if less.contains(x) {
                let i = choose|i: int| 0 <= i < less.len() && less[i] == x;
                assert(s[i] == x);
            }
            assert(s[s.len() - 1] == s.last());
        }
        let f = less.filter(p);
        assert(!f.contains(s.last())) by {
            if less.contains(s.last()) {
                let i = choose|i: int| 0 <= i < less.len() && less[i] == s.last();
                assert(s[i] == s[s.len() - 1]);
            }
        }
        if p(s.last()) {
            assert forall|x: Pid| #[trigger] s.filter(p).contains(x) <==> f.contains(x) || x
                == s.last() by {
                if f.contains(x) {
                    let i = choose|i: int| 0 <= i < f.len() && f[i] == x;
                    assert(f.push(s.last())[i] == x);
                }
                assert(f.push(s.last())[f.len() as int] == s.last());
            }
        }
    }
}

/// The places of entries: a key, and a place under it.
pub open spec fn places_in<A, B>(entries: Map<A, Seq<(Pid, B)>>) -> Set<(A, int)> {
    Set::new(|p: (A, int)| entries.contains_key(p.0) && 0 <= p.1 < entries[p.0].len())
}

/// The number of entries in rows.
pub open spec fn entries_size<A, B>(rows: Seq<(A, Seq<(Pid, B)>)>) -> nat
    decreases rows.len(),
{
    if rows.len() == 0 {
        0
    } else {
        entries_size(rows.drop_last()) + rows.last().1.len()
    }
}

proof fn lemma_places_of_key<A>(key: A, n: nat)
    ensures
        Set::new(|p: (A, int)| p.0 == key && 0 <= p.1 < n).finite(),
        Set::new(|p: (A, int)| p.0 == key && 0 <= p.1 < n).len() == n,
    decreases n,
{
    let places = Set::new(|p: (A, int)| p.0 == key && 0 <= p.1 < n);
    if n == 0 {
        assert(places =~= Set::empty());
    } else {
        let m = (n - 1) as nat;
        let fewer = Set::new(|p: (A, int)| p.0 == key && 0 <= p.1 < m);
        lemma_places_of_key(key, m);
        assert(places =~= fewer.insert((key, m as int)));
    }
}

proof fn lemma_entries_size<A, B>(rows: Seq<(A, Seq<(Pid, B)>)>)
    requires
        distinct_keys(rows),
    ensures
        places_in(rows_map(rows)).finite(),
        places_in(rows_map(rows)).len() == entries_size(rows),
    decreases rows.len(),
{
    let places = places_in(rows_map(rows));
    if rows.len() == 0 {
        assert(places =~= Set::empty());
    } else {
        let less = rows.drop_last();
        let (key, entries) = rows.last();
        assert(distinct_keys(less));
        lemma_entries_size(less);
        assert(!rows_map(less).contains_key(key)) by {
            if crate::table::has_key(less, key) {
                let j = crate::table::place_of(less, key);
                assert(less[j] == rows[j]);
            }
        }
        lemma_rows_push(less, key, entries);
        assert(less.push((key, entries)) =~= rows);
        let own = Set::new(|p: (A, int)| p.0 == key && 0 <= p.1 < entries.len());
        lemma_places_of_key(key, entries.len());
        assert(places =~= places_in(rows_map(less)).union(own));
        vstd::set_lib::lemma_set_disjoint_lens(places_in(rows_map(less)), own);
    }
}

} // verus!
