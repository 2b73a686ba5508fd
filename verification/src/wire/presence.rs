//! Messages of presence trackers as bytes.
use crate::atom::{capacity, grown, AtomTable};
use crate::data::{position, push_one, Data};
use crate::presence::types::{
    MetaModel, PresenceDiff, PresenceMessage, PresenceMeta, PresenceRef, PresenceState, Presences,
    TopicModel,
};
use crate::table::{
    distinct_keys, has_key, lemma_rows_map, lemma_rows_push, place_of, rows_map, Table,
};
use crate::wire::identity::{
    interned, interned_all, lemma_interned_add, lemma_interned_keeps, pid_survives_wire, portable,
    PidModel, PortablePid,
};
use crate::wire::list::WireList;
use crate::wire::primitive::{encode, lemma_tagged, Wire};
use vstd::prelude::*;

verus! {

/// A presence entry that any node can read.
#[derive(Debug)]
pub struct PortableMeta {
    /// The entry's reference.
    pub phx_ref: String,
    /// The reference of the entry that this one replaced.
    pub phx_ref_prev: Option<String>,
    /// The process that owns the entry.
    pub pid: PortablePid,
    /// The metadata, encoded.
    pub meta: Vec<u8>,
    /// When the entry was last updated.
    pub updated_at: u64,
}

/// What such an entry says.
pub struct PortableMetaModel {
    pub phx_ref: Seq<char>,
    pub phx_ref_prev: Option<Seq<char>>,
    pub pid: PidModel,
    pub meta: Seq<u8>,
    pub updated_at: u64,
}

impl DeepView for PortableMeta {
    type V = PortableMetaModel;

    open spec fn deep_view(&self) -> PortableMetaModel {
        PortableMetaModel {
            phx_ref: self.phx_ref@,
            phx_ref_prev: self.phx_ref_prev.deep_view(),
            pid: self.pid.deep_view(),
            meta: self.meta.deep_view(),
            updated_at: self.updated_at,
        }
    }
}

/// The fields of an entry, in order.
pub type MetaFields = (String, (Option<String>, (PortablePid, (Vec<u8>, u64))));

impl Wire for PortableMeta {
    open spec fn bytes_of(model: PortableMetaModel) -> Seq<u8> {
        MetaFields::bytes_of(
            (model.phx_ref, (model.phx_ref_prev, (model.pid, (model.meta, model.updated_at)))),
        )
    }

    open spec fn read(b: Seq<u8>) -> Option<(PortableMetaModel, Seq<u8>)> {
        match MetaFields::read(b) {
            Some(((phx_ref, (phx_ref_prev, (pid, (meta, updated_at)))), rest)) => Some(
                (PortableMetaModel { phx_ref, phx_ref_prev, pid, meta, updated_at }, rest),
            ),
            None => None,
        }
    }

    open spec fn fits(model: PortableMetaModel) -> bool {
        MetaFields::fits(
            (model.phx_ref, (model.phx_ref_prev, (model.pid, (model.meta, model.updated_at)))),
        )
    }

    proof fn round_trip(model: PortableMetaModel, rest: Seq<u8>) {
        MetaFields::round_trip(
            (model.phx_ref, (model.phx_ref_prev, (model.pid, (model.meta, model.updated_at)))),
            rest,
        );
    }

    fn put(&self, out: &mut Vec<u8>) {
        let ghost before = out@;
        self.phx_ref.put(out);
        self.phx_ref_prev.put(out);
        self.pid.put(out);
        self.meta.put(out);
        self.updated_at.put(out);
        assert(out@ =~= before + Self::bytes_of(self.deep_view()));
    }

    fn take<'a>(b: &'a [u8]) -> (r: Option<(Self, &'a [u8])>) {
        match MetaFields::take(b) {
            Some(((phx_ref, (phx_ref_prev, (pid, (meta, updated_at)))), rest)) => Some(
                (PortableMeta { phx_ref, phx_ref_prev, pid, meta, updated_at }, rest),
            ),
            None => None,
        }
    }
}

/// The entries of a topic, key by key.
pub type PortableRows = WireList<(String, WireList<PortableMeta>)>;

/// A message of a presence tracker that any node can read.
#[derive(Debug)]
#[allow(inconsistent_fields)]
pub enum PortablePresence {
    SyncRequest { topic: String },
    SyncResponse { topic: String, state: PortableRows },
    Delta { topic: String, joins: PortableRows, leaves: PortableRows },
    Heartbeat { node: String, clock: u64 },
}

/// What it says.
#[allow(inconsistent_fields)]
pub enum PortablePresenceModel {
    SyncRequest { topic: Seq<char> },
    SyncResponse { topic: Seq<char>, state: Seq<(Seq<char>, Seq<PortableMetaModel>)> },
    Delta { topic: Seq<char>, joins: Seq<(Seq<char>, Seq<PortableMetaModel>)>, leaves: Seq<(Seq<char>, Seq<PortableMetaModel>)> },
    Heartbeat { node: Seq<char>, clock: u64 },
}

impl DeepView for PortablePresence {
    type V = PortablePresenceModel;

    open spec fn deep_view(&self) -> PortablePresenceModel {
        match self {
            PortablePresence::SyncRequest { topic } => PortablePresenceModel::SyncRequest {
                topic: topic.deep_view(),
            },
            PortablePresence::SyncResponse { topic, state } => PortablePresenceModel::SyncResponse {
                topic: topic.deep_view(),
                state: state.deep_view(),
            },
            PortablePresence::Delta { topic, joins, leaves } => PortablePresenceModel::Delta {
                topic: topic.deep_view(),
                joins: joins.deep_view(),
                leaves: leaves.deep_view(),
            },
            PortablePresence::Heartbeat { node, clock } => PortablePresenceModel::Heartbeat {
                node: node.deep_view(),
                clock: clock.deep_view(),
            },
        }
    }
}

impl Wire for PortablePresence {
    open spec fn bytes_of(model: PortablePresenceModel) -> Seq<u8> {
        match model {
            PortablePresenceModel::SyncRequest { topic } => u32::bytes_of(0) + String::bytes_of(
                topic,
            ),
            PortablePresenceModel::SyncResponse { topic, state } => u32::bytes_of(1) + <(String, PortableRows)>::bytes_of(
                (topic, state),
            ),
            PortablePresenceModel::Delta { topic, joins, leaves } => u32::bytes_of(2) + <(String, (PortableRows, PortableRows))>::bytes_of(
                (topic, (joins, leaves)),
            ),
            PortablePresenceModel::Heartbeat { node, clock } => u32::bytes_of(3) + <(String, u64)>::bytes_of(
                (node, clock),
            ),
        }
    }

    open spec fn read(b: Seq<u8>) -> Option<(PortablePresenceModel, Seq<u8>)> {
        match u32::read(b) {
            Some((tag, rest)) => if tag == 0 {
                match String::read(rest) {
                    Some((topic, rest)) => Some(
                        (PortablePresenceModel::SyncRequest { topic }, rest),
                    ),
                    None => None,
                }
            } else if tag == 1 {
                match <(String, PortableRows)>::read(rest) {
                    Some(((topic, state), rest)) => Some(
                        (PortablePresenceModel::SyncResponse { topic, state }, rest),
                    ),
                    None => None,
                }
            } else if tag == 2 {
                match <(String, (PortableRows, PortableRows))>::read(rest) {
                    Some(((topic, (joins, leaves)), rest)) => Some(
                        (PortablePresenceModel::Delta { topic, joins, leaves }, rest),
                    ),
                    None => None,
                }
            } else if tag == 3 {
                match <(String, u64)>::read(rest) {
                    Some(((node, clock), rest)) => Some(
                        (PortablePresenceModel::Heartbeat { node, clock }, rest),
                    ),
                    None => None,
                }
            } else {
                None
            },
            None => None,
        }
    }

    open spec fn fits(model: PortablePresenceModel) -> bool {
        match model {
            PortablePresenceModel::SyncRequest { topic } => String::fits(
                topic,
            ),
            PortablePresenceModel::SyncResponse { topic, state } => <(String, PortableRows)>::fits(
                (topic, state),
            ),
            PortablePresenceModel::Delta { topic, joins, leaves } => <(String, (PortableRows, PortableRows))>::fits(
                (topic, (joins, leaves)),
            ),
            PortablePresenceModel::Heartbeat { node, clock } => <(String, u64)>::fits(
                (node, clock),
            ),
        }
    }

    proof fn round_trip(model: PortablePresenceModel, rest: Seq<u8>) {
        match model {
            PortablePresenceModel::SyncRequest { topic } => {
                lemma_tagged::<String>(0, topic, rest);
            },
            PortablePresenceModel::SyncResponse { topic, state } => {
                lemma_tagged::<(String, PortableRows)>(1, (topic, state), rest);
            },
            PortablePresenceModel::Delta { topic, joins, leaves } => {
                lemma_tagged::<(String, (PortableRows, PortableRows))>(2, (topic, (joins, leaves)), rest);
            },
            PortablePresenceModel::Heartbeat { node, clock } => {
                lemma_tagged::<(String, u64)>(3, (node, clock), rest);
            },
        }
    }

    fn put(&self, out: &mut Vec<u8>) {
        let ghost before = out@;
        match self {
            PortablePresence::SyncRequest { topic } => {
                0u32.put(out);
                topic.put(out);
            },
            PortablePresence::SyncResponse { topic, state } => {
                1u32.put(out);
                topic.put(out);
                state.put(out);
            },
            PortablePresence::Delta { topic, joins, leaves } => {
                2u32.put(out);
                topic.put(out);
                joins.put(out);
                leaves.put(out);
            },
            PortablePresence::Heartbeat { node, clock } => {
                3u32.put(out);
                node.put(out);
                clock.put(out);
            },
        }
        assert(out@ =~= before + Self::bytes_of(self.deep_view()));
    }

    fn take<'a>(b: &'a [u8]) -> (r: Option<(Self, &'a [u8])>) {
        let (tag, rest) = match u32::take(b) {
            Some(x) => x,
            None => {
                return None;
            },
        };
        if tag == 0 {
            match String::take(rest) {
                Some((topic, rest)) => Some(
                    (PortablePresence::SyncRequest { topic }, rest),
                ),
                None => None,
            }
        } else if tag == 1 {
            match <(String, PortableRows)>::take(rest) {
                Some(((topic, state), rest)) => Some(
                    (PortablePresence::SyncResponse { topic, state }, rest),
                ),
                None => None,
            }
        } else if tag == 2 {
            match <(String, (PortableRows, PortableRows))>::take(rest) {
                Some(((topic, (joins, leaves)), rest)) => Some(
                    (PortablePresence::Delta { topic, joins, leaves }, rest),
                ),
                None => None,
            }
        } else if tag == 3 {
            match <(String, u64)>::take(rest) {
                Some(((node, clock), rest)) => Some(
                    (PortablePresence::Heartbeat { node, clock }, rest),
                ),
                None => None,
            }
        } else {
            None
        }
    }
}

/// What an entry says to any node.
pub open spec fn portable_meta(atoms: &AtomTable, m: MetaModel) -> PortableMetaModel {
    PortableMetaModel {
        phx_ref: m.phx_ref,
        phx_ref_prev: m.phx_ref_prev,
        pid: portable(atoms, m.pid),
        meta: m.meta,
        updated_at: m.updated_at,
    }
}

/// What entries say to any node.
pub open spec fn portable_metas(atoms: &AtomTable, metas: Seq<MetaModel>) -> Seq<
    PortableMetaModel,
> {
    metas.map_values(|m: MetaModel| portable_meta(atoms, m))
}

/// What the entries of a topic say to any node, key by key.
pub open spec fn portable_rows(atoms: &AtomTable, rows: Seq<(Seq<char>, Seq<MetaModel>)>) -> Seq<
    (Seq<char>, Seq<PortableMetaModel>),
> {
    rows.map_values(
        |row: (Seq<char>, Seq<MetaModel>)| (row.0, portable_metas(atoms, row.1)),
    )
}

/// What a message says to any node.
pub open spec fn portable_presence(atoms: &AtomTable, m: PresenceMessage) -> PortablePresenceModel {
    match m {
        PresenceMessage::SyncRequest { topic } => PortablePresenceModel::SyncRequest {
            topic: topic@,
        },
        PresenceMessage::SyncResponse { topic, state } => PortablePresenceModel::SyncResponse {
            topic: topic@,
            state: portable_rows(atoms, state.rows()),
        },
        PresenceMessage::Delta { topic, diff } => PortablePresenceModel::Delta {
            topic: topic@,
            joins: portable_rows(atoms, diff.joins.rows()),
            leaves: portable_rows(atoms, diff.leaves.rows()),
        },
        PresenceMessage::Heartbeat { node, clock } => PortablePresenceModel::Heartbeat {
            node: node@,
            clock,
        },
    }
}

/// Whether the nodes of the owners of entries are known.
pub open spec fn knows_metas(atoms: &AtomTable, metas: Seq<MetaModel>) -> bool {
    forall|i: int| 0 <= i < metas.len() ==> atoms.knows((#[trigger] metas[i]).pid.spec_node())
}

/// Whether the nodes of the owners of the entries of a topic are known.
pub open spec fn knows_rows(atoms: &AtomTable, rows: Seq<(Seq<char>, Seq<MetaModel>)>) -> bool {
    forall|i: int| 0 <= i < rows.len() ==> knows_metas(atoms, (#[trigger] rows[i]).1)
}

/// Whether the nodes of the processes that a message names are known.
pub open spec fn knows_presence(atoms: &AtomTable, m: PresenceMessage) -> bool {
    match m {
        PresenceMessage::SyncResponse { topic, state } => knows_rows(atoms, state.rows()),
        PresenceMessage::Delta { topic, diff } => knows_rows(atoms, diff.joins.rows())
            && knows_rows(atoms, diff.leaves.rows()),
        _ => true,
    }
}

pub(crate) fn export_metas(atoms: &AtomTable, metas: &Vec<PresenceMeta>) -> (r: WireList<PortableMeta>)
    requires
        knows_metas(atoms, metas.deep_view()),
    ensures
        r.deep_view() == portable_metas(atoms, metas.deep_view()),
{
    let ghost all = metas.deep_view();
    let mut r: Vec<PortableMeta> = Vec::new();
    let mut i: usize = 0;
    assert(r.deep_view() =~= portable_metas(atoms, all.take(0)));
    while i < metas.len()
        invariant
            i <= metas.len(),
            all == metas.deep_view(),
            knows_metas(atoms, all),
            r.deep_view() == portable_metas(atoms, all.take(i as int)),
        decreases metas.len() - i,
    {
        let m = &metas[i];
        assert(all[i as int] == m.deep_view());
        let phx_ref_prev = match &m.phx_ref_prev {
            Some(prev) => Some(prev.as_str().to_owned()),
            None => None,
        };
        push_one(
            &mut r,
            PortableMeta {
                phx_ref: m.phx_ref.as_str().to_owned(),
                phx_ref_prev,
                pid: PortablePid::of(atoms, m.pid),
                meta: m.meta.duplicate(),
                updated_at: m.updated_at,
            },
        );
        assert(r.deep_view() =~= portable_metas(atoms, all.take(i + 1)));
        i += 1;
    }
    assert(all.take(all.len() as int) =~= all);
    WireList(r)
}

pub(crate) fn export_rows(atoms: &AtomTable, presences: &Presences) -> (r: PortableRows)
    requires
        knows_rows(atoms, presences.rows()),
    ensures
        r.deep_view() == portable_rows(atoms, presences.rows()),
{
    let ghost rows = presences.rows();
    let n: usize = presences.len();
    let mut r: Vec<(String, WireList<PortableMeta>)> = Vec::new();
    let mut i: usize = 0;
    assert(r.deep_view() =~= portable_rows(atoms, rows.take(0)));
    while i < n
        invariant
            i <= n,
            n == rows.len(),
            rows == presences.rows(),
            knows_rows(atoms, rows),
            r.deep_view() == portable_rows(atoms, rows.take(i as int)),
        decreases n - i,
    {
        assert(knows_metas(atoms, rows[i as int].1));
        let metas = export_metas(atoms, &presences.value_at(i).metas);
        push_one(&mut r, (presences.key_at(i).clone(), metas));
        assert(r.deep_view() =~= portable_rows(atoms, rows.take(i + 1)));
        i += 1;
    }
    assert(rows.take(n as int) =~= rows);
    WireList(r)
}

impl PresenceMessage {
    /// The message as bytes.
    pub fn encode(&self, atoms: &AtomTable) -> (r: Vec<u8>)
        requires
            knows_presence(atoms, *self),
        ensures
            r@ == PortablePresence::bytes_of(portable_presence(atoms, *self)),
    {
        let m = match self {
            PresenceMessage::SyncRequest { topic } => PortablePresence::SyncRequest {
                topic: topic.clone(),
            },
            PresenceMessage::SyncResponse { topic, state } => PortablePresence::SyncResponse {
                topic: topic.clone(),
                state: export_rows(atoms, state),
            },
            PresenceMessage::Delta { topic, diff } => PortablePresence::Delta {
                topic: topic.clone(),
                joins: export_rows(atoms, &diff.joins),
                leaves: export_rows(atoms, &diff.leaves),
            },
            PresenceMessage::Heartbeat { node, clock } => PortablePresence::Heartbeat {
                node: node.clone(),
                clock: *clock,
            },
        };
        encode(&m)
    }
}

fn rows_are_known(atoms: &AtomTable, presences: &Presences) -> (r: bool)
    ensures
        r == knows_rows(atoms, presences.rows()),
{
    let ghost rows = presences.rows();
    let n: usize = presences.len();
    let mut i: usize = 0;
    while i < n
        invariant
            i <= n,
            n == rows.len(),
            rows == presences.rows(),
            forall|k: int| 0 <= k < i ==> knows_metas(atoms, (#[trigger] rows[k]).1),
        decreases n - i,
    {
        let metas = &presences.value_at(i).metas;
        let ghost all = metas.deep_view();
        assert(all == rows[i as int].1);
        let mut j: usize = 0;
        while j < metas.len()
            invariant
                j <= metas.len(),
                i < rows.len(),
                all == metas.deep_view(),
                all == rows[i as int].1,
                rows == presences.rows(),
                forall|k: int|
                    0 <= k < j ==> atoms.knows((#[trigger] all[k]).pid.spec_node()),
            decreases metas.len() - j,
        {
            assert(all[j as int] == metas@[j as int].deep_view());
            if atoms.get(metas[j].pid.node()).is_none() {
                assert(!knows_metas(atoms, rows[i as int].1));
                return false;
            }
            j += 1;
        }
        i += 1;
    }
    true
}

impl PresenceMessage {
    /// Whether the nodes of the processes that the message names are known.
    pub fn is_known(&self, atoms: &AtomTable) -> (r: bool)
        ensures
            r == knows_presence(atoms, *self),
    {
        match self {
            PresenceMessage::SyncResponse { topic: _, state } => rows_are_known(atoms, state),
            PresenceMessage::Delta { topic: _, diff } => rows_are_known(atoms, &diff.joins)
                && rows_are_known(atoms, &diff.leaves),
            _ => true,
        }
    }
}

/// The names of the nodes of the owners of entries.
pub open spec fn names_of_metas(metas: Seq<PortableMetaModel>) -> Seq<Seq<char>> {
    metas.map_values(|m: PortableMetaModel| m.pid.node)
}

/// The names of the nodes of the owners of entries in rows, in order.
pub open spec fn names_of_rows(rows: Seq<(Seq<char>, Seq<PortableMetaModel>)>) -> Seq<Seq<char>>
    decreases rows.len(),
{
    if rows.len() == 0 {
        Seq::empty()
    } else {
        names_of_rows(rows.drop_last()) + names_of_metas(rows.last().1)
    }
}

/// The names of the nodes of the processes that a message names, in order.
pub open spec fn names_in(m: PortablePresenceModel) -> Seq<Seq<char>> {
    match m {
        PortablePresenceModel::SyncResponse { topic, state } => names_of_rows(state),
        PortablePresenceModel::Delta { topic, joins, leaves } => names_of_rows(joins)
            + names_of_rows(leaves),
        _ => Seq::empty(),
    }
}

/// The strings of a table after a message was read.
pub open spec fn after_reading_presence(strings: Seq<Seq<char>>, m: PortablePresenceModel) -> Seq<
    Seq<char>,
> {
    interned_all(strings, names_in(m))
}

/// The entries by key, where the last of several rows with one key counts.
pub open spec fn topic_from(rows: Seq<(Seq<char>, Seq<PortableMetaModel>)>) -> Map<
    Seq<char>,
    Seq<PortableMetaModel>,
>
    decreases rows.len(),
{
    if rows.len() == 0 {
        Map::empty()
    } else {
        topic_from(rows.drop_last()).insert(rows.last().0, rows.last().1)
    }
}

/// Whether the entries of a topic are those that were read, and the nodes of
/// their owners are known.
pub open spec fn is_import(
    atoms: &AtomTable,
    topic: TopicModel,
    read: Map<Seq<char>, Seq<PortableMetaModel>>,
) -> bool {
    &&& topic.dom() == read.dom()
    &&& forall|key: Seq<char>| #[trigger]
        topic.contains_key(key) ==> knows_metas(atoms, topic[key]) && portable_metas(
            atoms,
            topic[key],
        ) == read[key]
}

/// Whether a message is what was read.
pub open spec fn is_presence_import(
    atoms: &AtomTable,
    m: PresenceMessage,
    read: PortablePresenceModel,
) -> bool {
    match (m, read) {
        (
            PresenceMessage::SyncRequest { topic: t },
            PortablePresenceModel::SyncRequest { topic },
        ) => t@ == topic,
        (
            PresenceMessage::SyncResponse { topic: t, state: s },
            PortablePresenceModel::SyncResponse { topic, state },
        ) => t@ == topic && is_import(atoms, s.deep_view(), topic_from(state)),
        (
            PresenceMessage::Delta { topic: t, diff },
            PortablePresenceModel::Delta { topic, joins, leaves },
        ) => {
            &&& t@ == topic
            &&& is_import(atoms, diff.joins.deep_view(), topic_from(joins))
            &&& is_import(atoms, diff.leaves.deep_view(), topic_from(leaves))
        },
        (
            PresenceMessage::Heartbeat { node: n, clock: c },
            PortablePresenceModel::Heartbeat { node, clock },
        ) => n@ == node && c == clock,
        _ => false,
    }
}

proof fn lemma_grown_metas(a: AtomTable, b: AtomTable, metas: Seq<MetaModel>)
    requires
        grown(a, b),
        knows_metas(&a, metas),
    ensures
        knows_metas(&b, metas),
        portable_metas(&b, metas) == portable_metas(&a, metas),
{
    assert forall|i: int| 0 <= i < metas.len() implies #[trigger] portable_metas(&b, metas)[i]
        == portable_metas(&a, metas)[i] by {
        let atom = metas[i].pid.spec_node();
        assert(a@[atom.spec_index() as int] == b@[atom.spec_index() as int]);
    }
    assert(portable_metas(&b, metas) =~= portable_metas(&a, metas));
}

pub(crate) proof fn lemma_grown_import(
    a: AtomTable,
    b: AtomTable,
    topic: TopicModel,
    read: Map<Seq<char>, Seq<PortableMetaModel>>,
)
    requires
        grown(a, b),
        is_import(&a, topic, read),
    ensures
        is_import(&b, topic, read),
{
    assert forall|key: Seq<char>| #[trigger] topic.contains_key(key) implies knows_metas(
        &b,
        topic[key],
    ) && portable_metas(&b, topic[key]) == read[key] by {
        lemma_grown_metas(a, b, topic[key]);
    }
}

proof fn lemma_names_take(metas: Seq<PortableMetaModel>, i: int)
    requires
        0 <= i < metas.len(),
    ensures
        names_of_metas(metas.take(i + 1)) == names_of_metas(metas.take(i)).push(metas[i].pid.node),
        names_of_metas(metas) == names_of_metas(metas.take(i + 1)) + names_of_metas(
            metas.skip(i + 1),
        ),
{
    assert(names_of_metas(metas.take(i + 1)) =~= names_of_metas(metas.take(i)).push(
        metas[i].pid.node,
    ));
    assert(names_of_metas(metas) =~= names_of_metas(metas.take(i + 1)) + names_of_metas(
        metas.skip(i + 1),
    ));
}

proof fn lemma_intern_next(strings: Seq<Seq<char>>, names: Seq<Seq<char>>, name: Seq<char>)
    ensures
        interned_all(strings, names.push(name)) == interned(interned_all(strings, names), name),
{
    assert(names.push(name).drop_last() =~= names);
}

/// A table that holds what was interned so far has grown.
pub(crate) proof fn lemma_grown(before: AtomTable, after: AtomTable, names: Seq<Seq<char>>)
    requires
        after@ == interned_all(before@, names),
    ensures
        grown(before, after),
{
    lemma_interned_keeps(before@, names);
}

pub(crate) fn import_metas(atoms: &mut AtomTable, metas: WireList<PortableMeta>) -> (r: Vec<PresenceMeta>)
    requires
        old(atoms).well_formed(),
        interned_all(old(atoms)@, names_of_metas(metas.deep_view())).len() <= capacity(),
    ensures
        final(atoms).well_formed(),
        final(atoms)@ == interned_all(old(atoms)@, names_of_metas(metas.deep_view())),
        knows_metas(final(atoms), r.deep_view()),
        portable_metas(final(atoms), r.deep_view()) == metas.deep_view(),
{
    let ghost all = metas.deep_view();
    let mut rest = metas.0;
    let mut r: Vec<PresenceMeta> = Vec::new();
    let n: usize = rest.len();
    proof {
        assert(r.deep_view() =~= Seq::empty());
        assert(portable_metas(atoms, r.deep_view()) =~= all.take(0));
        assert(names_of_metas(all.take(0)) =~= Seq::empty());
        assert(rest.deep_view() =~= all.skip(0));
    }
    while rest.len() > 0
        invariant
            rest.len() <= n,
            n == all.len(),
            rest.deep_view() == all.skip(n - rest.len()),
            interned_all(old(atoms)@, names_of_metas(all)).len() <= capacity(),
            atoms.well_formed(),
            atoms@ == interned_all(old(atoms)@, names_of_metas(all.take(n - rest.len()))),
            knows_metas(atoms, r.deep_view()),
            portable_metas(atoms, r.deep_view()) == all.take(n - rest.len()),
        decreases rest.len(),
    {
        let ghost i = n - rest.len();
        let ghost before = *atoms;
        let ghost done = r.deep_view();
        let ghost left = rest.deep_view();
        assert(left[0] == rest@[0].deep_view());
        let m = rest.remove(0);
        assert(rest.deep_view() =~= left.drop_first());
        assert(left.drop_first() =~= all.skip(i + 1));
        assert(m.deep_view() == all[i]);
        let ghost name = all[i].pid.node;
        proof {
            lemma_names_take(all, i);
            lemma_intern_next(old(atoms)@, names_of_metas(all.take(i)), name);
            lemma_interned_add(
                old(atoms)@,
                names_of_metas(all.take(i + 1)),
                names_of_metas(all.skip(i + 1)),
            );
        }
        let phx_ref_prev = match m.phx_ref_prev {
            Some(prev) => Some(PresenceRef::from_text(prev)),
            None => None,
        };
        let pid = m.pid.localize(atoms);
        proof {
            assert(interned_all(before@, seq![name]) == interned(before@, name)) by {
                lemma_intern_next(before@, Seq::empty(), name);
                assert(Seq::<Seq<char>>::empty().push(name) =~= seq![name]);
            }
            lemma_grown(before, *atoms, seq![name]);
            lemma_grown_metas(before, *atoms, done);
        }
        push_one(
            &mut r,
            PresenceMeta {
                phx_ref: PresenceRef::from_text(m.phx_ref),
                phx_ref_prev,
                pid,
                meta: m.meta,
                updated_at: m.updated_at,
            },
        );
        proof {
            assert(portable_metas(atoms, r.deep_view()) =~= portable_metas(atoms, done).push(
                all[i],
            ));
            assert(all.take(i + 1) =~= all.take(i).push(all[i]));
        }
    }
    assert(all.take(n as int) =~= all);
    r
}

proof fn lemma_rows_names(rows: Seq<(Seq<char>, Seq<PortableMetaModel>)>, i: int)
    requires
        0 <= i < rows.len(),
    ensures
        names_of_rows(rows.take(i + 1)) == names_of_rows(rows.take(i)) + names_of_metas(rows[i].1),
        exists|more: Seq<Seq<char>>|
            names_of_rows(rows) == #[trigger] (names_of_rows(rows.take(i + 1)) + more),
    decreases rows.len() - i,
{
    assert(rows.take(i + 1).drop_last() =~= rows.take(i));
    assert(rows.take(i + 1).last() == rows[i]);
    if i + 1 < rows.len() {
        lemma_rows_names(rows, i + 1);
        let more = choose|more: Seq<Seq<char>>|
            names_of_rows(rows) == #[trigger] (names_of_rows(rows.take(i + 2)) + more);
        let both = names_of_metas(rows[i + 1].1) + more;
        assert(rows.take(i + 2).drop_last() =~= rows.take(i + 1));
        assert(rows.take(i + 2).last() == rows[i + 1]);
        assert(names_of_rows(rows) =~= names_of_rows(rows.take(i + 1)) + both);
    } else {
        assert(rows.take(i + 1) =~= rows);
        assert(names_of_rows(rows) =~= names_of_rows(rows.take(i + 1)) + Seq::empty());
    }
}

pub(crate) fn import_rows(atoms: &mut AtomTable, rows: PortableRows) -> (r: Presences)
    requires
        old(atoms).well_formed(),
        interned_all(old(atoms)@, names_of_rows(rows.deep_view())).len() <= capacity(),
    ensures
        final(atoms).well_formed(),
        final(atoms)@ == interned_all(old(atoms)@, names_of_rows(rows.deep_view())),
        is_import(final(atoms), r.deep_view(), topic_from(rows.deep_view())),
{
    let ghost all = rows.deep_view();
    let mut rest = rows.0;
    let mut r: Presences = Table::new();
    let n: usize = rest.len();
    proof {
        assert(all.take(0) =~= Seq::empty());
        assert(r.deep_view().dom() =~= topic_from(all.take(0)).dom());
        assert(rest.deep_view() =~= all.skip(0));
    }
    while rest.len() > 0
        invariant
            rest.len() <= n,
            n == all.len(),
            rest.deep_view() == all.skip(n - rest.len()),
            interned_all(old(atoms)@, names_of_rows(all)).len() <= capacity(),
            atoms.well_formed(),
            atoms@ == interned_all(old(atoms)@, names_of_rows(all.take(n - rest.len()))),
            is_import(atoms, r.deep_view(), topic_from(all.take(n - rest.len()))),
        decreases rest.len(),
    {
        let ghost i = n - rest.len();
        let ghost before = *atoms;
        let ghost done = r.deep_view();
        let ghost left = rest.deep_view();
        assert(left[0] == rest@[0].deep_view());
        let (key, metas) = rest.remove(0);
        let ghost names = names_of_metas(all[i].1);
        proof {
            assert(rest.deep_view() =~= left.drop_first());
            assert(left.drop_first() =~= all.skip(i + 1));
            assert((key@, metas.deep_view()) == all[i]);
            lemma_rows_names(all, i);
            let so_far = names_of_rows(all.take(i + 1));
            let more = choose|more: Seq<Seq<char>>|
                names_of_rows(all) == #[trigger] (so_far + more);
            lemma_interned_add(old(atoms)@, so_far, more);
            lemma_interned_add(old(atoms)@, names_of_rows(all.take(i)), names);
        }
        let metas = import_metas(atoms, metas);
        proof {
            lemma_grown(before, *atoms, names);
            lemma_grown_import(before, *atoms, done, topic_from(all.take(i)));
            assert(all.take(i + 1).drop_last() =~= all.take(i));
            assert(all.take(i + 1).last() == all[i]);
        }
        r.insert(key, PresenceState { metas });
        assert(r.deep_view().dom() =~= topic_from(all.take(i + 1)).dom());
    }
    assert(all.take(n as int) =~= all);
    r
}

/// Adds the names of the nodes of the owners of entries to those that are new to
/// the table.
pub(crate) fn note_names(atoms: &AtomTable, metas: &WireList<PortableMeta>, new: &mut Vec<String>)
    requires
        atoms.well_formed(),
    ensures
        atoms@ + final(new).deep_view() == interned_all(
            atoms@ + old(new).deep_view(),
            names_of_metas(metas.deep_view()),
        ),
{
    let ghost all = metas.deep_view();
    let ghost start = atoms@ + new.deep_view();
    let mut i: usize = 0;
    assert(names_of_metas(all.take(0)) =~= Seq::empty());
    while i < metas.0.len()
        invariant
            i <= metas.0.len(),
            all == metas.deep_view(),
            atoms.well_formed(),
            atoms@ + new.deep_view() == interned_all(start, names_of_metas(all.take(i as int))),
        decreases metas.0.len() - i,
    {
        let name = &metas.0[i].pid.node;
        let ghost before = new.deep_view();
        let ghost strings = atoms@ + before;
        proof {
            assert(all[i as int] == metas.0@[i as int].deep_view());
            lemma_names_take(all, i as int);
            lemma_intern_next(start, names_of_metas(all.take(i as int)), name@);
            assert(strings.contains(name@) <==> atoms@.contains(name@) || before.contains(name@))
                by {
                if atoms@.contains(name@) {
                    let j = choose|j: int| 0 <= j < atoms@.len() && atoms@[j] == name@;
                    assert(strings[j] == name@);
                }
                if before.contains(name@) {
                    let j = choose|j: int| 0 <= j < before.len() && before[j] == name@;
                    assert(strings[atoms@.len() + j] == name@);
                }
            }
        }
        if !atoms.contains(name) && position(new, name).is_none() {
            push_one(new, name.clone());
            assert(atoms@ + new.deep_view() =~= strings.push(name@));
        }
        i += 1;
    }
    assert(all.take(all.len() as int) =~= all);
}

/// Adds the names of the nodes of the owners of entries in rows to those that are
/// new to the table.
pub(crate) fn note_row_names(atoms: &AtomTable, rows: &PortableRows, new: &mut Vec<String>)
    requires
        atoms.well_formed(),
    ensures
        atoms@ + final(new).deep_view() == interned_all(
            atoms@ + old(new).deep_view(),
            names_of_rows(rows.deep_view()),
        ),
{
    let ghost all = rows.deep_view();
    let ghost start = atoms@ + new.deep_view();
    let mut i: usize = 0;
    assert(all.take(0) =~= Seq::empty());
    while i < rows.0.len()
        invariant
            i <= rows.0.len(),
            all == rows.deep_view(),
            atoms.well_formed(),
            atoms@ + new.deep_view() == interned_all(start, names_of_rows(all.take(i as int))),
        decreases rows.0.len() - i,
    {
        proof {
            assert(all[i as int] == rows.0@[i as int].deep_view());
            lemma_rows_names(all, i as int);
            lemma_interned_add(
                start,
                names_of_rows(all.take(i as int)),
                names_of_metas(all[i as int].1),
            );
        }
        note_names(atoms, &rows.0[i].1, new);
        i += 1;
    }
    assert(all.take(all.len() as int) =~= all);
}

impl PresenceMessage {
    /// The message from bytes. There is none where the names of nodes in it that
    /// are new do not fit into the table.
    pub fn decode(atoms: &mut AtomTable, b: &[u8]) -> (r: Option<PresenceMessage>)
        requires
            old(atoms).well_formed(),
        ensures
            final(atoms).well_formed(),
            match PortablePresence::read(b@) {
                Some((model, rest)) => if after_reading_presence(old(atoms)@, model).len()
                    <= capacity() {
                    &&& r matches Some(m)
                    &&& is_presence_import(final(atoms), m, model)
                    &&& final(atoms)@ == after_reading_presence(old(atoms)@, model)
                } else {
                    r is None && final(atoms)@ == old(atoms)@
                },
                None => r is None && final(atoms)@ == old(atoms)@,
            },
    {
        let mut new: Vec<String> = Vec::new();
        assert(atoms@ + new.deep_view() =~= atoms@);
        match crate::wire::primitive::decode::<PortablePresence>(b) {
            Some(PortablePresence::SyncRequest { topic }) => {
                proof {
                    atoms.lemma_distinct();
                }
                Some(PresenceMessage::SyncRequest { topic })
            },
            Some(PortablePresence::SyncResponse { topic, state }) => {
                note_row_names(atoms, &state, &mut new);
                if !atoms.has_room(new.len()) {
                    return None;
                }
                Some(PresenceMessage::SyncResponse { topic, state: import_rows(atoms, state) })
            },
            Some(PortablePresence::Delta { topic, joins, leaves }) => {
                proof {
                    lemma_interned_add(
                        atoms@,
                        names_of_rows(joins.deep_view()),
                        names_of_rows(leaves.deep_view()),
                    );
                }
                note_row_names(atoms, &joins, &mut new);
                note_row_names(atoms, &leaves, &mut new);
                if !atoms.has_room(new.len()) {
                    return None;
                }
                let ghost read = topic_from(joins.deep_view());
                let joins = import_rows(atoms, joins);
                let ghost between = *atoms;
                let ghost names = names_of_rows(leaves.deep_view());
                let leaves = import_rows(atoms, leaves);
                proof {
                    lemma_grown(between, *atoms, names);
                    lemma_grown_import(between, *atoms, joins.deep_view(), read);
                }
                Some(PresenceMessage::Delta { topic, diff: PresenceDiff { joins, leaves } })
            },
            Some(PortablePresence::Heartbeat { node, clock }) => {
                proof {
                    atoms.lemma_distinct();
                }
                Some(PresenceMessage::Heartbeat { node, clock })
            },
            None => None,
        }
    }
}

pub(crate) proof fn lemma_metas_survive(atoms: AtomTable, a: Seq<MetaModel>, b: Seq<MetaModel>)
    requires
        atoms.well_formed(),
        knows_metas(&atoms, a),
        knows_metas(&atoms, b),
        portable_metas(&atoms, a) == portable_metas(&atoms, b),
    ensures
        a == b,
{
    let x = portable_metas(&atoms, a);
    let y = portable_metas(&atoms, b);
    assert(a.len() == x.len() && b.len() == y.len());
    assert forall|i: int| 0 <= i < a.len() implies a[i] == b[i] by {
        assert(x[i] == portable_meta(&atoms, a[i]));
        assert(y[i] == portable_meta(&atoms, b[i]));
        pid_survives_wire(atoms, a[i].pid, b[i].pid);
    }
    assert(a =~= b);
}

proof fn lemma_topic_from(atoms: &AtomTable, rows: Seq<(Seq<char>, Seq<MetaModel>)>)
    requires
        distinct_keys(rows),
    ensures
        topic_from(portable_rows(atoms, rows)).dom() == rows_map(rows).dom(),
        forall|key: Seq<char>| #[trigger]
            rows_map(rows).contains_key(key) ==> topic_from(portable_rows(atoms, rows))[key]
                == portable_metas(atoms, rows_map(rows)[key]),
    decreases rows.len(),
{
    let all = portable_rows(atoms, rows);
    if rows.len() == 0 {
        assert(topic_from(all).dom() =~= rows_map(rows).dom());
    } else {
        let less = rows.drop_last();
        let (key, metas) = rows.last();
        assert(distinct_keys(less));
        lemma_topic_from(atoms, less);
        assert(all.drop_last() =~= portable_rows(atoms, less));
        assert(all.last() == (key, portable_metas(atoms, metas)));
        assert(!rows_map(less).contains_key(key)) by {
            if has_key(less, key) {
                let j = place_of(less, key);
                assert(less[j] == rows[j]);
            }
        }
        lemma_rows_push(less, key, metas);
        assert(less.push((key, metas)) =~= rows);
        assert(topic_from(all).dom() =~= rows_map(rows).dom());
    }
}

pub(crate) proof fn lemma_topic_survives(
    atoms: AtomTable,
    rows: Seq<(Seq<char>, Seq<MetaModel>)>,
    topic: TopicModel,
)
    requires
        atoms.well_formed(),
        distinct_keys(rows),
        knows_rows(&atoms, rows),
        is_import(&atoms, topic, topic_from(portable_rows(&atoms, rows))),
    ensures
        topic == rows_map(rows),
{
    lemma_topic_from(&atoms, rows);
    lemma_rows_map(rows);
    assert forall|key: Seq<char>| #[trigger] topic.contains_key(key) implies topic[key] == rows_map(
        rows,
    )[key] by {
        assert(rows_map(rows).contains_key(key));
        let i = place_of(rows, key);
        assert(knows_metas(&atoms, rows[i].1));
        lemma_metas_survive(atoms, topic[key], rows_map(rows)[key]);
    }
    assert(topic =~= rows_map(rows));
}

/// A message that is read back on the node that wrote it says the same.
pub proof fn presence_message_survives_wire(
    atoms: AtomTable,
    sent: PresenceMessage,
    got: PresenceMessage,
)
    requires
        atoms.well_formed(),
        knows_presence(&atoms, sent),
        sent matches PresenceMessage::SyncResponse { topic, state } ==> distinct_keys(state.rows()),
        sent matches PresenceMessage::Delta { topic, diff } ==> distinct_keys(diff.joins.rows())
            && distinct_keys(diff.leaves.rows()),
        is_presence_import(&atoms, got, portable_presence(&atoms, sent)),
    ensures
        got.deep_view() == sent.deep_view(),
{
    match (sent, got) {
        (
            PresenceMessage::SyncResponse { topic: t, state: s },
            PresenceMessage::SyncResponse { topic, state },
        ) => {
            lemma_topic_survives(atoms, s.rows(), state.deep_view());
        },
        (PresenceMessage::Delta { topic: t, diff: d }, PresenceMessage::Delta { topic, diff }) => {
            lemma_topic_survives(atoms, d.joins.rows(), diff.joins.deep_view());
            lemma_topic_survives(atoms, d.leaves.rows(), diff.leaves.deep_view());
        },
        _ => {},
    }
}

} // verus!
