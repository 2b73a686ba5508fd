//! What presence servers are asked and told, and what they reply, as bytes.
use crate::atom::{capacity, AtomTable};
use crate::data::Data;
use crate::presence::server::{PresenceCall, PresenceCast, PresenceConfig, PresenceReply};
use crate::presence::types::{PresenceDiff, PresenceRef, PresenceState};
use crate::wire::identity::{
    interned, interned_all, lemma_interned_add, portable, PidModel, PortablePid,
};
use crate::wire::list::WireList;
use crate::wire::presence::{
    export_metas, export_rows, import_metas, import_rows, is_import, knows_metas, knows_rows,
    lemma_grown, lemma_grown_import, lemma_metas_survive, lemma_topic_survives, names_of_metas, names_of_rows, note_names, note_row_names,
    portable_metas, portable_rows, topic_from, PortableMeta, PortableMetaModel, PortableRows,
};
use crate::table::distinct_keys;
use crate::wire::primitive::{decode, encode, lemma_tagged, Wire};
use vstd::prelude::*;

verus! {

/// What the setup of a presence server says.
pub struct ConfigModel {
    pub name: Seq<char>,
    pub pubsub: Seq<char>,
}

impl DeepView for PresenceConfig {
    type V = ConfigModel;

    open spec fn deep_view(&self) -> ConfigModel {
        ConfigModel {
            name: self.name.deep_view(),
            pubsub: self.pubsub.deep_view(),
        }
    }
}

impl Wire for PresenceConfig {
    open spec fn bytes_of(model: ConfigModel) -> Seq<u8> {
        <(String, String)>::bytes_of(
            (model.name, model.pubsub),
        )
    }

    open spec fn read(b: Seq<u8>) -> Option<(ConfigModel, Seq<u8>)> {
        match <(String, String)>::read(b) {
            Some(((name, pubsub), rest)) => Some(
                (ConfigModel { name, pubsub }, rest),
            ),
            None => None,
        }
    }

    open spec fn fits(model: ConfigModel) -> bool {
        <(String, String)>::fits(
            (model.name, model.pubsub),
        )
    }

    proof fn round_trip(model: ConfigModel, rest: Seq<u8>) {
        <(String, String)>::round_trip(
            (model.name, model.pubsub),
            rest,
        );
    }

    fn put(&self, out: &mut Vec<u8>) {
        let ghost before = out@;
        self.name.put(out);
        self.pubsub.put(out);
        assert(out@ =~= before + Self::bytes_of(self.deep_view()));
    }

    fn take<'a>(b: &'a [u8]) -> (r: Option<(Self, &'a [u8])>) {
        match <(String, String)>::take(b) {
            Some(((name, pubsub), rest)) => Some(
                (PresenceConfig { name, pubsub }, rest),
            ),
            None => None,
        }
    }
}

/// What a presence server is asked, for any node to read.
#[derive(Debug)]
#[allow(inconsistent_fields)]
pub enum PortableCall {
    Track { topic: String, key: String, pid: PortablePid, meta: Vec<u8> },
    Untrack { topic: String, key: String, pid: PortablePid },
    UntrackAll { pid: PortablePid },
    Update { topic: String, key: String, pid: PortablePid, meta: Vec<u8> },
    List { topic: String },
    Get { topic: String, key: String },
}

/// What it says.
#[allow(inconsistent_fields)]
pub enum PortableCallModel {
    Track { topic: Seq<char>, key: Seq<char>, pid: PidModel, meta: Seq<u8> },
    Untrack { topic: Seq<char>, key: Seq<char>, pid: PidModel },
    UntrackAll { pid: PidModel },
    Update { topic: Seq<char>, key: Seq<char>, pid: PidModel, meta: Seq<u8> },
    List { topic: Seq<char> },
    Get { topic: Seq<char>, key: Seq<char> },
}

impl DeepView for PortableCall {
    type V = PortableCallModel;

    open spec fn deep_view(&self) -> PortableCallModel {
        match self {
            PortableCall::Track { topic, key, pid, meta } => PortableCallModel::Track {
                topic: topic.deep_view(),
                key: key.deep_view(),
                pid: pid.deep_view(),
                meta: meta.deep_view(),
            },
            PortableCall::Untrack { topic, key, pid } => PortableCallModel::Untrack {
                topic: topic.deep_view(),
                key: key.deep_view(),
                pid: pid.deep_view(),
            },
            PortableCall::UntrackAll { pid } => PortableCallModel::UntrackAll {
                pid: pid.deep_view(),
            },
            PortableCall::Update { topic, key, pid, meta } => PortableCallModel::Update {
                topic: topic.deep_view(),
                key: key.deep_view(),
                pid: pid.deep_view(),
                meta: meta.deep_view(),
            },
            PortableCall::List { topic } => PortableCallModel::List {
                topic: topic.deep_view(),
            },
            PortableCall::Get { topic, key } => PortableCallModel::Get {
                topic: topic.deep_view(),
                key: key.deep_view(),
            },
        }
    }
}

impl Wire for PortableCall {
    open spec fn bytes_of(model: PortableCallModel) -> Seq<u8> {
        match model {
            PortableCallModel::Track { topic, key, pid, meta } => u32::bytes_of(0)
                + <(String, (String, (PortablePid, Vec<u8>)))>::bytes_of((topic, (key, (pid, meta)))),
            PortableCallModel::Untrack { topic, key, pid } => u32::bytes_of(1)
                + <(String, (String, PortablePid))>::bytes_of((topic, (key, pid))),
            PortableCallModel::UntrackAll { pid } => u32::bytes_of(2)
                + PortablePid::bytes_of(pid),
            PortableCallModel::Update { topic, key, pid, meta } => u32::bytes_of(3)
                + <(String, (String, (PortablePid, Vec<u8>)))>::bytes_of((topic, (key, (pid, meta)))),
            PortableCallModel::List { topic } => u32::bytes_of(4)
                + String::bytes_of(topic),
            PortableCallModel::Get { topic, key } => u32::bytes_of(5)
                + <(String, String)>::bytes_of((topic, key)),
        }
    }

    open spec fn read(b: Seq<u8>) -> Option<(PortableCallModel, Seq<u8>)> {
        match u32::read(b) {
            Some((tag, rest)) => if tag == 0 {
                match <(String, (String, (PortablePid, Vec<u8>)))>::read(rest) {
                    Some(((topic, (key, (pid, meta))), rest)) => Some(
                        (PortableCallModel::Track { topic, key, pid, meta }, rest),
                    ),
                    None => None,
                }
            } else if tag == 1 {
                match <(String, (String, PortablePid))>::read(rest) {
                    Some(((topic, (key, pid)), rest)) => Some(
                        (PortableCallModel::Untrack { topic, key, pid }, rest),
                    ),
                    None => None,
                }
            } else if tag == 2 {
                match PortablePid::read(rest) {
                    Some((pid, rest)) => Some(
                        (PortableCallModel::UntrackAll { pid }, rest),
                    ),
                    None => None,
                }
            } else if tag == 3 {
                match <(String, (String, (PortablePid, Vec<u8>)))>::read(rest) {
                    Some(((topic, (key, (pid, meta))), rest)) => Some(
                        (PortableCallModel::Update { topic, key, pid, meta }, rest),
                    ),
                    None => None,
                }
            } else if tag == 4 {
                match String::read(rest) {
                    Some((topic, rest)) => Some(
                        (PortableCallModel::List { topic }, rest),
                    ),
                    None => None,
                }
            } else if tag == 5 {
                match <(String, String)>::read(rest) {
                    Some(((topic, key), rest)) => Some(
                        (PortableCallModel::Get { topic, key }, rest),
                    ),
                    None => None,
                }
            } else {
                None
            },
            None => None,
        }
    }

    open spec fn fits(model: PortableCallModel) -> bool {
        match model {
            PortableCallModel::Track { topic, key, pid, meta } => <(String, (String, (PortablePid, Vec<u8>)))>::fits(
                (topic, (key, (pid, meta))),
            ),
            PortableCallModel::Untrack { topic, key, pid } => <(String, (String, PortablePid))>::fits(
                (topic, (key, pid)),
            ),
            PortableCallModel::UntrackAll { pid } => PortablePid::fits(
                pid,
            ),
            PortableCallModel::Update { topic, key, pid, meta } => <(String, (String, (PortablePid, Vec<u8>)))>::fits(
                (topic, (key, (pid, meta))),
            ),
            PortableCallModel::List { topic } => String::fits(
                topic,
            ),
            PortableCallModel::Get { topic, key } => <(String, String)>::fits(
                (topic, key),
            ),
        }
    }

    proof fn round_trip(model: PortableCallModel, rest: Seq<u8>) {
        match model {
            PortableCallModel::Track { topic, key, pid, meta } => {
                lemma_tagged::<(String, (String, (PortablePid, Vec<u8>)))>(
                    0,
                    (topic, (key, (pid, meta))),
                    rest,
                );
            },
            PortableCallModel::Untrack { topic, key, pid } => {
                lemma_tagged::<(String, (String, PortablePid))>(
                    1,
                    (topic, (key, pid)),
                    rest,
                );
            },
            PortableCallModel::UntrackAll { pid } => {
                lemma_tagged::<PortablePid>(
                    2,
                    pid,
                    rest,
                );
            },
            PortableCallModel::Update { topic, key, pid, meta } => {
                lemma_tagged::<(String, (String, (PortablePid, Vec<u8>)))>(
                    3,
                    (topic, (key, (pid, meta))),
                    rest,
                );
            },
            PortableCallModel::List { topic } => {
                lemma_tagged::<String>(
                    4,
                    topic,
                    rest,
                );
            },
            PortableCallModel::Get { topic, key } => {
                lemma_tagged::<(String, String)>(
                    5,
                    (topic, key),
                    rest,
                );
            },
        }
    }

    fn put(&self, out: &mut Vec<u8>) {
        let ghost before = out@;
        match self {
            PortableCall::Track { topic, key, pid, meta } => {
                0u32.put(out);
                topic.put(out);
                key.put(out);
                pid.put(out);
                meta.put(out);
            },
            PortableCall::Untrack { topic, key, pid } => {
                1u32.put(out);
                topic.put(out);
                key.put(out);
                pid.put(out);
            },
            PortableCall::UntrackAll { pid } => {
                2u32.put(out);
                pid.put(out);
            },
            PortableCall::Update { topic, key, pid, meta } => {
                3u32.put(out);
                topic.put(out);
                key.put(out);
                pid.put(out);
                meta.put(out);
            },
            PortableCall::List { topic } => {
                4u32.put(out);
                topic.put(out);
            },
            PortableCall::Get { topic, key } => {
                5u32.put(out);
                topic.put(out);
                key.put(out);
            },
        }
        assert(out@ =~= before + Self::bytes_of(self.deep_view()));
    }

    fn take<'a>(b: &'a [u8]) -> (r: Option<(Self, &'a [u8])>) {
        let (tag, rest) = match u32::take(b) {
            Some(x) => x,
            None => {
                return None;
            },
        };
        if tag == 0 {
            match <(String, (String, (PortablePid, Vec<u8>)))>::take(rest) {
                Some(((topic, (key, (pid, meta))), rest)) => Some(
                    (PortableCall::Track { topic, key, pid, meta }, rest),
                ),
                None => None,
            }
        } else if tag == 1 {
            match <(String, (String, PortablePid))>::take(rest) {
                Some(((topic, (key, pid)), rest)) => Some(
                    (PortableCall::Untrack { topic, key, pid }, rest),
                ),
                None => None,
            }
        } else if tag == 2 {
            match PortablePid::take(rest) {
                Some((pid, rest)) => Some(
                    (PortableCall::UntrackAll { pid }, rest),
                ),
                None => None,
            }
        } else if tag == 3 {
            match <(String, (String, (PortablePid, Vec<u8>)))>::take(rest) {
                Some(((topic, (key, (pid, meta))), rest)) => Some(
                    (PortableCall::Update { topic, key, pid, meta }, rest),
                ),
                None => None,
            }
        } else if tag == 4 {
            match String::take(rest) {
                Some((topic, rest)) => Some(
                    (PortableCall::List { topic }, rest),
                ),
                None => None,
            }
        } else if tag == 5 {
            match <(String, String)>::take(rest) {
                Some(((topic, key), rest)) => Some(
                    (PortableCall::Get { topic, key }, rest),
                ),
                None => None,
            }
        } else {
            None
        }
    }
}

/// What a call says to any node.
pub open spec fn portable_call(atoms: &AtomTable, m: PresenceCall) -> PortableCallModel {
    match m {
        PresenceCall::Track { topic, key, pid, meta } => PortableCallModel::Track {
            topic: topic@,
            key: key@,
            pid: portable(atoms, pid),
            meta: meta@,
        },
        PresenceCall::Untrack { topic, key, pid } => PortableCallModel::Untrack {
            topic: topic@,
            key: key@,
            pid: portable(atoms, pid),
        },
        PresenceCall::UntrackAll { pid } => PortableCallModel::UntrackAll {
            pid: portable(atoms, pid),
        },
        PresenceCall::Update { topic, key, pid, meta } => PortableCallModel::Update {
            topic: topic@,
            key: key@,
            pid: portable(atoms, pid),
            meta: meta@,
        },
        PresenceCall::List { topic } => PortableCallModel::List {
            topic: topic@,
        },
        PresenceCall::Get { topic, key } => PortableCallModel::Get {
            topic: topic@,
            key: key@,
        },
    }
}

/// Whether the node of the process that a call names, if it names one, is known.
pub open spec fn knows_call(atoms: &AtomTable, m: PresenceCall) -> bool {
    match m {
        PresenceCall::Track { topic, key, pid, meta } => atoms.knows(pid.spec_node()),
        PresenceCall::Untrack { topic, key, pid } => atoms.knows(pid.spec_node()),
        PresenceCall::UntrackAll { pid } => atoms.knows(pid.spec_node()),
        PresenceCall::Update { topic, key, pid, meta } => atoms.knows(pid.spec_node()),
        _ => true,
    }
}

/// The strings of a table after a call was read.
pub open spec fn after_reading_call(strings: Seq<Seq<char>>, m: PortableCallModel) -> Seq<
    Seq<char>,
> {
    match m {
        PortableCallModel::Track { topic, key, pid, meta } => interned(strings, pid.node),
        PortableCallModel::Untrack { topic, key, pid } => interned(strings, pid.node),
        PortableCallModel::UntrackAll { pid } => interned(strings, pid.node),
        PortableCallModel::Update { topic, key, pid, meta } => interned(strings, pid.node),
        _ => strings,
    }
}

impl PresenceCall {
    /// The call as bytes.
    pub fn encode(&self, atoms: &AtomTable) -> (r: Vec<u8>)
        requires
            knows_call(atoms, *self),
        ensures
            r@ == PortableCall::bytes_of(portable_call(atoms, *self)),
    {
        let m = match self {
            PresenceCall::Track { topic, key, pid, meta } => {
                assert(meta.deep_view() =~= meta@);
                PortableCall::Track {
                    topic: topic.clone(),
                    key: key.clone(),
                    pid: PortablePid::of(atoms, *pid),
                    meta: meta.duplicate(),
                }
            },
            PresenceCall::Untrack { topic, key, pid } => PortableCall::Untrack {
                topic: topic.clone(),
                key: key.clone(),
                pid: PortablePid::of(atoms, *pid),
            },
            PresenceCall::UntrackAll { pid } => PortableCall::UntrackAll {
                pid: PortablePid::of(atoms, *pid),
            },
            PresenceCall::Update { topic, key, pid, meta } => {
                assert(meta.deep_view() =~= meta@);
                PortableCall::Update {
                    topic: topic.clone(),
                    key: key.clone(),
                    pid: PortablePid::of(atoms, *pid),
                    meta: meta.duplicate(),
                }
            },
            PresenceCall::List { topic } => PortableCall::List {
                topic: topic.clone(),
            },
            PresenceCall::Get { topic, key } => PortableCall::Get {
                topic: topic.clone(),
                key: key.clone(),
            },
        };
        encode(&m)
    }

    /// The call from bytes.
    pub fn decode(atoms: &mut AtomTable, b: &[u8]) -> (r: Option<PresenceCall>)
        requires
            old(atoms).well_formed(),
            old(atoms).room_for(1),
        ensures
            final(atoms).well_formed(),
            match PortableCall::read(b@) {
                Some((model, rest)) => {
                    &&& r matches Some(m)
                    &&& final(atoms)@ == after_reading_call(old(atoms)@, model)
                    &&& knows_call(final(atoms), m)
                    &&& portable_call(final(atoms), m) == model
                },
                None => r is None && final(atoms)@ == old(atoms)@,
            },
    {
        match decode::<PortableCall>(b) {
            Some(PortableCall::Track { topic, key, pid, meta }) => {
                assert(meta.deep_view() =~= meta@);
                let pid = pid.localize(atoms);
                Some(PresenceCall::Track { topic, key, pid, meta })
            },
            Some(PortableCall::Untrack { topic, key, pid }) => {
                let pid = pid.localize(atoms);
                Some(PresenceCall::Untrack { topic, key, pid })
            },
            Some(PortableCall::UntrackAll { pid }) => {
                let pid = pid.localize(atoms);
                Some(PresenceCall::UntrackAll { pid })
            },
            Some(PortableCall::Update { topic, key, pid, meta }) => {
                assert(meta.deep_view() =~= meta@);
                let pid = pid.localize(atoms);
                Some(PresenceCall::Update { topic, key, pid, meta })
            },
            Some(PortableCall::List { topic }) => Some(PresenceCall::List { topic }),
            Some(PortableCall::Get { topic, key }) => Some(PresenceCall::Get { topic, key }),
            None => None,
        }
    }
}

/// What a presence server is told, for any node to read.
#[derive(Debug)]
#[allow(inconsistent_fields)]
pub enum PortableCast {
    ApplyDelta { topic: String, joins: PortableRows, leaves: PortableRows },
    SyncState { topic: String, state: PortableRows },
}

/// What it says.
#[allow(inconsistent_fields)]
pub enum PortableCastModel {
    ApplyDelta { topic: Seq<char>, joins: Seq<(Seq<char>, Seq<PortableMetaModel>)>, leaves: Seq<(Seq<char>, Seq<PortableMetaModel>)> },
    SyncState { topic: Seq<char>, state: Seq<(Seq<char>, Seq<PortableMetaModel>)> },
}

impl DeepView for PortableCast {
    type V = PortableCastModel;

    open spec fn deep_view(&self) -> PortableCastModel {
        match self {
            PortableCast::ApplyDelta { topic, joins, leaves } => PortableCastModel::ApplyDelta {
                topic: topic.deep_view(),
                joins: joins.deep_view(),
                leaves: leaves.deep_view(),
            },
            PortableCast::SyncState { topic, state } => PortableCastModel::SyncState {
                topic: topic.deep_view(),
                state: state.deep_view(),
            },
        }
    }
}

impl Wire for PortableCast {
    open spec fn bytes_of(model: PortableCastModel) -> Seq<u8> {
        match model {
            PortableCastModel::ApplyDelta { topic, joins, leaves } => u32::bytes_of(0)
                + <(String, (PortableRows, PortableRows))>::bytes_of((topic, (joins, leaves))),
            PortableCastModel::SyncState { topic, state } => u32::bytes_of(1)
                + <(String, PortableRows)>::bytes_of((topic, state)),
        }
    }

    open spec fn read(b: Seq<u8>) -> Option<(PortableCastModel, Seq<u8>)> {
        match u32::read(b) {
            Some((tag, rest)) => if tag == 0 {
                match <(String, (PortableRows, PortableRows))>::read(rest) {
                    Some(((topic, (joins, leaves)), rest)) => Some(
                        (PortableCastModel::ApplyDelta { topic, joins, leaves }, rest),
                    ),
                    None => None,
                }
            } else if tag == 1 {
                match <(String, PortableRows)>::read(rest) {
                    Some(((topic, state), rest)) => Some(
                        (PortableCastModel::SyncState { topic, state }, rest),
                    ),
                    None => None,
                }
            } else {
                None
            },
            None => None,
        }
    }

    open spec fn fits(model: PortableCastModel) -> bool {
        match model {
            PortableCastModel::ApplyDelta { topic, joins, leaves } => <(String, (PortableRows, PortableRows))>::fits(
                (topic, (joins, leaves)),
            ),
            PortableCastModel::SyncState { topic, state } => <(String, PortableRows)>::fits(
                (topic, state),
            ),
        }
    }

    proof fn round_trip(model: PortableCastModel, rest: Seq<u8>) {
        match model {
            PortableCastModel::ApplyDelta { topic, joins, leaves } => {
                lemma_tagged::<(String, (PortableRows, PortableRows))>(
                    0,
                    (topic, (joins, leaves)),
                    rest,
                );
            },
            PortableCastModel::SyncState { topic, state } => {
                lemma_tagged::<(String, PortableRows)>(
                    1,
                    (topic, state),
                    rest,
                );
            },
        }
    }

    fn put(&self, out: &mut Vec<u8>) {
        let ghost before = out@;
        match self {
            PortableCast::ApplyDelta { topic, joins, leaves } => {
                0u32.put(out);
                topic.put(out);
                joins.put(out);
                leaves.put(out);
            },
            PortableCast::SyncState { topic, state } => {
                1u32.put(out);
                topic.put(out);
                state.put(out);
            },
        }
        assert(out@ =~= before + Self::bytes_of(self.deep_view()));
    }

    fn take<'a>(b: &'a [u8]) -> (r: Option<(Self, &'a [u8])>) {
        let (tag, rest) = match u32::take(b) {
            Some(x) => x,
            None => {
                return None;
            },
        };
        if tag == 0 {
            match <(String, (PortableRows, PortableRows))>::take(rest) {
                Some(((topic, (joins, leaves)), rest)) => Some(
                    (PortableCast::ApplyDelta { topic, joins, leaves }, rest),
                ),
                None => None,
            }
        } else if tag == 1 {
            match <(String, PortableRows)>::take(rest) {
                Some(((topic, state), rest)) => Some(
                    (PortableCast::SyncState { topic, state }, rest),
                ),
                None => None,
            }
        } else {
            None
        }
    }
}

/// What a cast says to any node.
pub open spec fn portable_cast(atoms: &AtomTable, m: PresenceCast) -> PortableCastModel {
    match m {
        PresenceCast::ApplyDelta { topic, diff } => PortableCastModel::ApplyDelta {
            topic: topic@,
            joins: portable_rows(atoms, diff.joins.rows()),
            leaves: portable_rows(atoms, diff.leaves.rows()),
        },
        PresenceCast::SyncState { topic, state } => PortableCastModel::SyncState {
            topic: topic@,
            state: portable_rows(atoms, state.rows()),
        },
    }
}

/// Whether the nodes of the processes that a cast names are known.
pub open spec fn knows_cast(atoms: &AtomTable, m: PresenceCast) -> bool {
    match m {
        PresenceCast::ApplyDelta { topic, diff } => knows_rows(atoms, diff.joins.rows())
            && knows_rows(atoms, diff.leaves.rows()),
        PresenceCast::SyncState { topic, state } => knows_rows(atoms, state.rows()),
    }
}

/// The strings of a table after a cast was read.
pub open spec fn after_reading_cast(strings: Seq<Seq<char>>, m: PortableCastModel) -> Seq<
    Seq<char>,
> {
    match m {
        PortableCastModel::ApplyDelta { topic, joins, leaves } => interned_all(
            strings,
            names_of_rows(joins) + names_of_rows(leaves),
        ),
        PortableCastModel::SyncState { topic, state } => interned_all(
            strings,
            names_of_rows(state),
        ),
    }
}

/// Whether a cast is what was read.
pub open spec fn is_cast_import(atoms: &AtomTable, m: PresenceCast, read: PortableCastModel) -> bool {
    match (m, read) {
        (
            PresenceCast::ApplyDelta { topic: t, diff },
            PortableCastModel::ApplyDelta { topic, joins, leaves },
        ) => {
            &&& t@ == topic
            &&& is_import(atoms, diff.joins.deep_view(), topic_from(joins))
            &&& is_import(atoms, diff.leaves.deep_view(), topic_from(leaves))
        },
        (
            PresenceCast::SyncState { topic: t, state: s },
            PortableCastModel::SyncState { topic, state },
        ) => t@ == topic && is_import(atoms, s.deep_view(), topic_from(state)),
        _ => false,
    }
}

impl PresenceCast {
    /// The cast as bytes.
    pub fn encode(&self, atoms: &AtomTable) -> (r: Vec<u8>)
        requires
            knows_cast(atoms, *self),
        ensures
            r@ == PortableCast::bytes_of(portable_cast(atoms, *self)),
    {
        let m = match self {
            PresenceCast::ApplyDelta { topic, diff } => PortableCast::ApplyDelta {
                topic: topic.clone(),
                joins: export_rows(atoms, &diff.joins),
                leaves: export_rows(atoms, &diff.leaves),
            },
            PresenceCast::SyncState { topic, state } => PortableCast::SyncState {
                topic: topic.clone(),
                state: export_rows(atoms, state),
            },
        };
        encode(&m)
    }

    /// The cast from bytes. There is none where the names of nodes in it that are
    /// new do not fit into the table.
    pub fn decode(atoms: &mut AtomTable, b: &[u8]) -> (r: Option<PresenceCast>)
        requires
            old(atoms).well_formed(),
        ensures
            final(atoms).well_formed(),
            match PortableCast::read(b@) {
                Some((model, rest)) => if after_reading_cast(old(atoms)@, model).len()
                    <= capacity() {
                    &&& r matches Some(m)
                    &&& is_cast_import(final(atoms), m, model)
                    &&& final(atoms)@ == after_reading_cast(old(atoms)@, model)
                } else {
                    r is None && final(atoms)@ == old(atoms)@
                },
                None => r is None && final(atoms)@ == old(atoms)@,
            },
    {
        let mut new: Vec<String> = Vec::new();
        assert(atoms@ + new.deep_view() =~= atoms@);
        match decode::<PortableCast>(b) {
            Some(PortableCast::ApplyDelta { topic, joins, leaves }) => {
                proof {
                    lemma_interned_add(
                        atoms@,
                        names_of_rows(joins.deep_view()),
                        names_of_rows(leaves.deep_view()),
                    );
                }
                note_row_names(atoms, &joins, &mut new);
                note_row_names(atoms, &leaves, &mut new);
                if !atoms.has_room(new.len()) {
                    return None;
                }
                let ghost read = topic_from(joins.deep_view());
                let joins = import_rows(atoms, joins);
                let ghost between = *atoms;
                let ghost names = names_of_rows(leaves.deep_view());
                let leaves = import_rows(atoms, leaves);
                proof {
                    lemma_grown(between, *atoms, names);
                    lemma_grown_import(between, *atoms, joins.deep_view(), read);
                }
                Some(PresenceCast::ApplyDelta { topic, diff: PresenceDiff { joins, leaves } })
            },
            Some(PortableCast::SyncState { topic, state }) => {
                note_row_names(atoms, &state, &mut new);
                if !atoms.has_room(new.len()) {
                    return None;
                }
                Some(PresenceCast::SyncState { topic, state: import_rows(atoms, state) })
            },
            None => None,
        }
    }
}

/// What a presence server replies, for any node to read.
#[derive(Debug)]
#[allow(inconsistent_fields)]
pub enum PortableReply {
    Done(Option<String>),
    List(PortableRows),
    Get(Option<WireList<PortableMeta>>),
}

/// What it says.
#[allow(inconsistent_fields)]
pub enum PortableReplyModel {
    Done(Option<Seq<char>>),
    List(Seq<(Seq<char>, Seq<PortableMetaModel>)>),
    Get(Option<Seq<PortableMetaModel>>),
}

impl DeepView for PortableReply {
    type V = PortableReplyModel;

    open spec fn deep_view(&self) -> PortableReplyModel {
        match self {
            PortableReply::Done(phx_ref) => PortableReplyModel::Done(phx_ref.deep_view()),
            PortableReply::List(presences) => PortableReplyModel::List(presences.deep_view()),
            PortableReply::Get(state) => PortableReplyModel::Get(state.deep_view()),
        }
    }
}

impl Wire for PortableReply {
    open spec fn bytes_of(model: PortableReplyModel) -> Seq<u8> {
        match model {
            PortableReplyModel::Done(phx_ref) => u32::bytes_of(0)
                + <Option<String>>::bytes_of(phx_ref),
            PortableReplyModel::List(presences) => u32::bytes_of(1)
                + PortableRows::bytes_of(presences),
            PortableReplyModel::Get(state) => u32::bytes_of(2)
                + <Option<WireList<PortableMeta>>>::bytes_of(state),
        }
    }

    open spec fn read(b: Seq<u8>) -> Option<(PortableReplyModel, Seq<u8>)> {
        match u32::read(b) {
            Some((tag, rest)) => if tag == 0 {
                match <Option<String>>::read(rest) {
                    Some((phx_ref, rest)) => Some(
                        (PortableReplyModel::Done(phx_ref), rest),
                    ),
                    None => None,
                }
            } else if tag == 1 {
                match PortableRows::read(rest) {
                    Some((presences, rest)) => Some(
                        (PortableReplyModel::List(presences), rest),
                    ),
                    None => None,
                }
            } else if tag == 2 {
                match <Option<WireList<PortableMeta>>>::read(rest) {
                    Some((state, rest)) => Some(
                        (PortableReplyModel::Get(state), rest),
                    ),
                    None => None,
                }
            } else {
                None
            },
            None => None,
        }
    }

    open spec fn fits(model: PortableReplyModel) -> bool {
        match model {
            PortableReplyModel::Done(phx_ref) => <Option<String>>::fits(
                phx_ref,
            ),
            PortableReplyModel::List(presences) => PortableRows::fits(
                presences,
            ),
            PortableReplyModel::Get(state) => <Option<WireList<PortableMeta>>>::fits(
                state,
            ),
        }
    }

    proof fn round_trip(model: PortableReplyModel, rest: Seq<u8>) {
        match model {
            PortableReplyModel::Done(phx_ref) => {
                lemma_tagged::<Option<String>>(
                    0,
                    phx_ref,
                    rest,
                );
            },
            PortableReplyModel::List(presences) => {
                lemma_tagged::<PortableRows>(
                    1,
                    presences,
                    rest,
                );
            },
            PortableReplyModel::Get(state) => {
                lemma_tagged::<Option<WireList<PortableMeta>>>(
                    2,
                    state,
                    rest,
                );
            },
        }
    }

    fn put(&self, out: &mut Vec<u8>) {
        let ghost before = out@;
        match self {
            PortableReply::Done(phx_ref) => {
                0u32.put(out);
                phx_ref.put(out);
            },
            PortableReply::List(presences) => {
                1u32.put(out);
                presences.put(out);
            },
            PortableReply::Get(state) => {
                2u32.put(out);
                state.put(out);
            },
        }
        assert(out@ =~= before + Self::bytes_of(self.deep_view()));
    }

    fn take<'a>(b: &'a [u8]) -> (r: Option<(Self, &'a [u8])>) {
        let (tag, rest) = match u32::take(b) {
            Some(x) => x,
            None => {
                return None;
            },
        };
        if tag == 0 {
            match <Option<String> as Wire>::take(rest) {
                Some((phx_ref, rest)) => Some(
                    (PortableReply::Done(phx_ref), rest),
                ),
                None => None,
            }
        } else if tag == 1 {
            match PortableRows::take(rest) {
                Some((presences, rest)) => Some(
                    (PortableReply::List(presences), rest),
                ),
                None => None,
            }
        } else if tag == 2 {
            match <Option<WireList<PortableMeta>> as Wire>::take(rest) {
                Some((state, rest)) => Some(
                    (PortableReply::Get(state), rest),
                ),
                None => None,
            }
        } else {
            None
        }
    }
}

/// What a reply says to any node.
pub open spec fn portable_reply(atoms: &AtomTable, m: PresenceReply) -> PortableReplyModel {
    match m {
        PresenceReply::Done(phx_ref) => PortableReplyModel::Done(phx_ref.deep_view()),
        PresenceReply::List(presences) => PortableReplyModel::List(
            portable_rows(atoms, presences.rows()),
        ),
        PresenceReply::Get(Some(state)) => PortableReplyModel::Get(
            Some(portable_metas(atoms, state.metas.deep_view())),
        ),
        PresenceReply::Get(None) => PortableReplyModel::Get(None),
    }
}

/// Whether the nodes of the processes that a reply names are known.
pub open spec fn knows_reply(atoms: &AtomTable, m: PresenceReply) -> bool {
    match m {
        PresenceReply::List(presences) => knows_rows(atoms, presences.rows()),
        PresenceReply::Get(Some(state)) => knows_metas(atoms, state.metas.deep_view()),
        _ => true,
    }
}

/// The strings of a table after a reply was read.
pub open spec fn after_reading_reply(strings: Seq<Seq<char>>, m: PortableReplyModel) -> Seq<
    Seq<char>,
> {
    match m {
        PortableReplyModel::List(presences) => interned_all(strings, names_of_rows(presences)),
        PortableReplyModel::Get(Some(metas)) => interned_all(strings, names_of_metas(metas)),
        _ => strings,
    }
}

/// Whether a reply is what was read.
pub open spec fn is_reply_import(
    atoms: &AtomTable,
    m: PresenceReply,
    read: PortableReplyModel,
) -> bool {
    match (m, read) {
        (PresenceReply::Done(a), PortableReplyModel::Done(b)) => a.deep_view() == b,
        (PresenceReply::List(a), PortableReplyModel::List(b)) => is_import(
            atoms,
            a.deep_view(),
            topic_from(b),
        ),
        (PresenceReply::Get(Some(a)), PortableReplyModel::Get(Some(b))) => {
            &&& knows_metas(atoms, a.metas.deep_view())
            &&& portable_metas(atoms, a.metas.deep_view()) == b
        },
        (PresenceReply::Get(None), PortableReplyModel::Get(None)) => true,
        _ => false,
    }
}

impl PresenceReply {
    /// The reply as bytes.
    pub fn encode(&self, atoms: &AtomTable) -> (r: Vec<u8>)
        requires
            knows_reply(atoms, *self),
        ensures
            r@ == PortableReply::bytes_of(portable_reply(atoms, *self)),
    {
        let m = match self {
            PresenceReply::Done(Some(phx_ref)) => PortableReply::Done(
                Some(phx_ref.as_str().to_owned()),
            ),
            PresenceReply::Done(None) => PortableReply::Done(None),
            PresenceReply::List(presences) => PortableReply::List(export_rows(atoms, presences)),
            PresenceReply::Get(Some(state)) => PortableReply::Get(
                Some(export_metas(atoms, &state.metas)),
            ),
            PresenceReply::Get(None) => PortableReply::Get(None),
        };
        encode(&m)
    }

    /// The reply from bytes. There is none where the names of nodes in it that are
    /// new do not fit into the table.
    pub fn decode(atoms: &mut AtomTable, b: &[u8]) -> (r: Option<PresenceReply>)
        requires
            old(atoms).well_formed(),
        ensures
            final(atoms).well_formed(),
            match PortableReply::read(b@) {
                Some((model, rest)) => if after_reading_reply(old(atoms)@, model).len()
                    <= capacity() {
                    &&& r matches Some(m)
                    &&& is_reply_import(final(atoms), m, model)
                    &&& final(atoms)@ == after_reading_reply(old(atoms)@, model)
                } else {
                    r is None && final(atoms)@ == old(atoms)@
                },
                None => r is None && final(atoms)@ == old(atoms)@,
            },
    {
        let mut new: Vec<String> = Vec::new();
        proof {
            assert(atoms@ + new.deep_view() =~= atoms@);
            atoms.lemma_distinct();
        }
        match decode::<PortableReply>(b) {
            Some(PortableReply::Done(Some(phx_ref))) => Some(
                PresenceReply::Done(Some(PresenceRef::from_text(phx_ref))),
            ),
            Some(PortableReply::Done(None)) => Some(PresenceReply::Done(None)),
            Some(PortableReply::List(presences)) => {
                note_row_names(atoms, &presences, &mut new);
                if !atoms.has_room(new.len()) {
                    return None;
                }
                Some(PresenceReply::List(import_rows(atoms, presences)))
            },
            Some(PortableReply::Get(Some(metas))) => {
                note_names(atoms, &metas, &mut new);
                if !atoms.has_room(new.len()) {
                    return None;
                }
                Some(PresenceReply::Get(Some(PresenceState { metas: import_metas(atoms, metas) })))
            },
            Some(PortableReply::Get(None)) => Some(PresenceReply::Get(None)),
            None => None,
        }
    }
}

/// A cast that is read back on the node that wrote it says the same, every part of it.
pub proof fn presence_cast_survives_wire(atoms: AtomTable, sent: PresenceCast, got: PresenceCast)
    requires
        atoms.well_formed(),
        knows_cast(&atoms, sent),
        sent matches PresenceCast::SyncState { topic, state } ==> distinct_keys(state.rows()),
        sent matches PresenceCast::ApplyDelta { topic, diff } ==> distinct_keys(diff.joins.rows())
            && distinct_keys(diff.leaves.rows()),
        is_cast_import(&atoms, got, portable_cast(&atoms, sent)),
    ensures
        match (sent, got) {
            (
                PresenceCast::ApplyDelta { topic: t, diff: d },
                PresenceCast::ApplyDelta { topic, diff },
            ) => {
                &&& topic@ == t@
                &&& diff.joins.deep_view() == d.joins.deep_view()
                &&& diff.leaves.deep_view() == d.leaves.deep_view()
            },
            (
                PresenceCast::SyncState { topic: t, state: s },
                PresenceCast::SyncState { topic, state },
            ) => topic@ == t@ && state.deep_view() == s.deep_view(),
            _ => false,
        },
{
    match (sent, got) {
        (
            PresenceCast::SyncState { topic: t, state: s },
            PresenceCast::SyncState { topic, state },
        ) => {
            lemma_topic_survives(atoms, s.rows(), state.deep_view());
        },
        (
            PresenceCast::ApplyDelta { topic: t, diff: d },
            PresenceCast::ApplyDelta { topic, diff },
        ) => {
            lemma_topic_survives(atoms, d.joins.rows(), diff.joins.deep_view());
            lemma_topic_survives(atoms, d.leaves.rows(), diff.leaves.deep_view());
        },
        _ => {},
    }
}

/// A reply that is read back on the node that wrote it says the same, every part of
/// it.
pub proof fn presence_reply_survives_wire(
    atoms: AtomTable,
    sent: PresenceReply,
    got: PresenceReply,
)
    requires
        atoms.well_formed(),
        knows_reply(&atoms, sent),
        sent matches PresenceReply::List(presences) ==> distinct_keys(presences.rows()),
        is_reply_import(&atoms, got, portable_reply(&atoms, sent)),
    ensures
        match (sent, got) {
            (PresenceReply::Done(Some(a)), PresenceReply::Done(Some(b))) => a.deep_view()
                == b.deep_view(),
            (PresenceReply::Done(None), PresenceReply::Done(None)) => true,
            (PresenceReply::List(a), PresenceReply::List(b)) => a.deep_view() == b.deep_view(),
            (PresenceReply::Get(Some(a)), PresenceReply::Get(Some(b))) => a.metas.deep_view()
                == b.metas.deep_view(),
            (PresenceReply::Get(None), PresenceReply::Get(None)) => true,
            _ => false,
        },
{
    match (sent, got) {
        (PresenceReply::List(a), PresenceReply::List(b)) => {
            lemma_topic_survives(atoms, a.rows(), b.deep_view());
        },
        (PresenceReply::Get(Some(a)), PresenceReply::Get(Some(b))) => {
            lemma_metas_survive(atoms, b.metas.deep_view(), a.metas.deep_view());
        },
        _ => {},
    }
}

} // verus!
