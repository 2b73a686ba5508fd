//! A client's connection to a topic.
use crate::base::pid::Pid;
use crate::data::{next_number, Data};
use crate::text::{hexadecimal, join3, numeral};
use vstd::prelude::*;

verus! {

/// The text of a simple unique identifier.
pub open spec fn uuid_text(timestamp: u64, count: u64) -> Seq<char> {
    numeral(timestamp as nat, 16) + "-"@ + numeral(count as nat, 16)
}

/// A simple unique identifier, made at `timestamp` nanoseconds since the epoch.
/// `counter` runs on with each one.
pub fn uuid_simple(timestamp: u64, counter: &mut u64) -> (r: String)
    ensures
        r@ == uuid_text(timestamp, *old(counter)),
        *final(counter) == next_number(*old(counter)),
{
    let count: u64 = *counter;
    *counter = count.wrapping_add(1);
    join3(hexadecimal(timestamp).as_str(), "-", hexadecimal(count).as_str())
}

/// Identifiers are different whenever their times or their running numbers are.
pub proof fn uuids_differ(t1: u64, c1: u64, t2: u64, c2: u64)
    requires
        t1 != t2 || c1 != c2,
    ensures
        uuid_text(t1, c1) != uuid_text(t2, c2),
{
    let sep = '-';
    let (a, b) = (numeral(t1 as nat, 16), numeral(c1 as nat, 16));
    let (c, d) = (numeral(t2 as nat, 16), numeral(c2 as nat, 16));
    crate::text::lemma_numeral_value(t1 as nat, 16);
    crate::text::lemma_numeral_value(t2 as nat, 16);
    reveal_strlit("-");
    if uuid_text(t1, c1) == uuid_text(t2, c2) {
        assert(uuid_text(t1, c1) =~= a.push(sep) + b);
        assert(uuid_text(t2, c2) =~= c.push(sep) + d);
        crate::text::lemma_split_unique(a, b, c, d, sep);
        crate::text::lemma_numeral_injective(t1 as nat, t2 as nat, 16);
        crate::text::lemma_numeral_injective(c1 as nat, c2 as nat, 16);
    }
}

/// A client's connection to a topic, with state of the handler's own.
#[derive(Debug)]
pub struct Socket<A> {
    /// The process that handles the connection.
    pub pid: Pid,
    /// The topic.
    pub topic: String,
    /// The reference of the join.
    pub join_ref: String,
    /// The handler's state.
    pub assigns: A,
}

/// What a connection is.
pub struct SocketModel<A> {
    pub pid: Pid,
    pub topic: Seq<char>,
    pub join_ref: Seq<char>,
    pub assigns: A,
}

impl<A: DeepView> DeepView for Socket<A> {
    type V = SocketModel<A::V>;

    open spec fn deep_view(&self) -> SocketModel<A::V> {
        SocketModel {
            pid: self.pid,
            topic: self.topic@,
            join_ref: self.join_ref@,
            assigns: self.assigns.deep_view(),
        }
    }
}

impl<A: Data> Data for Socket<A> {
    fn same(&self, other: &Self) -> (r: bool) {
        self.pid == other.pid && self.topic.same(&other.topic) && self.join_ref.same(
            &other.join_ref,
        ) && self.assigns.same(&other.assigns)
    }

    fn duplicate(&self) -> (r: Self) {
        Socket {
            pid: self.pid,
            topic: self.topic.clone(),
            join_ref: self.join_ref.clone(),
            assigns: self.assigns.duplicate(),
        }
    }
}

impl<A> Socket<A> {
    /// A connection without state, made at `timestamp` nanoseconds since the epoch.
    pub fn new(pid: Pid, topic: &str, timestamp: u64, counter: &mut u64) -> (r: Socket<()>)
        ensures
            r.pid == pid,
            r.topic@ == topic@,
            r.join_ref@ == uuid_text(timestamp, *old(counter)),
            *final(counter) == next_number(*old(counter)),
    {
        Socket {
            pid,
            topic: topic.to_owned(),
            join_ref: uuid_simple(timestamp, counter),
            assigns: (),
        }
    }

    /// The connection with other state.
    pub fn assign<B>(self, assigns: B) -> (r: Socket<B>)
        ensures
            r.pid == self.pid,
            r.topic == self.topic,
            r.join_ref == self.join_ref,
            r.assigns == assigns,
    {
        Socket { pid: self.pid, topic: self.topic, join_ref: self.join_ref, assigns }
    }

    /// Changes the state of the connection by a function.
    pub fn update_assigns<F: FnOnce(&mut A)>(&mut self, f: F)
        requires
            forall|a: &mut A| *a == old(self).assigns ==> f.requires((a,)),
        ensures
            final(self).pid == old(self).pid,
            final(self).topic == old(self).topic,
            final(self).join_ref == old(self).join_ref,
            exists|a: &mut A|
                *a == old(self).assigns && *final(a) == final(self).assigns && f.ensures((a,), ()),
    {
        f(&mut self.assigns);
    }

    /// The same connection with other state.
    pub fn retyped<B>(&self, assigns: B) -> (r: Socket<B>)
        ensures
            r.pid == self.pid,
            r.topic == self.topic,
            r.join_ref == self.join_ref,
            r.assigns == assigns,
    {
        Socket {
            pid: self.pid,
            topic: self.topic.clone(),
            join_ref: self.join_ref.clone(),
            assigns,
        }
    }
}

impl Socket<()> {
    /// A connection without state, made at `timestamp` nanoseconds since the epoch.
    pub fn with_pid(pid: Pid, topic: &str, timestamp: u64, counter: &mut u64) -> (r: Self)
        ensures
            r.pid == pid,
            r.topic@ == topic@,
            r.join_ref@ == uuid_text(timestamp, *old(counter)),
            *final(counter) == next_number(*old(counter)),
    {
        Socket::<()>::new(pid, topic, timestamp, counter)
    }
}

} // verus!
