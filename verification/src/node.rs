//! This node among the others.
use crate::atom::Atom;
use crate::base::node::{is_distributed, node_name, node_name_atom, LocalNode, NodeName};
use crate::base::pid::Pid;
use crate::base::reference::Ref;
use crate::data::{next_number, position};
use crate::distribution::node::{Config, DistError, Manager};
use crate::text::{decimal, join2, numeral};
use vstd::prelude::*;

verus! {

/// Which nodes are listed.
#[derive(Clone, Copy, Debug, PartialEq, Eq, Structural)]
pub enum ListOption {
    /// Those that are connected.
    Connected,
    /// Those that are connected or were before.
    Known,
    /// Those that a connection was tried with, which are the connected ones.
    This,
    /// Those that are connected, and this one.
    Visible,
    /// Those that are hidden. There are none.
    Hidden,
}

/// What a ping came to.
#[derive(Clone, Copy, Debug, PartialEq, Eq, Structural)]
pub enum PingResult {
    /// The node is there.
    Pong,
    /// The node is not there.
    Pang,
}

/// Whether this node is part of a cluster.
pub fn is_alive(node: &LocalNode) -> (r: bool)
    ensures
        r == (node.identity is Some),
{
    is_distributed(node)
}

/// This node's name, if it is part of a cluster.
pub fn current(node: &LocalNode) -> (r: Option<&NodeName>)
    ensures
        match r {
            Some(name) => node.identity matches Some(identity) && *name == identity.name,
            None => node.identity is None,
        },
{
    node_name(node)
}

/// The atom that stands for this node.
pub fn current_atom(node: &LocalNode) -> (r: Atom)
    ensures
        r == node.name_atom(),
{
    node_name_atom(node)
}

/// Selects the nodes that are not connected.
pub open spec fn not_connected(connected: Seq<Atom>) -> spec_fn(Atom) -> bool {
    |a: Atom| !connected.contains(a)
}

/// The nodes that are asked for, of those that are connected and those that were
/// before.
pub fn list(node: &LocalNode, connected: Vec<Atom>, before: &Vec<Atom>, option: ListOption) -> (r:
    Vec<Atom>)
    ensures
        r@ == (match option {
            ListOption::Known => connected@ + before@.filter(not_connected(connected@)),
            ListOption::Visible => connected@.push(node.name_atom()),
            ListOption::Hidden => Seq::empty(),
            _ => connected@,
        }),
{
    match option {
        ListOption::Connected => connected,
        ListOption::Known => {
            let mut earlier = others(&connected, before);
            let mut nodes = connected;
            nodes.append(&mut earlier);
            nodes
        },
        ListOption::This => connected,
        ListOption::Visible => {
            let mut nodes = connected;
            nodes.push(node_name_atom(node));
            nodes
        },
        ListOption::Hidden => Vec::new(),
    }
}

/// The nodes that were connected at some time, with those that now are, each
/// once behind the ones that came before it.
pub open spec fn remembered(before: Seq<Atom>, connected: Seq<Atom>) -> Seq<Atom>
    decreases connected.len(),
{
    if connected.len() == 0 {
        before
    } else {
        let some = remembered(before, connected.drop_last());
        if some.contains(connected.last()) {
            some
        } else {
            some.push(connected.last())
        }
    }
}

/// Notes the connected nodes among those that were connected at some time.
pub fn remember(before: &mut Vec<Atom>, connected: &Vec<Atom>)
    ensures
        final(before)@ == remembered(old(before)@, connected@),
        final(before)@.to_set() == old(before)@.to_set().union(connected@.to_set()),
        old(before)@.is_prefix_of(final(before)@),
        old(before)@.no_duplicates() ==> final(before)@.no_duplicates(),
{
    let ghost start = before@;
    let mut i: usize = 0;
    proof {
        assert(connected@.take(0) =~= Seq::empty());
        assert(start.to_set().union(connected@.take(0).to_set()) =~= start.to_set());
    }
    while i < connected.len()
        invariant
            i <= connected.len(),
            start == old(before)@,
            before@ == remembered(start, connected@.take(i as int)),
            before@.to_set() == start.to_set().union(connected@.take(i as int).to_set()),
            start.is_prefix_of(before@),
            start.no_duplicates() ==> before@.no_duplicates(),
        decreases connected.len() - i,
    {
        let node = connected[i];
        let ghost some = before@;
        proof {
            let seen = connected@.take(i as int);
            assert(connected@.take(i + 1) =~= seen.push(node));
            assert(connected@.take(i + 1).drop_last() =~= seen);
            seen.lemma_push_to_set_commute(node);
            some.lemma_push_to_set_commute(node);
            assert(before.deep_view() =~= before@);
        }
        if position(before, &node).is_none() {
            before.push(node);
        }
        proof {
            assert(before@.to_set() =~= start.to_set().union(
                connected@.take(i + 1).to_set(),
            ));
        }
        i += 1;
    }
    assert(connected@.take(connected@.len() as int) =~= connected@);
}

/// A node that was connected at some time is known from that time on, whichever
/// nodes are connected.
pub proof fn known_nodes_stay_known(before: Seq<Atom>, connected: Seq<Atom>, node: Atom)
    requires
        before.contains(node) || connected.contains(node),
    ensures
        (connected + before.filter(not_connected(connected))).contains(node),
{
    let earlier = before.filter(not_connected(connected));
    let all = connected + earlier;
    if connected.contains(node) {
        let i = choose|i: int| 0 <= i < connected.len() && connected[i] == node;
        assert(all[i] == node);
    } else {
        let i = choose|i: int| 0 <= i < before.len() && before[i] == node;
        before.lemma_filter_contains(not_connected(connected), i);
        let j = choose|j: int| 0 <= j < earlier.len() && earlier[j] == node;
        assert(all[connected.len() + j] == node);
    }
}

/// The known nodes are the connected ones and, behind them, each of those before
/// that is not connected; no other node is known.
pub proof fn known_nodes_were_connected(before: Seq<Atom>, connected: Seq<Atom>, node: Atom)
    ensures
        before.filter(not_connected(connected)).contains(node) <==> before.contains(node)
            && !connected.contains(node),
{
    let earlier = before.filter(not_connected(connected));
    if earlier.contains(node) {
        let i = choose|i: int| 0 <= i < earlier.len() && earlier[i] == node;
        before.lemma_filter_pred(not_connected(connected), i);
        before.lemma_filter_contains_rev(not_connected(connected), node);
    }
    if before.contains(node) && !connected.contains(node) {
        let i = choose|i: int| 0 <= i < before.len() && before[i] == node;
        before.lemma_filter_contains(not_connected(connected), i);
    }
}

/// Those of the nodes before that are not connected.
fn others(connected: &Vec<Atom>, before: &Vec<Atom>) -> (r: Vec<Atom>)
    ensures
        r@ == before@.filter(not_connected(connected@)),
{
    let ghost wanted = not_connected(connected@);
    let mut r: Vec<Atom> = Vec::new();
    let mut i: usize = 0;
    proof {
        reveal(Seq::filter);
        assert(r@ =~= before@.take(0).filter(wanted));
    }
    while i < before.len()
        invariant
            i <= before.len(),
            wanted == not_connected(connected@),
            r@ == before@.take(i as int).filter(wanted),
        decreases before.len() - i,
    {
        proof {
            assert(before@.take(i + 1) =~= before@.take(i as int).push(before@[i as int]));
            before@.take(i as int).lemma_filter_push(before@[i as int], wanted);
            assert(connected.deep_view() =~= connected@);
        }
        if position(connected, &before[i]).is_none() {
            r.push(before[i]);
        }
        i += 1;
    }
    assert(before@.take(before@.len() as int) =~= before@);
    r
}

/// The nodes that are disconnected when this node leaves its cluster. It must
/// be part of one.
pub fn stop(manager: &Option<Manager>, connected: Vec<Atom>) -> (r: Result<Vec<Atom>, DistError>)
    ensures
        match manager {
            Some(_) => r == Ok::<Vec<Atom>, DistError>(connected),
            None => r matches Err(DistError::Connect(e)) && e@
                == "distribution not initialized"@,
        },
{
    match manager {
        Some(_) => Ok(connected),
        None => Err(DistError::Connect("distribution not initialized".to_owned())),
    }
}

/// How a ping goes on.
#[derive(Clone, Copy, Debug, PartialEq, Eq, Structural)]
pub enum PingStep {
    /// It is over.
    Over(PingResult),
    /// A ping with the number is sent.
    Send(u64),
}

/// Begins a ping: nothing is sent to a node that is not connected. `counter`
/// runs on with each ping that is sent.
pub fn ping_start(connected: bool, counter: &mut u64) -> (r: PingStep)
    ensures
        r == (if connected {
            PingStep::Send(*old(counter))
        } else {
            PingStep::Over(PingResult::Pang)
        }),
        *final(counter) == (if !connected {
            *old(counter)
        } else {
            next_number(*old(counter))
        }),
{
    if !connected {
        return PingStep::Over(PingResult::Pang);
    }
    let seq: u64 = *counter;
    *counter = seq.wrapping_add(1);
    PingStep::Send(seq)
}

/// What a ping came to: the node is there if the ping was sent and the node is
/// still connected a moment later.
pub fn ping_finish(sent: bool, still_connected: bool) -> (r: PingResult)
    ensures
        r == (if sent && still_connected {
            PingResult::Pong
        } else {
            PingResult::Pang
        }),
{
    if sent && still_connected {
        PingResult::Pong
    } else {
        PingResult::Pang
    }
}

/// The setup of a node with a name that listens at a port of all its addresses.
pub fn start(name: &str, port: u16) -> (r: Config)
    ensures
        r.name matches Some(n) && n@ == name@,
        r.listen_addr matches Some(a) && a@ == "0.0.0.0:"@ + numeral(port as nat, 10),
        r.cert_path is None,
        r.key_path is None,
        r.creation == 0,
{
    let addr = join2("0.0.0.0:", decimal(port as u64).as_str());
    Config::new().name(name).listen_addr(addr.as_str())
}

/// Spawns a process on another node, which is not offered.
pub fn spawn(node: Atom, module: &str, function: &str, args: Vec<u8>) -> (r: Result<
    Pid,
    DistError,
>)
    ensures
        r matches Err(DistError::Connect(e)) && e@ == "remote spawn not yet implemented"@,
{
    Err(DistError::Connect("remote spawn not yet implemented".to_owned()))
}

/// Spawns a linked process on another node, which is not offered.
pub fn spawn_link(node: Atom, module: &str, function: &str, args: Vec<u8>) -> (r: Result<
    Pid,
    DistError,
>)
    ensures
        r matches Err(DistError::Connect(e)) && e@ == "remote spawn_link not yet implemented"@,
{
    Err(DistError::Connect("remote spawn_link not yet implemented".to_owned()))
}

/// Spawns a monitored process on another node, which is not offered.
pub fn spawn_monitor(node: Atom, module: &str, function: &str, args: Vec<u8>) -> (r: Result<
    (Pid, Ref),
    DistError,
>)
    ensures
        r matches Err(DistError::Connect(e)) && e@ == "remote spawn_monitor not yet implemented"@,
{
    Err(DistError::Connect("remote spawn_monitor not yet implemented".to_owned()))
}

} // verus!
