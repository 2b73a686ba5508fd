//! What is known of nodes, as bytes.
use crate::base::node::{NodeAddr, NodeId, NodeInfo, NodeName};
use crate::wire::primitive::Wire;
use vstd::prelude::*;
use vstd::slice::*;

verus! {

impl DeepView for NodeName {
    type V = Seq<char>;

    open spec fn deep_view(&self) -> Seq<char> {
        self@
    }
}

impl Wire for NodeName {
    open spec fn bytes_of(model: Seq<char>) -> Seq<u8> {
        String::bytes_of(model)
    }

    open spec fn read(b: Seq<u8>) -> Option<(Seq<char>, Seq<u8>)> {
        String::read(b)
    }

    open spec fn fits(model: Seq<char>) -> bool {
        String::fits(model)
    }

    proof fn round_trip(model: Seq<char>, rest: Seq<u8>) {
        String::round_trip(model, rest);
    }

    fn put(&self, out: &mut Vec<u8>) {
        self.display().put(out);
    }

    fn take<'a>(b: &'a [u8]) -> (r: Option<(Self, &'a [u8])>) {
        match String::take(b) {
            Some((name, rest)) => Some((NodeName::new(name.as_str()), rest)),
            None => None,
        }
    }
}

/// What an address says.
#[allow(inconsistent_fields)]
pub enum AddrModel {
    V4 { ip: Seq<u8>, port: u16 },
    V6 { ip: Seq<u8>, port: u16, flowinfo: u32, scope_id: u32 },
}

impl DeepView for NodeAddr {
    type V = AddrModel;

    open spec fn deep_view(&self) -> AddrModel {
        match self {
            NodeAddr::V4 { ip, port } => AddrModel::V4 { ip: ip@, port: *port },
            NodeAddr::V6 { ip, port, flowinfo, scope_id } => AddrModel::V6 {
                ip: ip@,
                port: *port,
                flowinfo: *flowinfo,
                scope_id: *scope_id,
            },
        }
    }
}

/// So many octets and a port, read from the front of bytes.
pub open spec fn read_host(b: Seq<u8>, n: nat) -> Option<(Seq<u8>, u16, Seq<u8>)> {
    if b.len() < n {
        None
    } else {
        match u16::read(b.skip(n as int)) {
            Some((port, rest)) => Some((b.take(n as int), port, rest)),
            None => None,
        }
    }
}

proof fn lemma_host_round_trip(ip: Seq<u8>, port: u16, rest: Seq<u8>)
    ensures
        read_host(ip + u16::bytes_of(port) + rest, ip.len()) == Some((ip, port, rest)),
{
    let b = ip + u16::bytes_of(port) + rest;
    assert(b.take(ip.len() as int) =~= ip);
    assert(b.skip(ip.len() as int) =~= u16::bytes_of(port) + rest);
    u16::round_trip(port, rest);
}

fn put_octets(ip: &[u8], out: &mut Vec<u8>)
    ensures
        final(out)@ == old(out)@ + ip@,
{
    let ghost before = out@;
    let mut i: usize = 0;
    assert(before + ip@.take(0) =~= before);
    while i < ip.len()
        invariant
            i <= ip.len(),
            out@ == before + ip@.take(i as int),
        decreases ip.len() - i,
    {
        out.push(ip[i]);
        i += 1;
        assert(before + ip@.take(i as int) =~= (before + ip@.take(i - 1)).push(ip@[i - 1]));
    }
    assert(ip@.take(ip@.len() as int) =~= ip@);
}

/// The label and the scope of an address are not written, and are zero when it is
/// read.
impl Wire for NodeAddr {
    open spec fn bytes_of(model: AddrModel) -> Seq<u8> {
        match model {
            AddrModel::V4 { ip, port } => u32::bytes_of(0) + (ip + u16::bytes_of(port)),
            AddrModel::V6 { ip, port, flowinfo, scope_id } => u32::bytes_of(1) + (ip
                + u16::bytes_of(port)),
        }
    }

    open spec fn read(b: Seq<u8>) -> Option<(AddrModel, Seq<u8>)> {
        match u32::read(b) {
            Some((tag, rest)) => if tag == 0 {
                match read_host(rest, 4) {
                    Some((ip, port, rest)) => Some((AddrModel::V4 { ip, port }, rest)),
                    None => None,
                }
            } else if tag == 1 {
                match read_host(rest, 16) {
                    Some((ip, port, rest)) => Some(
                        (AddrModel::V6 { ip, port, flowinfo: 0, scope_id: 0 }, rest),
                    ),
                    None => None,
                }
            } else {
                None
            },
            None => None,
        }
    }

    open spec fn fits(model: AddrModel) -> bool {
        match model {
            AddrModel::V4 { ip, port } => ip.len() == 4,
            AddrModel::V6 { ip, port, flowinfo, scope_id } => ip.len() == 16 && flowinfo == 0
                && scope_id == 0,
        }
    }

    proof fn round_trip(model: AddrModel, rest: Seq<u8>) {
        match model {
            AddrModel::V4 { ip, port } => {
                let tail = ip + u16::bytes_of(port) + rest;
                u32::round_trip(0, tail);
                assert(Self::bytes_of(model) + rest =~= u32::bytes_of(0) + tail);
                lemma_host_round_trip(ip, port, rest);
            },
            AddrModel::V6 { ip, port, flowinfo, scope_id } => {
                let tail = ip + u16::bytes_of(port) + rest;
                u32::round_trip(1, tail);
                assert(Self::bytes_of(model) + rest =~= u32::bytes_of(1) + tail);
                lemma_host_round_trip(ip, port, rest);
            },
        }
    }

    fn put(&self, out: &mut Vec<u8>) {
        let ghost before = out@;
        match self {
            NodeAddr::V4 { ip, port } => {
                0u32.put(out);
                put_octets(ip.as_slice(), out);
                port.put(out);
            },
            NodeAddr::V6 { ip, port, flowinfo: _, scope_id: _ } => {
                1u32.put(out);
                put_octets(ip.as_slice(), out);
                port.put(out);
            },
        }
        assert(out@ =~= before + Self::bytes_of(self.deep_view()));
    }

    fn take<'a>(b: &'a [u8]) -> (r: Option<(Self, &'a [u8])>) {
        let (tag, b) = match u32::take(b) {
            Some(x) => x,
            None => {
                return None;
            },
        };
        let n: usize = if tag == 0 {
            4
        } else if tag == 1 {
            16
        } else {
            return None;
        };
        if b.len() < n {
            return None;
        }
        let tail = slice_subrange(b, n, b.len());
        assert(tail@ =~= b@.skip(n as int));
        let (port, rest) = match u16::take(tail) {
            Some(x) => x,
            None => {
                return None;
            },
        };
        if tag == 0 {
            let ip: [u8; 4] = [b[0], b[1], b[2], b[3]];
            assert(ip@ =~= b@.take(4));
            Some((NodeAddr::V4 { ip, port }, rest))
        } else {
            let ip: [u8; 16] = [
                b[0], b[1], b[2], b[3], b[4], b[5], b[6], b[7], b[8], b[9], b[10], b[11], b[12],
                b[13], b[14], b[15],
            ];
            assert(ip@ =~= b@.take(16));
            Some((NodeAddr::V6 { ip, port, flowinfo: 0, scope_id: 0 }, rest))
        }
    }
}

/// What is known of a node.
pub struct NodeInfoModel {
    pub name: Seq<char>,
    pub id: NodeId,
    pub addr: Option<AddrModel>,
    pub creation: u32,
}

impl DeepView for NodeInfo {
    type V = NodeInfoModel;

    open spec fn deep_view(&self) -> NodeInfoModel {
        NodeInfoModel {
            name: self.name@,
            id: self.id,
            addr: self.addr.deep_view(),
            creation: self.creation,
        }
    }
}

/// The fields of what is known of a node, in order.
pub type InfoFields = (NodeName, (NodeId, (Option<NodeAddr>, u32)));

impl Wire for NodeInfo {
    open spec fn bytes_of(model: NodeInfoModel) -> Seq<u8> {
        InfoFields::bytes_of((model.name, (model.id, (model.addr, model.creation))))
    }

    open spec fn read(b: Seq<u8>) -> Option<(NodeInfoModel, Seq<u8>)> {
        match InfoFields::read(b) {
            Some(((name, (id, (addr, creation))), rest)) => Some(
                (NodeInfoModel { name, id, addr, creation }, rest),
            ),
            None => None,
        }
    }

    open spec fn fits(model: NodeInfoModel) -> bool {
        InfoFields::fits((model.name, (model.id, (model.addr, model.creation))))
    }

    proof fn round_trip(model: NodeInfoModel, rest: Seq<u8>) {
        InfoFields::round_trip((model.name, (model.id, (model.addr, model.creation))), rest);
    }

    fn put(&self, out: &mut Vec<u8>) {
        let ghost before = out@;
        self.name.put(out);
        self.id.put(out);
        self.addr.put(out);
        self.creation.put(out);
        assert(out@ =~= before + Self::bytes_of(self.deep_view()));
    }

    fn take<'a>(b: &'a [u8]) -> (r: Option<(Self, &'a [u8])>) {
        match InfoFields::take(b) {
            Some(((name, (id, (addr, creation))), rest)) => Some(
                (NodeInfo { name, id, addr, creation }, rest),
            ),
            None => None,
        }
    }
}

} // verus!
