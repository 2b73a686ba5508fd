//! How a node becomes part of a cluster.
use crate::base::node::{init_node, LocalNode, NodeName};
use crate::base::pid::Pid;
use crate::runtime::error::SendError;
use crate::text::{decimal, join3, numeral};
use crate::wire::identity::interned;
use vstd::prelude::*;
use vstd::string::*;

verus! {

/// What can go wrong between nodes.
#[derive(Debug)]
pub enum DistError {
    /// A connection failed.
    Connect(String),
    /// An address could not be read.
    InvalidAddress(String),
}

/// How a node's part in a cluster is set up.
#[derive(Debug)]
pub struct Config {
    /// The node's name.
    pub name: Option<String>,
    /// The address at which the node listens.
    pub listen_addr: Option<String>,
    /// The path of its certificate.
    pub cert_path: Option<String>,
    /// The path of its key.
    pub key_path: Option<String>,
    /// The node's creation number.
    pub creation: u32,
}

impl Config {
    /// Nothing said.
    pub fn new() -> (r: Self)
        ensures
            r == (Config {
                name: None,
                listen_addr: None,
                cert_path: None,
                key_path: None,
                creation: 0,
            }),
    {
        Config { name: None, listen_addr: None, cert_path: None, key_path: None, creation: 0 }
    }

    /// Sets the node's name.
    pub fn name(self, name: &str) -> (r: Self)
        ensures
            r == (Config { name: r.name, ..self }),
            r.name matches Some(n) && n@ == name@,
    {
        Config { name: Some(name.to_owned()), ..self }
    }

    /// Sets the address at which the node listens.
    pub fn listen_addr(self, addr: &str) -> (r: Self)
        ensures
            r == (Config { listen_addr: r.listen_addr, ..self }),
            r.listen_addr matches Some(a) && a@ == addr@,
    {
        Config { listen_addr: Some(addr.to_owned()), ..self }
    }

    /// Sets the path of the certificate.
    pub fn cert_path(self, path: &str) -> (r: Self)
        ensures
            r == (Config { cert_path: r.cert_path, ..self }),
            r.cert_path matches Some(p) && p@ == path@,
    {
        Config { cert_path: Some(path.to_owned()), ..self }
    }

    /// Sets the path of the key.
    pub fn key_path(self, path: &str) -> (r: Self)
        ensures
            r == (Config { key_path: r.key_path, ..self }),
            r.key_path matches Some(p) && p@ == path@,
    {
        Config { key_path: Some(path.to_owned()), ..self }
    }

    /// Sets the node's creation number.
    pub fn creation(self, creation: u32) -> (r: Self)
        ensures
            r == (Config { creation, ..self }),
    {
        Config { creation, ..self }
    }
}

impl Default for Config {
    fn default() -> (r: Self)
        ensures
            r == (Config {
                name: None,
                listen_addr: None,
                cert_path: None,
                key_path: None,
                creation: 0,
            }),
    {
        Config::new()
    }
}

/// The name of a node: the one that it was given, or one made of its process
/// and its host.
pub open spec fn name_of(config: Config, process_id: u32, hostname: Option<String>) -> Seq<char> {
    match config.name {
        Some(name) => name@,
        None => "dream_"@ + numeral(process_id as nat, 10) + "@"@ + (match hostname {
            Some(host) => host@,
            None => "localhost"@,
        }),
    }
}

/// A node has the name that it was given, or one made of its process and its host.
pub proof fn node_has_its_name(config: Config, process_id: u32, hostname: Option<String>)
    ensures
        config.name matches Some(name) ==> name_of(config, process_id, hostname) == name@,
        config.name is None && hostname is Some ==> name_of(config, process_id, hostname)
            == "dream_"@ + numeral(process_id as nat, 10) + "@"@ + hostname->Some_0@,
        config.name is None && hostname is None ==> name_of(config, process_id, hostname)
            == "dream_"@ + numeral(process_id as nat, 10) + "@"@ + "localhost"@,
{
}

/// What runs the connections of a node.
#[derive(Debug)]
pub struct Manager {
    /// The node's name.
    pub name: String,
    /// The node's creation number.
    pub creation: u32,
}

/// Where a node listens.
#[derive(Debug)]
pub struct Listen {
    /// The address.
    pub addr: String,
    /// The path of the certificate.
    pub cert_path: Option<String>,
    /// The path of the key.
    pub key_path: Option<String>,
}

/// Makes a node part of a cluster, and says where it is to listen, if anywhere.
/// `parsed` is how reading the address that it was given went. The node gets
/// its identity even where the rest fails; one that it has it keeps.
pub fn init_distribution(
    node: &mut LocalNode,
    manager: &mut Option<Manager>,
    config: Config,
    process_id: u32,
    hostname: Option<String>,
    parsed: Result<(), String>,
) -> (r: Result<Option<Listen>, DistError>)
    requires
        old(node).well_formed(),
        old(node).atoms.room_for(1),
    ensures
        final(node).well_formed(),
        final(node).next_pid == old(node).next_pid,
        final(node).creation == old(node).creation,
        final(node).next_ref == old(node).next_ref,
        final(node).nameless == old(node).nameless,
        final(node).atoms@ == interned(
            old(node).atoms@,
            name_of(config, process_id, hostname),
        ),
        match old(node).identity {
            Some(identity) => final(node).identity == Some(identity),
            None => {
                &&& final(node).identity matches Some(identity)
                &&& identity.name@ == name_of(config, process_id, hostname)
                &&& identity.creation == config.creation
            },
        },
        ({
            let bad_address = match (config.listen_addr, parsed) {
                (Some(addr), Err(e)) => Some(addr@ + ": "@ + e@),
                _ => None,
            };
            if let Some(text) = bad_address {
                &&& r matches Err(DistError::InvalidAddress(e))
                &&& e@ == text
                &&& *final(manager) == *old(manager)
            } else if *old(manager) is Some {
                &&& r matches Err(DistError::Connect(e))
                &&& e@ == "distribution already initialized"@
                &&& *final(manager) == *old(manager)
            } else {
                &&& *final(manager) matches Some(m)
                &&& m.name@ == name_of(config, process_id, hostname)
                &&& m.creation == config.creation
                &&& match config.listen_addr {
                    Some(addr) => r == Ok::<Option<Listen>, DistError>(
                        Some(
                            Listen { addr, cert_path: config.cert_path, key_path: config.key_path },
                        ),
                    ),
                    None => r == Ok::<Option<Listen>, DistError>(None),
                }
            }
        }),
{
    let name = match &config.name {
        Some(name) => name.clone(),
        None => {
            let host = match hostname {
                Some(host) => host,
                None => "localhost".to_owned(),
            };
            join3("dream_", decimal(process_id as u64).as_str(), "@").concat(host.as_str())
        },
    };
    let _ = init_node(node, NodeName::new(name.as_str()), config.creation);
    if let Some(addr) = &config.listen_addr {
        if let Err(e) = parsed {
            return Err(DistError::InvalidAddress(join3(addr.as_str(), ": ", e.as_str())));
        }
    }
    if manager.is_some() {
        return Err(DistError::Connect("distribution already initialized".to_owned()));
    }
    *manager = Some(Manager { name, creation: config.creation });
    match config.listen_addr {
        Some(addr) => Ok(
            Some(Listen { addr, cert_path: config.cert_path, key_path: config.key_path }),
        ),
        None => Ok(None),
    }
}

/// What a send to a process on another node comes to: whatever went wrong, the
/// process was not found.
pub fn remote_send_hook(pid: Pid, sent: Result<(), DistError>) -> (r: Result<(), SendError>)
    ensures
        r == (match sent {
            Ok(_) => Ok::<(), SendError>(()),
            Err(_) => Err::<(), SendError>(SendError::ProcessNotFound(pid)),
        }),
{
    match sent {
        Ok(_) => Ok(()),
        Err(_) => Err(SendError::ProcessNotFound(pid)),
    }
}

} // verus!
