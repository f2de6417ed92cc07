//! Peer descriptors and the per-node replication configuration.

use vstd::prelude::*;
use crate::hashing::HashIP;
use crate::hashing::ip_port_digits;
use crate::hashing::sha1_of;
use crate::id::HashType;
use crate::ranges::UnionRange;

verus! {

/// The mathematical reading of a [`NodeInfo`].
pub ghost struct NodeInfoV {
    pub ip: Seq<u8>,
    pub port: u16,
    pub id: Seq<u8>,
}

/// A peer's address and ring identifier. Immutable once constructed; two
/// nodes never share an identifier because the identifier is the hash of
/// the address.
#[derive(Clone, Copy, Debug)]
pub struct NodeInfo {
    pub ip_addr: [u8; 4],
    pub port: u16,
    pub id: HashType,
}

impl View for NodeInfo {
    type V = NodeInfoV;

    open spec fn view(&self) -> NodeInfoV {
        NodeInfoV { ip: self.ip_addr@, port: self.port, id: self.id@ }
    }
}

impl NodeInfo {
    /// A descriptor for the node at `ip_addr:port`, with its identifier
    /// computed from the address.
    pub fn new(ip_addr: [u8; 4], port: u16) -> (r: NodeInfo)
        ensures
            r@.ip == ip_addr@,
            r@.port == port,
            r@.id == sha1_of(ip_port_digits(ip_addr@, port)),
    {
        NodeInfo { ip_addr, port, id: HashIP(ip_addr, port) }
    }

    /// The ring identifier.
    pub fn get_id(&self) -> (r: HashType)
        ensures
            r@ == self@.id,
    {
        self.id
    }

    /// The IP address, as its four octets.
    pub fn get_ip(&self) -> (r: [u8; 4])
        ensures
            r@ == self@.ip,
    {
        self.ip_addr
    }

    /// The TCP port.
    pub fn get_port(&self) -> (r: u16)
        ensures
            r == self@.port,
    {
        self.port
    }
}

/// The replication discipline a deployment runs under. `Quorum` is declared
/// but has no protocol; a node refuses to run under it.
#[derive(Clone, Copy, Debug, PartialEq, Eq, Structural)]
pub enum Consistency {
    Eventual,
    Chain,
    Quorum,
}

/// A node's replication configuration: the maximum replication factor, the
/// consistency mode, and the intervals the node currently replicates.
#[derive(Debug)]
pub struct ReplicationConfig {
    pub replication_factor: u8,
    pub replication_mode: Consistency,
    pub replica_ranges: UnionRange,
}

} // verus!
