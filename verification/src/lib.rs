//! A Chord-style distributed hash table engine.
//!
//! Nodes self-organize into a logical ring keyed by 160-bit hashes of
//! `(ip, port)` pairs. Every message handler of the per-node engine is a
//! verified transition function from the node's state and an incoming
//! message to the next state and a list of outbound actions; the network
//! transport that carries the messages lives outside this crate.

pub mod hashing;
pub mod id;
pub mod messages;
pub mod node;
pub mod peer;
pub mod ranges;
pub mod records;
pub mod ring;

pub use hashing::HashFunc;
pub use hashing::HashIP;
pub use id::HashType;
pub use messages::Action;
pub use messages::Message;
pub use messages::MsgData;
pub use messages::MsgType;
pub use node::Node;
pub use peer::Consistency;
pub use peer::NodeInfo;
pub use peer::ReplicationConfig;
pub use ranges::Range;
pub use ranges::UnionRange;
pub use records::Item;
pub use records::RecordStore;
