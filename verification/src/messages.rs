//! The message surface of the protocol, and the actions a handler asks of
//! the transport.
//!
//! Every handler of the engine is a function from the node's state and one
//! incoming message to the next state and a list of [`Action`]s; the
//! transport outside the crate performs the sends and the per-key waiting.

use vstd::prelude::*;
use crate::hashing::dec_of;
use crate::id::HashType;
use crate::id::hex_of;
use crate::peer::NodeInfo;
use crate::peer::NodeInfoV;
use crate::peer::ReplicationConfig;
use crate::ranges::Range;
use crate::records::Item;
use crate::records::ItemV;
use crate::records::view_items;

verus! {

/// The tag of a message.
#[derive(Clone, Copy, Debug, PartialEq, Eq, Structural)]
pub enum MsgType {
    Join,
    FwJoin,
    AckJoin,
    Update,
    Quit,
    Insert,
    FwInsert,
    AckInsert,
    Delete,
    FwDelete,
    AckDelete,
    Query,
    FwQuery,
    QueryAll,
    FwQueryAll,
    Overlay,
    FwOverlay,
    Reply,
    Relocate,
}

/// The payload of a message, one variant per kind.
#[derive(Debug)]
pub enum MsgData {
    Join { id: String },
    FwJoin { new_node: NodeInfo },
    AckJoin {
        prev_info: Option<NodeInfo>,
        succ_info: Option<NodeInfo>,
        new_items: Vec<Item>,
        replica_config: ReplicationConfig,
    },
    Quit { id: String },
    Update { prev_info: Option<NodeInfo>, succ_info: Option<NodeInfo> },
    Insert { key: String, value: String },
    FwInsert { key: String, value: String, replica: i16, forward_back: bool },
    AckInsert { key: HashType },
    Delete { key: String },
    FwDelete { key: HashType, forward_back: bool },
    AckDelete { key: HashType },
    Query { key: String },
    FwQuery { key: HashType, forward_tail: bool },
    QueryAll {},
    FwQueryAll { record_list: Vec<Item>, header: HashType },
    Overlay {},
    FwOverlay { peers: Vec<NodeInfo> },
    Reply { reply: String },
    Relocate { k_remaining: u8, inc: bool, new_copies: Option<Vec<Item>>, range: Option<Range> },
}

/// A protocol message: its tag, the client descriptor the final `Reply`
/// goes back to, and the payload. The `size` field is the wire frame
/// length; it is filled in by the transport when the message is encoded,
/// and carries no meaning inside the engine.
#[derive(Debug)]
pub struct Message {
    pub size: usize,
    pub msg_type: MsgType,
    pub client: Option<NodeInfo>,
    pub data: MsgData,
}

impl Message {
    /// A fresh message. The wire size is left at zero for the transport to
    /// fill in when it encodes the message.
    pub fn new(msg_type: MsgType, client: Option<NodeInfo>, data: MsgData) -> (r: Message)
        ensures
            r.msg_type == msg_type,
            r.client == client,
            r.data == data,
            r.size == 0,
    {
        Message { size: 0, msg_type, client, data }
    }

    /// The return address for the eventual reply.
    pub fn extract_client(&self) -> (r: Option<NodeInfo>)
        ensures
            r == self.client,
    {
        self.client
    }

    /// The message's tag.
    pub fn extract_type(&self) -> (r: MsgType)
        ensures
            r == self.msg_type,
    {
        self.msg_type
    }

    /// The wire frame length the transport recorded.
    pub fn extract_size(&self) -> (r: usize)
        ensures
            r == self.size,
    {
        self.size
    }
}

/// What a handler asks of the transport: deliver a message to a peer, block
/// the current request until the key commits, or wake the requests blocked
/// on a key.
#[derive(Debug)]
pub enum Action {
    /// Deliver `msg` to `dest`.
    Send { dest: NodeInfo, msg: Message },
    /// Park this request until `key` is notified, then dispatch the request
    /// again.
    Wait { key: HashType },
    /// Wake every request parked on `key`.
    Notify { key: HashType },
}

/// Whether `a` delivers a `Reply` with text `text` to `c`.
pub open spec fn is_reply_to(a: Action, c: NodeInfo, text: Seq<char>) -> bool {
    &&& a matches Action::Send { dest, msg }
    &&& dest == c
    &&& msg.msg_type == MsgType::Reply
    &&& msg.client is None
    &&& msg.data matches MsgData::Reply { reply } && reply@ == text
}

/// The reply to a successful insert.
pub open spec fn inserted_text(key: Seq<char>, value: Seq<char>) -> Seq<char> {
    "Inserted ("@ + key + " : "@ + value + ") successfully!"@
}

/// The reply to a query that found its record.
pub open spec fn found_text(title: Seq<char>, value: Seq<char>) -> Seq<char> {
    "Found ("@ + title + " : "@ + value + ")"@
}

/// The reply to a query or delete of a key that is not stored.
pub open spec fn not_found_text(key: Seq<char>) -> Seq<char> {
    "Error: "@ + key + " doesn't exist"@
}

/// The reply to a successful delete.
pub open spec fn deleted_text(title: Seq<char>, value: Seq<char>) -> Seq<char> {
    "Deleted ("@ + title + " : "@ + value + ") successfully!"@
}

/// The reply of an offline node to any request.
pub open spec fn offline_text(id: Seq<u8>) -> Seq<char> {
    "Node "@ + hex_of(id) + " is offline"@
}

/// The reply to a join of an identifier already on the ring.
pub open spec fn already_joined_text(id: Seq<u8>) -> Seq<char> {
    "Node "@ + hex_of(id) + " is already part of the network"@
}

/// The reply of the bootstrap node to its own join.
pub open spec fn boot_joined_text() -> Seq<char> {
    "Bootstrap node joined the ring successfully!"@
}

/// The reply a freshly joined node sends its client.
pub open spec fn node_joined_text(id: Seq<u8>) -> Seq<char> {
    "New node "@ + hex_of(id) + " joined the ring successfully!"@
}

/// The reply of the bootstrap node departing an otherwise empty ring.
pub open spec fn boot_left_text() -> Seq<char> {
    "Bootstrap node has left the network"@
}

/// The refusal of the bootstrap node to depart a non-trivial ring.
pub open spec fn boot_refuse_text() -> Seq<char> {
    "Bootstrap node cannot leave the network, depart the other nodes first"@
}

/// The reply of a departing peer.
pub open spec fn node_left_text(id: Seq<u8>) -> Seq<char> {
    "Node "@ + hex_of(id) + " has left the network"@
}

/// Two pieces around a middle: the shape of most reply texts.
fn concat3(a: &str, mid: &str, b: &str) -> (r: String)
    ensures
        r@ == a@ + mid@ + b@,
{
    let mut s = String::from_str(a);
    s.append(mid);
    s.append(b);
    proof {
        assert(s@ =~= a@ + mid@ + b@);
    }
    s
}

/// Builds [`inserted_text`].
pub fn make_inserted_text(key: &str, value: &str) -> (r: String)
    ensures
        r@ == inserted_text(key@, value@),
{
    let mut s = String::from_str("Inserted (");
    s.append(key);
    s.append(" : ");
    s.append(value);
    s.append(") successfully!");
    proof {
        assert(s@ =~= inserted_text(key@, value@));
    }
    s
}

/// Builds [`found_text`].
pub fn make_found_text(title: &str, value: &str) -> (r: String)
    ensures
        r@ == found_text(title@, value@),
{
    let mut s = String::from_str("Found (");
    s.append(title);
    s.append(" : ");
    s.append(value);
    s.append(")");
    proof {
        assert(s@ =~= found_text(title@, value@));
    }
    s
}

/// Builds [`not_found_text`].
pub fn make_not_found_text(key: &str) -> (r: String)
    ensures
        r@ == not_found_text(key@),
{
    concat3("Error: ", key, " doesn't exist")
}

/// Builds [`deleted_text`].
pub fn make_deleted_text(title: &str, value: &str) -> (r: String)
    ensures
        r@ == deleted_text(title@, value@),
{
    let mut s = String::from_str("Deleted (");
    s.append(title);
    s.append(" : ");
    s.append(value);
    s.append(") successfully!");
    proof {
        assert(s@ =~= deleted_text(title@, value@));
    }
    s
}

/// Builds [`offline_text`].
pub fn make_offline_text(id: &HashType) -> (r: String)
    ensures
        r@ == offline_text(id@),
{
    let hex = id.to_hex();
    concat3("Node ", hex.as_str(), " is offline")
}

/// Builds [`already_joined_text`].
pub fn make_already_joined_text(id: &HashType) -> (r: String)
    ensures
        r@ == already_joined_text(id@),
{
    let hex = id.to_hex();
    concat3("Node ", hex.as_str(), " is already part of the network")
}

/// Builds [`node_joined_text`].
pub fn make_node_joined_text(id: &HashType) -> (r: String)
    ensures
        r@ == node_joined_text(id@),
{
    let hex = id.to_hex();
    concat3("New node ", hex.as_str(), " joined the ring successfully!")
}

/// Builds [`node_left_text`].
pub fn make_node_left_text(id: &HashType) -> (r: String)
    ensures
        r@ == node_left_text(id@),
{
    let hex = id.to_hex();
    concat3("Node ", hex.as_str(), " has left the network")
}

/// One line of the overlay reply: a peer's identifier and address.
pub open spec fn peer_line(p: NodeInfoV) -> Seq<char> {
    "(nodeID:"@ + hex_of(p.id) + ", IP:"@ + dec_of(p.ip[0] as nat) + "."@ + dec_of(p.ip[1] as nat)
        + "."@ + dec_of(p.ip[2] as nat) + "."@ + dec_of(p.ip[3] as nat) + ":"@ + dec_of(
        p.port as nat,
    ) + ")\n"@
}

/// The overlay reply's peer lines, in list order.
pub open spec fn overlay_lines(s: Seq<NodeInfoV>) -> Seq<char>
    decreases s.len(),
{
    if s.len() == 0 {
        Seq::empty()
    } else {
        overlay_lines(s.drop_last()) + peer_line(s.last())
    }
}

/// The overlay reply: a banner, then one line per peer in ring order.
pub open spec fn overlay_text(s: Seq<NodeInfoV>) -> Seq<char> {
    "*** RING OVERLAY ***\n"@ + overlay_lines(s)
}

/// Builds one [`peer_line`].
fn make_peer_line(p: &NodeInfo) -> (r: String)
    ensures
        r@ == peer_line(p@),
{
    let mut s = String::from_str("(nodeID:");
    let hex = p.id.to_hex();
    s.append(hex.as_str());
    s.append(", IP:");
    crate::hashing::push_decimal(p.ip_addr[0] as u64, &mut s);
    s.append(".");
    crate::hashing::push_decimal(p.ip_addr[1] as u64, &mut s);
    s.append(".");
    crate::hashing::push_decimal(p.ip_addr[2] as u64, &mut s);
    s.append(".");
    crate::hashing::push_decimal(p.ip_addr[3] as u64, &mut s);
    s.append(":");
    crate::hashing::push_decimal(p.port as u64, &mut s);
    s.append(")\n");
    proof {
        assert(s@ =~= peer_line(p@));
    }
    s
}

/// Builds [`overlay_text`] for a peer list.
pub fn format_overlay_msg(ring_list: &Vec<NodeInfo>) -> (r: String)
    ensures
        r@ == overlay_text(ring_list@.map_values(|p: NodeInfo| p@)),
{
    let mut s = String::from_str("*** RING OVERLAY ***\n");
    let n = ring_list.len();
    let ghost peers = ring_list@.map_values(|p: NodeInfo| p@);
    let mut i: usize = 0;
    while i < n
        invariant
            0 <= i <= n,
            n == ring_list@.len(),
            peers == ring_list@.map_values(|p: NodeInfo| p@),
            s@ =~= "*** RING OVERLAY ***\n"@ + overlay_lines(peers.take(i as int)),
        decreases n - i,
    {
        proof {
            assert(peers.take(i + 1).drop_last() =~= peers.take(i as int));
            assert(peers.take(i + 1).last() == peers[i as int]);
        }
        let line = make_peer_line(&ring_list[i]);
        s.append(line.as_str());
        i += 1;
    }
    proof {
        assert(peers.take(n as int) =~= peers);
        assert(s@ =~= overlay_text(peers));
    }
    s
}

/// One line of the all-records reply: a node banner for the sentinel item,
/// else the record itself.
pub open spec fn record_line(it: ItemV) -> Seq<char> {
    if it.title == "__nodeID__"@ {
        "\nNode: "@ + it.value + "\n"@
    } else {
        "("@ + it.title + " : "@ + it.value + ")\n"@
    }
}

/// The all-records reply's lines, in list order.
pub open spec fn record_lines(s: Seq<ItemV>) -> Seq<char>
    decreases s.len(),
{
    if s.len() == 0 {
        Seq::empty()
    } else {
        record_lines(s.drop_last()) + record_line(s.last())
    }
}

/// The all-records reply: a banner, then one line per accumulated item.
pub open spec fn queryall_text(s: Seq<ItemV>) -> Seq<char> {
    "*** ALL RECORDS ***\n"@ + record_lines(s)
}

/// Overlay lines split over list concatenation.
pub proof fn lemma_overlay_lines_concat(a: Seq<NodeInfoV>, b: Seq<NodeInfoV>)
    ensures
        overlay_lines(a + b) =~= overlay_lines(a) + overlay_lines(b),
    decreases b.len(),
{
    if b.len() == 0 {
        assert(a + b =~= a);
    } else {
        assert((a + b).drop_last() =~= a + b.drop_last());
        assert((a + b).last() == b.last());
        lemma_overlay_lines_concat(a, b.drop_last());
    }
}

/// Record lines split over list concatenation.
pub proof fn lemma_record_lines_concat(a: Seq<ItemV>, b: Seq<ItemV>)
    ensures
        record_lines(a + b) =~= record_lines(a) + record_lines(b),
    decreases b.len(),
{
    if b.len() == 0 {
        assert(a + b =~= a);
    } else {
        assert((a + b).drop_last() =~= a + b.drop_last());
        assert((a + b).last() == b.last());
        lemma_record_lines_concat(a, b.drop_last());
    }
}

/// Builds [`queryall_text`] for an accumulated item list.
pub fn format_queryall_msg(items: &Vec<Item>) -> (r: String)
    ensures
        r@ == queryall_text(view_items(items@)),
{
    let mut s = String::from_str("*** ALL RECORDS ***\n");
    let sentinel = String::from_str("__nodeID__");
    let n = items.len();
    let ghost itemsv = view_items(items@);
    let mut i: usize = 0;
    while i < n
        invariant
            0 <= i <= n,
            n == items@.len(),
            itemsv == view_items(items@),
            sentinel@ == "__nodeID__"@,
            s@ =~= "*** ALL RECORDS ***\n"@ + record_lines(itemsv.take(i as int)),
        decreases n - i,
    {
        proof {
            assert(itemsv.take(i + 1).drop_last() =~= itemsv.take(i as int));
            assert(itemsv.take(i + 1).last() == itemsv[i as int]);
        }
        let it = &items[i];
        if it.title == sentinel {
            s.append("\nNode: ");
            s.append(it.value.as_str());
            s.append("\n");
        } else {
            s.append("(");
            s.append(it.title.as_str());
            s.append(" : ");
            s.append(it.value.as_str());
            s.append(")\n");
        }
        proof {
            assert(s@ =~= "*** ALL RECORDS ***\n"@ + record_lines(itemsv.take(i + 1)));
        }
        i += 1;
    }
    proof {
        assert(itemsv.take(n as int) =~= itemsv);
        assert(s@ =~= queryall_text(itemsv));
    }
    s
}

} // verus!
