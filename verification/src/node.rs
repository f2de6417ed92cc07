//! The per-node engine: ring membership, replica bookkeeping, and the
//! replication state machine.
//!
//! A node's state lives in [`Node`]. Each message handler is a transition
//! function: it takes the incoming message, updates the state, and returns
//! the [`Action`]s the transport must perform — sends to peers, and the
//! per-key parking and waking that chain-mode reads use. The transport
//! itself, and the sockets it runs on, stand outside this crate.

use vstd::prelude::*;
use crate::hashing::HashFunc;
use crate::hashing::sha1_of;
use crate::id::HashType;
use crate::id::be_val;
use crate::id::id_val;
use crate::id::hex_of;
use crate::messages::Action;
use crate::messages::Message;
use crate::messages::MsgData;
use crate::messages::MsgType;
use crate::messages::is_reply_to;
use crate::messages::offline_text;
use crate::messages::already_joined_text;
use crate::messages::boot_joined_text;
use crate::messages::boot_left_text;
use crate::messages::boot_refuse_text;
use crate::messages::node_joined_text;
use crate::messages::node_left_text;
use crate::messages::inserted_text;
use crate::messages::found_text;
use crate::messages::not_found_text;
use crate::messages::deleted_text;
use crate::messages::overlay_text;
use crate::messages::queryall_text;
use crate::messages::record_line;
use crate::messages::record_lines;
use crate::messages::lemma_record_lines_concat;
use crate::peer::Consistency;
use crate::peer::NodeInfo;
use crate::peer::ReplicationConfig;
use crate::ranges::Range;
use crate::ranges::RangeV;
use crate::ranges::UnionRange;
use crate::ranges::range_has;
use crate::ranges::subset_dist;
use crate::ranges::lemma_subset_dist_char;
use crate::records::EntryV;
use crate::records::Item;
use crate::records::ItemV;
use crate::records::RecordStore;
use crate::records::store_find;
use crate::records::store_merge;
use crate::records::store_remove;
use crate::records::store_set_pending;
use crate::records::view_items;
use crate::records::primary_items;
use crate::records::shift_up_entries;
use crate::records::join_transfer_items;
use crate::records::items_at_idx;
use crate::records::shift_down_item;

verus! {

/// One node of the ring: its own descriptor, its two neighbors, the
/// well-known bootstrap descriptor (`None` on the bootstrap itself), the
/// replication configuration, the record store, the keys with parked
/// readers, and the online flag.
#[derive(Debug)]
pub struct Node {
    pub info: NodeInfo,
    pub previous: Option<NodeInfo>,
    pub successor: Option<NodeInfo>,
    pub bootstrap: Option<NodeInfo>,
    pub replication: ReplicationConfig,
    pub records: RecordStore,
    pub pendings: Vec<HashType>,
    pub status: bool,
}

impl Node {
    /// The node's identifier value.
    pub open spec fn self_id(&self) -> int {
        id_val(self.info.id)
    }

    /// The node's internal invariant: the store is sorted, the replica
    /// coverage is small enough to index, and an online node knows both
    /// neighbors.
    pub open spec fn inv(&self) -> bool {
        &&& self.records.wf()
        &&& self.replication.replica_ranges@.len() <= 255
        &&& pendings_distinct(self.pendings@)
        &&& (self.status ==> self.previous is Some && self.successor is Some)
    }

    /// A node ready to serve: its invariant, and — on the bootstrap — the
    /// self-loop ring installed at startup.
    pub open spec fn ready(&self) -> bool {
        &&& self.inv()
        &&& (self.bootstrap is None ==> self.previous is Some && self.successor is Some)
    }

    /// Whether this node is the primary for key value `k`: the key lies in
    /// `(previous, self]` on the ring, and a node without neighbors owns
    /// everything.
    pub open spec fn spec_responsible(&self, k: int) -> bool {
        if self.previous is None || self.successor is None {
            true
        } else {
            let p = id_val(self.previous->0.id);
            let m = self.self_id();
            if p < m {
                p < k && k <= m
            } else {
                k > p || k <= m
            }
        }
    }

    /// The replica index this node holds for key value `k`: `0` for the
    /// primary, the tail distance of the covering interval for a replica,
    /// `-1` for a stranger.
    pub open spec fn spec_replica_manager(&self, k: int) -> int {
        if self.spec_responsible(k) {
            0
        } else {
            subset_dist(self.replication.replica_ranges@, k)
        }
    }

    /// Whether the successor is the next hop toward the primary of `k`.
    pub open spec fn spec_maybe_next(&self, k: int) -> bool {
        let m = self.self_id();
        let su = id_val(self.successor->0.id);
        if m < su {
            k > m
        } else {
            k > m || k <= su
        }
    }

    /// The replication factor in force: the configured `k`, capped by how
    /// many intervals the node actually covers.
    pub open spec fn spec_current_k(&self) -> int {
        let s = self.replication.replica_ranges@.len() as int;
        let k = self.replication.replication_factor as int;
        if s < k {
            s
        } else {
            k
        }
    }

    /// A node as it starts: offline, no neighbors, empty store. Fields
    /// left `None` fall to their defaults — port `0`, factor `0`, mode
    /// `Eventual`.
    pub fn new(
        ip: [u8; 4],
        port: Option<u16>,
        k_repl: Option<u8>,
        m_repl: Option<Consistency>,
        boot_ref: Option<NodeInfo>,
    ) -> (r: Node)
        ensures
            r.inv(),
            r.info@.ip == ip@,
            r.info@.port == (match port { Some(p) => p, None => 0u16 }),
            r.info@.id == sha1_of(crate::hashing::ip_port_digits(
                ip@,
                (match port { Some(p) => p, None => 0u16 }),
            )),
            r.previous is None,
            r.successor is None,
            r.bootstrap == boot_ref,
            r.replication.replication_factor == (match k_repl { Some(k) => k, None => 0u8 }),
            r.replication.replication_mode == (match m_repl {
                Some(m) => m,
                None => Consistency::Eventual,
            }),
            r.replication.replica_ranges@.len() == 0,
            r.records@.len() == 0,
            r.pendings@.len() == 0,
            !r.status,
    {
        let port_v = match port {
            Some(p) => p,
            None => 0,
        };
        let k_v = match k_repl {
            Some(k) => k,
            None => 0,
        };
        let m_v = match m_repl {
            Some(m) => m,
            None => Consistency::Eventual,
        };
        Node {
            info: NodeInfo::new(ip, port_v),
            previous: None,
            successor: None,
            bootstrap: boot_ref,
            replication: ReplicationConfig {
                replication_factor: k_v,
                replication_mode: m_v,
                replica_ranges: UnionRange::new(),
            },
            records: RecordStore::new(),
            pendings: Vec::new(),
            status: false,
        }
    }

    /// What a node does as it starts listening: the bootstrap installs the
    /// self-loop ring and goes online; a peer stays offline until its join
    /// is acknowledged.
    pub fn init_ring(&mut self)
        requires
            old(self).inv(),
        ensures
            final(self).ready(),
            final(self).info == old(self).info,
            final(self).bootstrap == old(self).bootstrap,
            final(self).replication == old(self).replication,
            final(self).records == old(self).records,
            final(self).pendings == old(self).pendings,
            old(self).bootstrap is None ==> {
                &&& final(self).previous == Some(old(self).info)
                &&& final(self).successor == Some(old(self).info)
                &&& final(self).status
            },
            old(self).bootstrap is Some ==> *final(self) == *old(self),
    {
        if self.bootstrap.is_none() {
            self.previous = Some(self.info);
            self.successor = Some(self.info);
            self.status = true;
        }
    }

    /// The node's identifier.
    pub fn get_id(&self) -> (r: HashType)
        ensures
            r@ == self.info@.id,
    {
        self.info.id
    }

    /// Whether the node is online.
    pub fn get_status(&self) -> (r: bool)
        ensures
            r == self.status,
    {
        self.status
    }

    /// The node's own descriptor.
    pub fn get_info(&self) -> (r: NodeInfo)
        ensures
            r == self.info,
    {
        self.info
    }

    /// The predecessor pointer.
    pub fn get_prev(&self) -> (r: Option<NodeInfo>)
        ensures
            r == self.previous,
    {
        self.previous
    }

    /// The successor pointer.
    pub fn get_succ(&self) -> (r: Option<NodeInfo>)
        ensures
            r == self.successor,
    {
        self.successor
    }

    /// The consistency mode in force.
    pub fn get_consistency(&self) -> (r: Consistency)
        ensures
            r == self.replication.replication_mode,
    {
        self.replication.replication_mode
    }

    /// The configured replication factor.
    pub fn max_replication(&self) -> (r: u8)
        ensures
            r == self.replication.replication_factor,
    {
        self.replication.replication_factor
    }

    /// The replication factor in force; see [`Node::spec_current_k`].
    pub fn get_current_k(&self) -> (r: u8)
        ensures
            r == self.spec_current_k(),
    {
        let k = self.replication.replication_factor;
        let s = self.replication.replica_ranges.get_size();
        if s < k as usize {
            s as u8
        } else {
            k
        }
    }

    /// Whether this node is the primary for `key`.
    pub fn is_responsible(&self, key: &HashType) -> (r: bool)
        ensures
            r == self.spec_responsible(id_val(*key)),
    {
        let prev = match self.previous {
            Some(p) => p,
            None => {
                return true;
            },
        };
        if self.successor.is_none() {
            return true;
        }
        if prev.id.less_than(&self.info.id) {
            prev.id.less_than(key) && key.less_eq(&self.info.id)
        } else {
            prev.id.less_than(key) || key.less_eq(&self.info.id)
        }
    }

    /// The replica index this node holds for `key`; see
    /// [`Node::spec_replica_manager`].
    pub fn is_replica_manager(&self, key: &HashType) -> (r: i16)
        requires
            self.inv(),
        ensures
            r == self.spec_replica_manager(id_val(*key)),
            -1 <= r <= self.replication.replica_ranges@.len(),
    {
        if self.is_responsible(key) {
            return 0;
        }
        let d = self.replication.replica_ranges.is_subset(*key);
        proof {
            lemma_subset_dist_char(
                self.replication.replica_ranges@,
                id_val(*key),
                d as int,
            );
        }
        d
    }

    /// Whether the successor is the next hop toward the primary of `key`;
    /// used to route in the shorter ring direction.
    pub fn maybe_next_responsible(&self, key: &HashType) -> (r: bool)
        requires
            self.successor is Some,
        ensures
            r == self.spec_maybe_next(id_val(*key)),
    {
        let succ = match self.successor {
            Some(s) => s,
            None => {
                return false;
            },
        };
        if self.info.id.less_than(&succ.id) {
            self.info.id.less_than(key)
        } else {
            self.info.id.less_than(key) || key.less_eq(&succ.id)
        }
    }

    /// Stores `new_record` under `key`, merging into an existing record.
    pub fn insert_aux(&mut self, key: HashType, new_record: &Item)
        requires
            old(self).inv(),
        ensures
            final(self).inv(),
            final(self).records@ =~= crate::records::store_merge(
                old(self).records@,
                id_val(key),
                new_record@,
            ),
            same_but_records(*final(self), *old(self)),
    {
        self.records.insert_or_merge(key, new_record);
    }
}

/// The key values with parked readers, as a set.
pub open spec fn pend_set(s: Seq<HashType>) -> Set<int> {
    Set::new(|x: int| exists|i: int| 0 <= i < s.len() && id_val(s[i]) == x)
}

/// No key value occurs twice among the parked keys.
pub open spec fn pendings_distinct(s: Seq<HashType>) -> bool {
    forall|i: int, j: int| 0 <= i < j < s.len() ==> id_val(s[i]) != id_val(s[j])
}

impl Node {
    /// Whether readers are parked on `key`.
    fn pendings_contains(&self, key: &HashType) -> (r: bool)
        ensures
            r == pend_set(self.pendings@).contains(id_val(*key)),
    {
        let n = self.pendings.len();
        let mut i: usize = 0;
        while i < n
            invariant
                0 <= i <= n,
                n == self.pendings@.len(),
                forall|j: int| 0 <= j < i ==> id_val(self.pendings@[j]) != id_val(*key),
            decreases n - i,
        {
            if self.pendings[i].equals(key) {
                return true;
            }
            i += 1;
        }
        false
    }

    /// Parks readers on `key`: records the key if it is not yet recorded.
    fn pendings_insert(&mut self, key: HashType)
        requires
            pendings_distinct(old(self).pendings@),
        ensures
            pendings_distinct(final(self).pendings@),
            pend_set(final(self).pendings@) =~= pend_set(old(self).pendings@).insert(id_val(key)),
            same_but_pendings(*final(self), *old(self)),
    {
        if !self.pendings_contains(&key) {
            self.pendings.push(key);
            proof {
                assert(self.pendings@.last() == key);
                assert forall|x: int| pend_set(self.pendings@).contains(x)
                    <==> pend_set(old(self).pendings@).insert(id_val(key)).contains(x) by {
                    if pend_set(old(self).pendings@).contains(x) {
                        let w = choose|i: int| 0 <= i < old(self).pendings@.len()
                            && id_val(old(self).pendings@[i]) == x;
                        assert(id_val(self.pendings@[w]) == x);
                    }
                    if pend_set(self.pendings@).contains(x) {
                        let w = choose|i: int| 0 <= i < self.pendings@.len()
                            && id_val(self.pendings@[i]) == x;
                        if w < old(self).pendings@.len() {
                            assert(id_val(old(self).pendings@[w]) == x);
                        }
                    }
                }
            }
        } else {
            proof {
                assert(pend_set(self.pendings@) =~= pend_set(self.pendings@).insert(id_val(key)));
            }
        }
    }

    /// Unparks `key`: removes it from the parked keys, if it is there.
    fn pendings_remove(&mut self, key: &HashType)
        requires
            pendings_distinct(old(self).pendings@),
        ensures
            pendings_distinct(final(self).pendings@),
            pend_set(final(self).pendings@) =~= pend_set(old(self).pendings@).remove(id_val(*key)),
            same_but_pendings(*final(self), *old(self)),
    {
        let n = self.pendings.len();
        let mut i: usize = 0;
        while i < n
            invariant
                0 <= i <= n,
                n == self.pendings@.len(),
                self == old(self),
                pendings_distinct(self.pendings@),
                forall|j: int| 0 <= j < i ==> id_val(self.pendings@[j]) != id_val(*key),
            decreases n - i,
        {
            if self.pendings[i].equals(key) {
                self.pendings.remove(i);
                proof {
                    assert forall|x: int| pend_set(self.pendings@).contains(x)
                        <==> pend_set(old(self).pendings@).remove(id_val(*key)).contains(x) by {
                        if pend_set(self.pendings@).contains(x) {
                            let w = choose|m: int| 0 <= m < self.pendings@.len()
                                && id_val(self.pendings@[m]) == x;
                            if w < i {
                                assert(id_val(old(self).pendings@[w]) == x);
                            } else {
                                assert(id_val(old(self).pendings@[w + 1]) == x);
                            }
                        }
                        if pend_set(old(self).pendings@).remove(id_val(*key)).contains(x) {
                            let w = choose|m: int| 0 <= m < old(self).pendings@.len()
                                && id_val(old(self).pendings@[m]) == x;
                            if w < i {
                                assert(id_val(self.pendings@[w]) == x);
                            } else if w > i {
                                assert(id_val(self.pendings@[w - 1]) == x);
                            }
                        }
                    }
                }
                return;
            }
            i += 1;
        }
        proof {
            assert forall|x: int| pend_set(self.pendings@).contains(x)
                <==> pend_set(old(self).pendings@).remove(id_val(*key)).contains(x) by {
            }
        }
    }
}

/// Whether `a` sends a message with tag `t` and client field `client` to
/// `dest`.
pub open spec fn sends_to(a: Action, dest: NodeInfo, t: MsgType, client: Option<NodeInfo>) -> bool {
    &&& a matches Action::Send { dest: d, msg }
    &&& d == dest
    &&& msg.msg_type == t
    &&& msg.client == client
}

/// The payload of the message a `Send` action carries.
pub open spec fn action_data(a: Action) -> MsgData
    recommends
        a is Send,
{
    a->msg.data
}

/// What `handle_update` does: install whichever neighbor pointers the
/// message carries; nothing else moves and nothing is sent.
pub open spec fn update_post(pre: Node, post: Node, data: MsgData, acts: Seq<Action>) -> bool {
    match data {
        MsgData::Update { prev_info, succ_info } => {
            &&& post.previous == (if prev_info is Some { prev_info } else { pre.previous })
            &&& post.successor == (if succ_info is Some { succ_info } else { pre.successor })
            &&& same_but_neighbors(post, pre)
            &&& acts.len() == 0
        },
        _ => post == pre && acts.len() == 0,
    }
}

/// What `handle_ack_insert` does: flip the record's pending flag off, pass
/// the acknowledgment toward the predecessor from a replica, and at the
/// primary wake the readers parked on the key.
pub open spec fn ack_insert_post(pre: Node, post: Node, data: MsgData, acts: Seq<Action>) -> bool {
    match data {
        MsgData::AckInsert { key } => {
            let kv = id_val(key);
            match store_find(pre.records@, kv) {
                Some(it) => {
                    &&& post.records@ =~= store_set_pending(pre.records@, kv, false)
                    &&& same_but_records_pendings(post, pre)
                    &&& if it.replica_idx > 0 {
                        &&& post.pendings == pre.pendings
                        &&& match pre.previous {
                            Some(prev) => acts.len() == 1 && sends_to(
                                acts[0],
                                prev,
                                MsgType::AckInsert,
                                None,
                            ) && action_data(acts[0]) == (MsgData::AckInsert { key }),
                            None => acts.len() == 0,
                        }
                    } else {
                        &&& pend_set(post.pendings@) =~= pend_set(pre.pendings@).remove(kv)
                        &&& if pend_set(pre.pendings@).contains(kv) {
                            acts.len() == 1 && acts[0] == (Action::Notify { key })
                        } else {
                            acts.len() == 0
                        }
                    }
                },
                None => post == pre && acts.len() == 0,
            }
        },
        _ => post == pre && acts.len() == 0,
    }
}

/// What `handle_ack_delete` does: at each replica the physical delete of a
/// record the chain has marked pending, the acknowledgment passed toward
/// the predecessor, and at the primary the parked readers woken.
pub open spec fn ack_delete_post(pre: Node, post: Node, data: MsgData, acts: Seq<Action>) -> bool {
    match data {
        MsgData::AckDelete { key } => {
            let kv = id_val(key);
            match store_find(pre.records@, kv) {
                Some(it) => {
                    if it.pending {
                        &&& post.records@ =~= store_remove(pre.records@, kv)
                        &&& same_but_records_pendings(post, pre)
                        &&& if it.replica_idx > 0 {
                            &&& post.pendings == pre.pendings
                            &&& match pre.previous {
                                Some(prev) => acts.len() == 1 && sends_to(
                                    acts[0],
                                    prev,
                                    MsgType::AckDelete,
                                    None,
                                ) && action_data(acts[0]) == (MsgData::AckDelete { key }),
                                None => acts.len() == 0,
                            }
                        } else {
                            &&& pend_set(post.pendings@) =~= pend_set(pre.pendings@).remove(kv)
                            &&& if pend_set(pre.pendings@).contains(kv) {
                                acts.len() == 1 && acts[0] == (Action::Notify { key })
                            } else {
                                acts.len() == 0
                            }
                        }
                    } else {
                        post == pre && acts.len() == 0
                    }
                },
                None => post == pre && acts.len() == 0,
            }
        },
        _ => post == pre && acts.len() == 0,
    }
}

impl Node {
    /// Installs the neighbor pointers an `Update` message carries.
    pub fn handle_update(&mut self, data: &MsgData) -> (actions: Vec<Action>)
        requires
            old(self).ready(),
        ensures
            final(self).ready(),
            update_post(*old(self), *final(self), *data, actions@),
    {
        let actions: Vec<Action> = Vec::new();
        match data {
            MsgData::Update { prev_info, succ_info } => {
                if prev_info.is_some() {
                    self.previous = *prev_info;
                }
                if succ_info.is_some() {
                    self.successor = *succ_info;
                }
            },
            _ => {},
        }
        actions
    }

    /// Handles the commit acknowledgment of a chain insert.
    pub fn handle_ack_insert(&mut self, data: &MsgData) -> (actions: Vec<Action>)
        requires
            old(self).ready(),
        ensures
            final(self).ready(),
            ack_insert_post(*old(self), *final(self), *data, actions@),
    {
        let mut actions: Vec<Action> = Vec::new();
        match data {
            MsgData::AckInsert { key } => {
                match self.records.get(key) {
                    Some(rec) => {
                        self.records.set_pending(key, false);
                        if rec.replica_idx > 0 {
                            match self.previous {
                                Some(prev) => {
                                    actions.push(Action::Send {
                                        dest: prev,
                                        msg: Message::new(
                                            MsgType::AckInsert,
                                            None,
                                            MsgData::AckInsert { key: *key },
                                        ),
                                    });
                                },
                                None => {},
                            }
                        } else {
                            if self.pendings_contains(key) {
                                actions.push(Action::Notify { key: *key });
                            }
                            self.pendings_remove(key);
                        }
                    },
                    None => {},
                }
            },
            _ => {},
        }
        actions
    }

    /// Handles the commit acknowledgment of a chain delete.
    pub fn handle_ack_delete(&mut self, data: &MsgData) -> (actions: Vec<Action>)
        requires
            old(self).ready(),
        ensures
            final(self).ready(),
            ack_delete_post(*old(self), *final(self), *data, actions@),
    {
        let mut actions: Vec<Action> = Vec::new();
        match data {
            MsgData::AckDelete { key } => {
                match self.records.get(key) {
                    Some(rec) => {
                        if rec.pending {
                            self.records.remove(key);
                            if rec.replica_idx > 0 {
                                match self.previous {
                                    Some(prev) => {
                                        actions.push(Action::Send {
                                            dest: prev,
                                            msg: Message::new(
                                                MsgType::AckDelete,
                                                None,
                                                MsgData::AckDelete { key: *key },
                                            ),
                                        });
                                    },
                                    None => {},
                                }
                            } else {
                                if self.pendings_contains(key) {
                                    actions.push(Action::Notify { key: *key });
                                }
                                self.pendings_remove(key);
                            }
                        }
                    },
                    None => {},
                }
            },
            _ => {},
        }
        actions
    }
}

/// What `handle_overlay` does: a lone node replies with its own line; any
/// other node opens the ring walk by sending `FwOverlay` with itself as
/// the first peer.
pub open spec fn overlay_post(
    pre: Node,
    post: Node,
    client: Option<NodeInfo>,
    data: MsgData,
    acts: Seq<Action>,
) -> bool {
    match data {
        MsgData::Overlay {  } => {
            &&& post == pre
            &&& pre.successor matches Some(succ) ==> {
                if id_val(succ.id) == pre.self_id() {
                    match client {
                        Some(c) => acts.len() == 1 && is_reply_to(
                            acts[0],
                            c,
                            overlay_text(seq![pre.info@]),
                        ),
                        None => acts.len() == 0,
                    }
                } else {
                    &&& acts.len() == 1
                    &&& sends_to(acts[0], succ, MsgType::FwOverlay, client)
                    &&& action_data(acts[0]) matches MsgData::FwOverlay { peers }
                        && peers@.map_values(|p: NodeInfo| p@) =~= seq![pre.info@]
                }
            }
        },
        _ => post == pre && acts.len() == 0,
    }
}

/// What `handle_fw_overlay` does: when the walk reaches its origin, reply
/// with the formatted peer list; otherwise append this node and pass the
/// walk to the successor.
pub open spec fn fw_overlay_post(
    pre: Node,
    post: Node,
    client: Option<NodeInfo>,
    data: MsgData,
    acts: Seq<Action>,
) -> bool {
    match data {
        MsgData::FwOverlay { peers } => {
            &&& post == pre
            &&& if peers@.len() == 0 {
                acts.len() == 0
            } else if id_val(peers@[0].id) == pre.self_id() {
                match client {
                    Some(c) => acts.len() == 1 && is_reply_to(
                        acts[0],
                        c,
                        overlay_text(peers@.map_values(|p: NodeInfo| p@)),
                    ),
                    None => acts.len() == 0,
                }
            } else {
                match pre.successor {
                    Some(succ) => {
                        &&& acts.len() == 1
                        &&& sends_to(acts[0], succ, MsgType::FwOverlay, client)
                        &&& action_data(acts[0]) matches MsgData::FwOverlay { peers: p2 }
                            && p2@.map_values(|p: NodeInfo| p@) =~= peers@.map_values(
                            |p: NodeInfo| p@,
                        ) + seq![pre.info@]
                    },
                    None => acts.len() == 0,
                }
            }
        },
        _ => post == pre && acts.len() == 0,
    }
}

/// The banner and node line that `query_all` contributes for one node.
pub open spec fn node_banner(id: Seq<u8>) -> Seq<char> {
    "\nNode: "@ + hex_of(id) + "\n"@
}

/// What `handle_query_all` does: a lone node replies with its own
/// committed primaries; any other node opens the ring walk carrying them.
pub open spec fn query_all_post(
    pre: Node,
    post: Node,
    client: Option<NodeInfo>,
    data: MsgData,
    acts: Seq<Action>,
) -> bool {
    match data {
        MsgData::QueryAll {  } => {
            &&& post == pre
            &&& pre.successor matches Some(succ) ==> {
                let items = primary_items(pre.records@);
                if id_val(succ.id) == pre.self_id() {
                    match client {
                        Some(c) => acts.len() == 1 && is_reply_to(
                            acts[0],
                            c,
                            "*** ALL RECORDS ***\n"@ + node_banner(pre.info@.id) + record_lines(
                                items,
                            ),
                        ),
                        None => acts.len() == 0,
                    }
                } else {
                    &&& acts.len() == 1
                    &&& sends_to(acts[0], succ, MsgType::FwQueryAll, client)
                    &&& action_data(acts[0]) matches MsgData::FwQueryAll { record_list, header }
                        && header@ == pre.info@.id && carried_items(
                        view_items(record_list@),
                        Seq::empty(),
                        pre.info@.id,
                        items,
                    )
                }
            }
        },
        _ => post == pre && acts.len() == 0,
    }
}

/// Whether `carried` is `front`, then this node's banner sentinel, then
/// this node's committed primaries. The sentinel's timestamp is free; its
/// visible fields are fixed.
pub open spec fn carried_items(
    carried: Seq<ItemV>,
    front: Seq<ItemV>,
    id: Seq<u8>,
    items: Seq<ItemV>,
) -> bool {
    &&& carried.len() == front.len() + 1 + items.len()
    &&& carried.take(front.len() as int) =~= front
    &&& carried[front.len() as int].title == "__nodeID__"@
    &&& carried[front.len() as int].value == hex_of(id)
    &&& carried[front.len() as int].replica_idx == 0
    &&& carried[front.len() as int].pending == false
    &&& carried.skip(front.len() as int + 1) =~= items
}

/// What `handle_fw_query_all` does: append this node's banner and
/// committed primaries; when the successor is the walk's origin, reply
/// with the formatted accumulation, else pass it on.
pub open spec fn fw_query_all_post(
    pre: Node,
    post: Node,
    client: Option<NodeInfo>,
    data: MsgData,
    acts: Seq<Action>,
) -> bool {
    match data {
        MsgData::FwQueryAll { record_list, header } => {
            &&& post == pre
            &&& match pre.successor {
                Some(succ) => {
                    let front = view_items(record_list@);
                    let items = primary_items(pre.records@);
                    if id_val(succ.id) == id_val(header) {
                        match client {
                            Some(c) => acts.len() == 1 && is_reply_to(
                                acts[0],
                                c,
                                "*** ALL RECORDS ***\n"@ + record_lines(front) + node_banner(
                                    pre.info@.id,
                                ) + record_lines(items),
                            ),
                            None => acts.len() == 0,
                        }
                    } else {
                        &&& acts.len() == 1
                        &&& sends_to(acts[0], succ, MsgType::FwQueryAll, client)
                        &&& action_data(acts[0]) matches MsgData::FwQueryAll {
                            record_list: rl2,
                            header: h2,
                        } && h2 == header && carried_items(
                            view_items(rl2@),
                            front,
                            pre.info@.id,
                            items,
                        )
                    }
                },
                None => post == pre && acts.len() == 0,
            }
        },
        _ => post == pre && acts.len() == 0,
    }
}

/// A copy of an item list, element by element.
fn clone_items(v: &Vec<Item>) -> (r: Vec<Item>)
    ensures
        view_items(r@) =~= view_items(v@),
{
    let n = v.len();
    let mut out: Vec<Item> = Vec::new();
    let mut i: usize = 0;
    while i < n
        invariant
            0 <= i <= n,
            n == v@.len(),
            out@.len() == i,
            forall|j: int| 0 <= j < i ==> #[trigger] out@[j]@ == v@[j]@,
        decreases n - i,
    {
        out.push(v[i].clone());
        i += 1;
    }
    proof {
        assert forall|j: int| 0 <= j < n implies view_items(out@)[j] == view_items(v@)[j] by {
            assert(out@[j]@ == v@[j]@);
        }
    }
    out
}

impl Node {
    /// Opens (or, alone, answers) the ring-topology walk.
    pub fn handle_overlay(&mut self, client: Option<NodeInfo>, data: &MsgData) -> (actions: Vec<
        Action,
    >)
        requires
            old(self).ready(),
            old(self).successor is Some,
        ensures
            final(self).ready(),
            overlay_post(*old(self), *final(self), client, *data, actions@),
    {
        let mut actions: Vec<Action> = Vec::new();
        match data {
            MsgData::Overlay {  } => {
                let succ = match self.successor {
                    Some(s) => s,
                    None => {
                        return actions;
                    },
                };
                if succ.id.equals(&self.info.id) {
                    let mut netvec: Vec<NodeInfo> = Vec::new();
                    netvec.push(self.info);
                    proof {
                        assert(netvec@.map_values(|p: NodeInfo| p@) =~= seq![self.info@]);
                    }
                    match client {
                        Some(c) => {
                            let text = crate::messages::format_overlay_msg(&netvec);
                            actions.push(Action::Send {
                                dest: c,
                                msg: Message::new(
                                    MsgType::Reply,
                                    None,
                                    MsgData::Reply { reply: text },
                                ),
                            });
                        },
                        None => {},
                    }
                } else {
                    let mut netvec: Vec<NodeInfo> = Vec::new();
                    netvec.push(self.info);
                    proof {
                        assert(netvec@.map_values(|p: NodeInfo| p@) =~= seq![self.info@]);
                    }
                    actions.push(Action::Send {
                        dest: succ,
                        msg: Message::new(
                            MsgType::FwOverlay,
                            client,
                            MsgData::FwOverlay { peers: netvec },
                        ),
                    });
                }
            },
            _ => {},
        }
        actions
    }

    /// Carries the ring-topology walk one hop, or closes it with the reply.
    pub fn handle_fw_overlay(&mut self, client: Option<NodeInfo>, data: &MsgData) -> (actions: Vec<
        Action,
    >)
        requires
            old(self).ready(),
        ensures
            final(self).ready(),
            fw_overlay_post(*old(self), *final(self), client, *data, actions@),
    {
        let mut actions: Vec<Action> = Vec::new();
        match data {
            MsgData::FwOverlay { peers } => {
                if peers.len() == 0 {
                    return actions;
                }
                if peers[0].id.equals(&self.info.id) {
                    match client {
                        Some(c) => {
                            let text = crate::messages::format_overlay_msg(peers);
                            actions.push(Action::Send {
                                dest: c,
                                msg: Message::new(
                                    MsgType::Reply,
                                    None,
                                    MsgData::Reply { reply: text },
                                ),
                            });
                        },
                        None => {},
                    }
                } else {
                    match self.successor {
                        Some(succ) => {
                            let mut peers_clone: Vec<NodeInfo> = Vec::new();
                            let n = peers.len();
                            let mut i: usize = 0;
                            while i < n
                                invariant
                                    0 <= i <= n,
                                    n == peers@.len(),
                                    peers_clone@ =~= peers@.take(i as int),
                                decreases n - i,
                            {
                                peers_clone.push(peers[i]);
                                i += 1;
                            }
                            proof {
                                assert(peers_clone@ =~= peers@);
                            }
                            peers_clone.push(self.info);
                            proof {
                                assert(peers_clone@.map_values(|p: NodeInfo| p@)
                                    =~= peers@.map_values(|p: NodeInfo| p@) + seq![self.info@]);
                            }
                            actions.push(Action::Send {
                                dest: succ,
                                msg: Message::new(
                                    MsgType::FwOverlay,
                                    client,
                                    MsgData::FwOverlay { peers: peers_clone },
                                ),
                            });
                        },
                        None => {},
                    }
                }
            },
            _ => {},
        }
        actions
    }

    /// Opens (or, alone, answers) the ring-wide record scan.
    pub fn handle_query_all(&mut self, client: Option<NodeInfo>, data: &MsgData) -> (actions: Vec<
        Action,
    >)
        requires
            old(self).ready(),
            old(self).successor is Some,
        ensures
            final(self).ready(),
            query_all_post(*old(self), *final(self), client, *data, actions@),
    {
        let mut actions: Vec<Action> = Vec::new();
        match data {
            MsgData::QueryAll {  } => {
                let succ = match self.successor {
                    Some(s) => s,
                    None => {
                        return actions;
                    },
                };
                let hex = self.info.id.to_hex();
                let sentinel = Item::new("__nodeID__", hex.as_str(), 0, false);
                let mut res = self.records.primaries();
                res.insert(0, sentinel);
                proof {
                    assert forall|j: int| 1 <= j < res@.len() implies view_items(res@)[j]
                        == primary_items(self.records@)[j - 1] by {
                        assert(res@[j] == res@.subrange(1, res@.len() as int)[j - 1]);
                    }
                    assert(view_items(res@).skip(1) =~= primary_items(self.records@));
                    assert(view_items(res@).take(0) =~= Seq::<ItemV>::empty());
                    assert(carried_items(
                        view_items(res@),
                        Seq::empty(),
                        self.info@.id,
                        primary_items(self.records@),
                    ));
                }
                if succ.id.equals(&self.info.id) {
                    match client {
                        Some(c) => {
                            let text = crate::messages::format_queryall_msg(&res);
                            proof {
                                lemma_queryall_split(view_items(res@), Seq::empty(),
                                    self.info@.id, primary_items(self.records@));
                            }
                            actions.push(Action::Send {
                                dest: c,
                                msg: Message::new(
                                    MsgType::Reply,
                                    None,
                                    MsgData::Reply { reply: text },
                                ),
                            });
                        },
                        None => {},
                    }
                } else {
                    actions.push(Action::Send {
                        dest: succ,
                        msg: Message::new(
                            MsgType::FwQueryAll,
                            client,
                            MsgData::FwQueryAll { record_list: res, header: self.info.id },
                        ),
                    });
                }
            },
            _ => {},
        }
        actions
    }

    /// Carries the ring-wide record scan one hop, or closes it with the
    /// reply.
    pub fn handle_fw_query_all(&mut self, client: Option<NodeInfo>, data: &MsgData) -> (actions:
        Vec<Action>)
        requires
            old(self).ready(),
        ensures
            final(self).ready(),
            fw_query_all_post(*old(self), *final(self), client, *data, actions@),
    {
        let mut actions: Vec<Action> = Vec::new();
        match data {
            MsgData::FwQueryAll { record_list, header } => {
                let succ = match self.successor {
                    Some(s) => s,
                    None => {
                        return actions;
                    },
                };
                let mut record_clone = clone_items(record_list);
                let ghost front = view_items(record_list@);
                let ghost nf = front.len() as int;
                let hex = self.info.id.to_hex();
                let sentinel = Item::new("__nodeID__", hex.as_str(), 0, false);
                record_clone.push(sentinel);
                let mut prims = self.records.primaries();
                let m = prims.len();
                let mut i: usize = 0;
                while i < m
                    invariant
                        0 <= i <= m,
                        m == prims@.len(),
                        nf == front.len(),
                        record_clone@.len() == nf + 1 + i,
                        forall|j: int| 0 <= j < nf ==> #[trigger] record_clone@[j]@ == front[j],
                        record_clone@[nf]@.title == "__nodeID__"@,
                        record_clone@[nf]@.value == hex_of(self.info@.id),
                        record_clone@[nf]@.replica_idx == 0,
                        record_clone@[nf]@.pending == false,
                        forall|j: int| 0 <= j < i
                            ==> #[trigger] record_clone@[nf + 1 + j]@ == prims@[j]@,
                        front == view_items(record_list@),
                        view_items(prims@) =~= primary_items(self.records@),
                        self == old(self),
                    decreases m - i,
                {
                    record_clone.push(prims[i].clone());
                    i += 1;
                }
                proof {
                    assert forall|j: int| 0 <= j < nf implies view_items(record_clone@).take(nf)[j]
                        == front[j] by {
                        assert(record_clone@[j]@ == front[j]);
                    }
                    assert(view_items(record_clone@).take(nf) =~= front);
                    assert forall|j: int| 0 <= j < m implies view_items(record_clone@).skip(
                        nf + 1,
                    )[j] == primary_items(self.records@)[j] by {
                        assert(record_clone@[nf + 1 + j]@ == prims@[j]@);
                        assert(view_items(prims@)[j] == prims@[j]@);
                    }
                    assert(view_items(record_clone@).skip(nf + 1) =~= primary_items(
                        self.records@,
                    ));
                    assert(carried_items(
                        view_items(record_clone@),
                        front,
                        self.info@.id,
                        primary_items(self.records@),
                    ));
                }
                if succ.id.equals(header) {
                    match client {
                        Some(c) => {
                            let text = crate::messages::format_queryall_msg(&record_clone);
                            proof {
                                lemma_queryall_split(
                                    view_items(record_clone@),
                                    front,
                                    self.info@.id,
                                    primary_items(self.records@),
                                );
                            }
                            actions.push(Action::Send {
                                dest: c,
                                msg: Message::new(
                                    MsgType::Reply,
                                    None,
                                    MsgData::Reply { reply: text },
                                ),
                            });
                        },
                        None => {},
                    }
                } else {
                    actions.push(Action::Send {
                        dest: succ,
                        msg: Message::new(
                            MsgType::FwQueryAll,
                            client,
                            MsgData::FwQueryAll { record_list: record_clone, header: *header },
                        ),
                    });
                }
            },
            _ => {},
        }
        actions
    }
}

/// A carried list formats as its front, then the node banner, then the
/// node's own lines.
proof fn lemma_queryall_split(carried: Seq<ItemV>, front: Seq<ItemV>, id: Seq<u8>, items: Seq<
    ItemV,
>)
    requires
        carried_items(carried, front, id, items),
    ensures
        queryall_text(carried) =~= "*** ALL RECORDS ***\n"@ + record_lines(front) + node_banner(id)
            + record_lines(items),
{
    let sent = carried[front.len() as int];
    let nf = front.len() as int;
    assert forall|j: int| 0 <= j < carried.len() implies carried[j] == (front + seq![sent]
        + items)[j] by {
        if j < nf {
            assert(carried.take(nf)[j] == carried[j]);
            assert(carried.take(nf)[j] == front[j]);
        } else if j > nf {
            assert(carried.skip(nf + 1)[j - nf - 1] == carried[j]);
            assert(carried.skip(nf + 1)[j - nf - 1] == items[j - nf - 1]);
        }
    }
    assert(carried =~= front + seq![sent] + items);
    lemma_record_lines_concat(front + seq![sent], items);
    lemma_record_lines_concat(front, seq![sent]);
    assert(record_lines(seq![sent]) =~= record_line(sent)) by {
        let s1 = seq![sent];
        assert(s1.len() == 1);
        assert(s1.last() == sent);
        assert(s1.drop_last() =~= Seq::<ItemV>::empty());
        assert(record_lines(Seq::<ItemV>::empty()) =~= Seq::<char>::empty());
        assert(record_lines(s1) == record_lines(s1.drop_last()) + record_line(s1.last()));
    }
    assert(record_line(sent) =~= node_banner(id));
}

/// The item an eventual-mode insert stores locally, up to its timestamp.
pub open spec fn fresh_item(title: Seq<char>, value: Seq<char>, idx: int, pending: bool, ts: int)
    -> ItemV {
    ItemV { title, value, replica_idx: idx, pending, timestamp: ts }
}

/// Whether `acts[i]` forwards an `Insert`, `Delete` or `Query` of the user
/// key `key` (with `value` for inserts) one hop toward the primary: to the
/// successor when it is the next hop, else to the predecessor.
pub open spec fn routes_to_primary(
    acts: Seq<Action>,
    pre: Node,
    client: Option<NodeInfo>,
    t: MsgType,
    kv: int,
) -> bool {
    &&& acts.len() == 1
    &&& sends_to(
        acts[0],
        if pre.spec_maybe_next(kv) {
            pre.successor->0
        } else {
            pre.previous->0
        },
        t,
        client,
    )
}

/// The outbound messages of an eventual-mode insert at a replica manager:
/// the immediate reply, the backward ripple below `r`, and the forward
/// ripple above it.
pub open spec fn eventual_insert_acts(
    acts: Seq<Action>,
    pre: Node,
    client: Option<NodeInfo>,
    key: Seq<char>,
    value: Seq<char>,
    r: int,
) -> bool {
    let has_reply = client is Some;
    let has_back = r > 0 && pre.previous is Some;
    let has_next = r < pre.spec_current_k() && pre.successor is Some;
    let ib: int = if has_reply { 1 } else { 0 };
    let inx: int = ib + (if has_back { 1int } else { 0 });
    &&& acts.len() == inx + (if has_next { 1int } else { 0 })
    &&& has_reply ==> is_reply_to(acts[0], client->0, inserted_text(key, value))
    &&& has_back ==> sends_to(acts[ib], pre.previous->0, MsgType::FwInsert, None) && (action_data(
        acts[ib],
    ) matches MsgData::FwInsert { key: k2, value: v2, replica, forward_back } && k2@ == key && v2@
        == value && replica == r - 1 && forward_back)
    &&& has_next ==> sends_to(acts[inx], pre.successor->0, MsgType::FwInsert, None) && (action_data(
        acts[inx],
    ) matches MsgData::FwInsert { key: k2, value: v2, replica, forward_back } && k2@ == key && v2@
        == value && replica == r + 1 && !forward_back)
}

/// What `handle_insert` does. In eventual mode a replica manager stores the
/// write under its replica index, replies at once, and ripples the write
/// both ways; any other node routes the request toward the primary. In
/// chain mode only the primary may start: it stores the write pending and
/// hands it down the chain without replying; others route it on. Quorum
/// mode has no protocol.
pub open spec fn insert_post(
    pre: Node,
    post: Node,
    client: Option<NodeInfo>,
    data: MsgData,
    acts: Seq<Action>,
) -> bool {
    match data {
        MsgData::Insert { key, value } => {
            let kv = be_val(sha1_of(key@));
            match pre.replication.replication_mode {
                Consistency::Eventual => {
                    let r = pre.spec_replica_manager(kv);
                    if r >= 0 {
                        &&& (exists|ts: int| post.records@ =~= #[trigger] store_merge(
                            pre.records@,
                            kv,
                            fresh_item(key@, value@, r, false, ts),
                        ))
                        &&& same_but_records(post, pre)
                        &&& eventual_insert_acts(acts, pre, client, key@, value@, r)
                    } else {
                        &&& post == pre
                        &&& routes_to_primary(acts, pre, client, MsgType::Insert, kv)
                        &&& action_data(acts[0]) matches MsgData::Insert { key: k2, value: v2 }
                            && k2@ == key@ && v2@ == value@
                    }
                },
                Consistency::Chain => {
                    if pre.spec_responsible(kv) {
                        &&& (exists|ts: int| post.records@ =~= #[trigger] store_merge(
                            pre.records@,
                            kv,
                            fresh_item(key@, value@, 0, true, ts),
                        ))
                        &&& same_but_records(post, pre)
                        &&& if pre.spec_current_k() > 0 {
                            match pre.successor {
                                Some(succ) => acts.len() == 1 && sends_to(
                                    acts[0],
                                    succ,
                                    MsgType::FwInsert,
                                    client,
                                ) && (action_data(acts[0]) matches MsgData::FwInsert {
                                    key: k2,
                                    value: v2,
                                    replica,
                                    forward_back,
                                } && k2@ == key@ && v2@ == value@ && replica == 1 && !forward_back),
                                None => acts.len() == 0,
                            }
                        } else {
                            acts.len() == 0
                        }
                    } else {
                        &&& post == pre
                        &&& routes_to_primary(acts, pre, client, MsgType::Insert, kv)
                        &&& action_data(acts[0]) matches MsgData::Insert { key: k2, value: v2 }
                            && k2@ == key@ && v2@ == value@
                    }
                },
                Consistency::Quorum => post == pre && acts.len() == 0,
            }
        },
        _ => post == pre && acts.len() == 0,
    }
}

/// What `handle_fw_insert` does: the rippled write of eventual mode,
/// continued in the direction its `forward_back` flag names, and the
/// chain-mode hand-down with the tail's reply and backward acknowledgment.
pub open spec fn fw_insert_post(
    pre: Node,
    post: Node,
    client: Option<NodeInfo>,
    data: MsgData,
    acts: Seq<Action>,
) -> bool {
    match data {
        MsgData::FwInsert { key, value, replica, forward_back } => {
            let kv = be_val(sha1_of(key@));
            match pre.replication.replication_mode {
                Consistency::Eventual => {
                    if replica >= 0 {
                        &&& (exists|ts: int| post.records@ =~= #[trigger] store_merge(
                            pre.records@,
                            kv,
                            fresh_item(key@, value@, (replica as u8) as int, false, ts),
                        ))
                        &&& same_but_records(post, pre)
                        &&& if replica > 0 && forward_back && pre.previous is Some {
                            acts.len() == 1 && sends_to(
                                acts[0],
                                pre.previous->0,
                                MsgType::FwInsert,
                                None,
                            ) && (action_data(acts[0]) matches MsgData::FwInsert {
                                key: k2,
                                value: v2,
                                replica: r2,
                                forward_back: b2,
                            } && k2@ == key@ && v2@ == value@ && r2 == replica - 1 && b2)
                        } else if (replica as u8) < pre.spec_current_k() && !forward_back
                            && pre.successor is Some {
                            acts.len() == 1 && sends_to(
                                acts[0],
                                pre.successor->0,
                                MsgType::FwInsert,
                                None,
                            ) && (action_data(acts[0]) matches MsgData::FwInsert {
                                key: k2,
                                value: v2,
                                replica: r2,
                                forward_back: b2,
                            } && k2@ == key@ && v2@ == value@ && r2 == replica + 1 && !b2)
                        } else {
                            acts.len() == 0
                        }
                    } else {
                        post == pre && acts.len() == 0
                    }
                },
                Consistency::Chain => {
                    &&& (exists|ts: int| post.records@ =~= #[trigger] store_merge(
                        pre.records@,
                        kv,
                        fresh_item(key@, value@, (replica as u8) as int, true, ts),
                    ))
                    &&& same_but_records(post, pre)
                    &&& if (replica as u8) < pre.spec_current_k() {
                        match pre.successor {
                            Some(succ) => acts.len() == 1 && sends_to(
                                acts[0],
                                succ,
                                MsgType::FwInsert,
                                client,
                            ) && (action_data(acts[0]) matches MsgData::FwInsert {
                                key: k2,
                                value: v2,
                                replica: r2,
                                forward_back: b2,
                            } && k2@ == key@ && v2@ == value@ && r2 == replica + 1 && !b2),
                            None => acts.len() == 0,
                        }
                    } else if (replica as u8) == pre.spec_current_k() {
                        let nr: int = if client is Some { 1 } else { 0 };
                        &&& acts.len() == nr + (if pre.previous is Some { 1int } else { 0 })
                        &&& client matches Some(c) ==> is_reply_to(
                            acts[0],
                            c,
                            inserted_text(key@, value@),
                        )
                        &&& pre.previous matches Some(prev) ==> sends_to(
                            acts[nr],
                            prev,
                            MsgType::AckInsert,
                            None,
                        ) && (action_data(acts[nr]) matches MsgData::AckInsert { key: kh } && kh@
                            == sha1_of(key@))
                    } else {
                        acts.len() == 0
                    }
                },
                Consistency::Quorum => post == pre && acts.len() == 0,
            }
        },
        _ => post == pre && acts.len() == 0,
    }
}

impl Node {
    /// Handles a client `Insert` request.
    pub fn handle_insert(&mut self, client: Option<NodeInfo>, data: &MsgData) -> (actions: Vec<
        Action,
    >)
        requires
            old(self).ready(),
        ensures
            final(self).ready(),
            insert_post(*old(self), *final(self), client, *data, actions@),
    {
        let mut actions: Vec<Action> = Vec::new();
        match data {
            MsgData::Insert { key, value } => {
                let key_hash = HashFunc(key.as_str());
                match self.get_consistency() {
                    Consistency::Eventual => {
                        let replica = self.is_replica_manager(&key_hash);
                        if replica >= 0 {
                            let new_item = Item::new(
                                key.as_str(),
                                value.as_str(),
                                replica as u8,
                                false,
                            );
                            proof {
                                assert(new_item@ == fresh_item(
                                    key@,
                                    value@,
                                    replica as int,
                                    false,
                                    new_item@.timestamp,
                                ));
                            }
                            self.insert_aux(key_hash, &new_item);
                            match client {
                                Some(c) => {
                                    let text = crate::messages::make_inserted_text(
                                        key.as_str(),
                                        value.as_str(),
                                    );
                                    actions.push(Action::Send {
                                        dest: c,
                                        msg: Message::new(
                                            MsgType::Reply,
                                            None,
                                            MsgData::Reply { reply: text },
                                        ),
                                    });
                                },
                                None => {},
                            }
                            if replica > 0 {
                                match self.previous {
                                    Some(prev) => {
                                        actions.push(Action::Send {
                                            dest: prev,
                                            msg: Message::new(
                                                MsgType::FwInsert,
                                                None,
                                                MsgData::FwInsert {
                                                    key: String::from_str(key.as_str()),
                                                    value: String::from_str(value.as_str()),
                                                    replica: replica - 1,
                                                    forward_back: true,
                                                },
                                            ),
                                        });
                                    },
                                    None => {},
                                }
                            }
                            if replica < self.get_current_k() as i16 {
                                match self.successor {
                                    Some(succ) => {
                                        actions.push(Action::Send {
                                            dest: succ,
                                            msg: Message::new(
                                                MsgType::FwInsert,
                                                None,
                                                MsgData::FwInsert {
                                                    key: String::from_str(key.as_str()),
                                                    value: String::from_str(value.as_str()),
                                                    replica: replica + 1,
                                                    forward_back: false,
                                                },
                                            ),
                                        });
                                    },
                                    None => {},
                                }
                            }
                        } else {
                            let dest = if self.maybe_next_responsible(&key_hash) {
                                self.successor.unwrap()
                            } else {
                                self.previous.unwrap()
                            };
                            actions.push(Action::Send {
                                dest,
                                msg: Message::new(
                                    MsgType::Insert,
                                    client,
                                    MsgData::Insert {
                                        key: String::from_str(key.as_str()),
                                        value: String::from_str(value.as_str()),
                                    },
                                ),
                            });
                        }
                    },
                    Consistency::Chain => {
                        if self.is_responsible(&key_hash) {
                            let new_item = Item::new(key.as_str(), value.as_str(), 0, true);
                            proof {
                                assert(new_item@ == fresh_item(
                                    key@,
                                    value@,
                                    0,
                                    true,
                                    new_item@.timestamp,
                                ));
                            }
                            self.insert_aux(key_hash, &new_item);
                            if self.get_current_k() > 0 {
                                match self.successor {
                                    Some(succ) => {
                                        actions.push(Action::Send {
                                            dest: succ,
                                            msg: Message::new(
                                                MsgType::FwInsert,
                                                client,
                                                MsgData::FwInsert {
                                                    key: String::from_str(key.as_str()),
                                                    value: String::from_str(value.as_str()),
                                                    replica: 1,
                                                    forward_back: false,
                                                },
                                            ),
                                        });
                                    },
                                    None => {},
                                }
                            }
                        } else {
                            let dest = if self.maybe_next_responsible(&key_hash) {
                                self.successor.unwrap()
                            } else {
                                self.previous.unwrap()
                            };
                            actions.push(Action::Send {
                                dest,
                                msg: Message::new(
                                    MsgType::Insert,
                                    client,
                                    MsgData::Insert {
                                        key: String::from_str(key.as_str()),
                                        value: String::from_str(value.as_str()),
                                    },
                                ),
                            });
                        }
                    },
                    Consistency::Quorum => {},
                }
            },
            _ => {},
        }
        actions
    }

    /// Handles a forwarded insert.
    pub fn handle_fw_insert(&mut self, client: Option<NodeInfo>, data: &MsgData) -> (actions: Vec<
        Action,
    >)
        requires
            old(self).ready(),
        ensures
            final(self).ready(),
            fw_insert_post(*old(self), *final(self), client, *data, actions@),
    {
        let mut actions: Vec<Action> = Vec::new();
        match data {
            MsgData::FwInsert { key, value, replica, forward_back } => {
                let key_hash = HashFunc(key.as_str());
                match self.get_consistency() {
                    Consistency::Eventual => {
                        if *replica >= 0 {
                            let idx8: u8 = #[verifier::truncate] (*replica as u8);
                            let new_item = Item::new(key.as_str(), value.as_str(), idx8, false);
                            proof {
                                assert(new_item@ == fresh_item(
                                    key@,
                                    value@,
                                    (*replica as u8) as int,
                                    false,
                                    new_item@.timestamp,
                                ));
                            }
                            self.insert_aux(key_hash, &new_item);
                            if *replica > 0 && *forward_back {
                                match self.previous {
                                    Some(prev) => {
                                        actions.push(Action::Send {
                                            dest: prev,
                                            msg: Message::new(
                                                MsgType::FwInsert,
                                                None,
                                                MsgData::FwInsert {
                                                    key: String::from_str(key.as_str()),
                                                    value: String::from_str(value.as_str()),
                                                    replica: *replica - 1,
                                                    forward_back: true,
                                                },
                                            ),
                                        });
                                    },
                                    None => {},
                                }
                            } else if idx8 < self.get_current_k() && !*forward_back {
                                proof {
                                    let r = *replica;
                                    assert(r < 32767i16) by (bit_vector)
                                        requires (r as u8) < 255u8;
                                }
                                match self.successor {
                                    Some(succ) => {
                                        actions.push(Action::Send {
                                            dest: succ,
                                            msg: Message::new(
                                                MsgType::FwInsert,
                                                None,
                                                MsgData::FwInsert {
                                                    key: String::from_str(key.as_str()),
                                                    value: String::from_str(value.as_str()),
                                                    replica: *replica + 1,
                                                    forward_back: false,
                                                },
                                            ),
                                        });
                                    },
                                    None => {},
                                }
                            }
                        }
                    },
                    Consistency::Chain => {
                        let idx8: u8 = #[verifier::truncate] (*replica as u8);
                        let new_item = Item::new(key.as_str(), value.as_str(), idx8, true);
                        proof {
                            assert(new_item@ == fresh_item(
                                key@,
                                value@,
                                (*replica as u8) as int,
                                true,
                                new_item@.timestamp,
                            ));
                        }
                        self.insert_aux(key_hash, &new_item);
                        if idx8 < self.get_current_k() {
                            proof {
                                let r = *replica;
                                assert(r < 32767i16) by (bit_vector)
                                    requires (r as u8) < 255u8;
                            }
                            match self.successor {
                                Some(succ) => {
                                    actions.push(Action::Send {
                                        dest: succ,
                                        msg: Message::new(
                                            MsgType::FwInsert,
                                            client,
                                            MsgData::FwInsert {
                                                key: String::from_str(key.as_str()),
                                                value: String::from_str(value.as_str()),
                                                replica: *replica + 1,
                                                forward_back: false,
                                            },
                                        ),
                                    });
                                },
                                None => {},
                            }
                        } else if idx8 == self.get_current_k() {
                            match client {
                                Some(c) => {
                                    let text = crate::messages::make_inserted_text(
                                        key.as_str(),
                                        value.as_str(),
                                    );
                                    actions.push(Action::Send {
                                        dest: c,
                                        msg: Message::new(
                                            MsgType::Reply,
                                            None,
                                            MsgData::Reply { reply: text },
                                        ),
                                    });
                                },
                                None => {},
                            }
                            match self.previous {
                                Some(prev) => {
                                    actions.push(Action::Send {
                                        dest: prev,
                                        msg: Message::new(
                                            MsgType::AckInsert,
                                            None,
                                            MsgData::AckInsert { key: key_hash },
                                        ),
                                    });
                                },
                                None => {},
                            }
                        }
                    },
                    Consistency::Quorum => {},
                }
            },
            _ => {},
        }
        actions
    }
}

/// The read algorithm at a chain-mode primary: a missing key answers with
/// `miss`; a pending record parks the reader on the key; a committed one
/// is served by the tail — forwarded there when the chain is longer, else
/// answered here.
pub open spec fn chain_read_post(
    pre: Node,
    post: Node,
    client: Option<NodeInfo>,
    kv: int,
    miss: Seq<char>,
    acts: Seq<Action>,
) -> bool {
    match store_find(pre.records@, kv) {
        None => post == pre && (match client {
            Some(c) => acts.len() == 1 && is_reply_to(acts[0], c, miss),
            None => acts.len() == 0,
        }),
        Some(it) => {
            if it.pending {
                &&& pend_set(post.pendings@) =~= pend_set(pre.pendings@).insert(kv)
                &&& same_but_pendings(post, pre)
                &&& acts.len() == 1
                &&& (acts[0] matches Action::Wait { key: kw } && id_val(kw) == kv)
            } else if it.replica_idx < pre.spec_current_k() {
                &&& post == pre
                &&& match pre.successor {
                    Some(succ) => acts.len() == 1 && sends_to(
                        acts[0],
                        succ,
                        MsgType::FwQuery,
                        client,
                    ) && (action_data(acts[0]) matches MsgData::FwQuery { key: k2, forward_tail }
                        && id_val(k2) == kv && forward_tail),
                    None => acts.len() == 0,
                }
            } else {
                &&& post == pre
                &&& match client {
                    Some(c) => acts.len() == 1 && is_reply_to(
                        acts[0],
                        c,
                        found_text(it.title, it.value),
                    ),
                    None => acts.len() == 0,
                }
            }
        },
    }
}

/// What `handle_query` does. In eventual mode any replica manager answers
/// from its own store; in chain mode the primary runs the gated read
/// algorithm; any other node routes the request toward the primary.
pub open spec fn query_post(
    pre: Node,
    post: Node,
    client: Option<NodeInfo>,
    data: MsgData,
    acts: Seq<Action>,
) -> bool {
    match data {
        MsgData::Query { key } => {
            let kv = be_val(sha1_of(key@));
            match pre.replication.replication_mode {
                Consistency::Eventual => {
                    if pre.spec_replica_manager(kv) >= 0 {
                        &&& post == pre
                        &&& match client {
                            Some(c) => acts.len() == 1 && is_reply_to(
                                acts[0],
                                c,
                                match store_find(pre.records@, kv) {
                                    Some(it) => found_text(it.title, it.value),
                                    None => not_found_text(key@),
                                },
                            ),
                            None => acts.len() == 0,
                        }
                    } else {
                        &&& post == pre
                        &&& routes_to_primary(acts, pre, client, MsgType::FwQuery, kv)
                        &&& (action_data(acts[0]) matches MsgData::FwQuery { key: k2, forward_tail }
                            && k2@ == sha1_of(key@) && !forward_tail)
                    }
                },
                Consistency::Chain => {
                    if pre.spec_responsible(kv) {
                        chain_read_post(pre, post, client, kv, not_found_text(key@), acts)
                    } else {
                        &&& post == pre
                        &&& routes_to_primary(acts, pre, client, MsgType::FwQuery, kv)
                        &&& (action_data(acts[0]) matches MsgData::FwQuery { key: k2, forward_tail }
                            && k2@ == sha1_of(key@) && !forward_tail)
                    }
                },
                Consistency::Quorum => post == pre && acts.len() == 0,
            }
        },
        _ => post == pre && acts.len() == 0,
    }
}

/// What `handle_fw_query` does: the eventual-mode answer at any replica
/// manager; in chain mode the tail walk of a gated read, or the read
/// algorithm itself once the request reaches the primary.
pub open spec fn fw_query_post(
    pre: Node,
    post: Node,
    client: Option<NodeInfo>,
    data: MsgData,
    acts: Seq<Action>,
) -> bool {
    match data {
        MsgData::FwQuery { key, forward_tail } => {
            let kv = id_val(key);
            match pre.replication.replication_mode {
                Consistency::Eventual => {
                    if pre.spec_replica_manager(kv) >= 0 {
                        &&& post == pre
                        &&& match client {
                            Some(c) => acts.len() == 1 && is_reply_to(
                                acts[0],
                                c,
                                match store_find(pre.records@, kv) {
                                    Some(it) => found_text(it.title, it.value),
                                    None => not_found_text(hex_of(key@)),
                                },
                            ),
                            None => acts.len() == 0,
                        }
                    } else {
                        &&& post == pre
                        &&& routes_to_primary(acts, pre, client, MsgType::FwQuery, kv)
                        &&& (action_data(acts[0]) matches MsgData::FwQuery {
                            key: k2,
                            forward_tail: ft2,
                        } && k2 == key && !ft2)
                    }
                },
                Consistency::Chain => {
                    if forward_tail {
                        match store_find(pre.records@, kv) {
                            Some(it) => {
                                if it.replica_idx < pre.spec_current_k() {
                                    &&& post == pre
                                    &&& match pre.successor {
                                        Some(succ) => acts.len() == 1 && sends_to(
                                            acts[0],
                                            succ,
                                            MsgType::FwQuery,
                                            client,
                                        ) && (action_data(acts[0]) matches MsgData::FwQuery {
                                            key: k2,
                                            forward_tail: ft2,
                                        } && k2 == key && ft2),
                                        None => acts.len() == 0,
                                    }
                                } else if it.replica_idx == pre.spec_current_k() {
                                    &&& post == pre
                                    &&& match client {
                                        Some(c) => acts.len() == 1 && is_reply_to(
                                            acts[0],
                                            c,
                                            found_text(it.title, it.value),
                                        ),
                                        None => acts.len() == 0,
                                    }
                                } else {
                                    post == pre && acts.len() == 0
                                }
                            },
                            None => post == pre && acts.len() == 0,
                        }
                    } else {
                        if pre.spec_responsible(kv) {
                            chain_read_post(pre, post, client, kv, not_found_text(hex_of(key@)), acts)
                        } else {
                            &&& post == pre
                            &&& routes_to_primary(acts, pre, client, MsgType::FwQuery, kv)
                            &&& (action_data(acts[0]) matches MsgData::FwQuery {
                                key: k2,
                                forward_tail: ft2,
                            } && k2 == key && !ft2)
                        }
                    }
                },
                Consistency::Quorum => post == pre && acts.len() == 0,
            }
        },
        _ => post == pre && acts.len() == 0,
    }
}

/// The outbound messages of an eventual-mode delete at a replica manager:
/// the immediate reply, then the ripple onward and backward.
pub open spec fn eventual_delete_acts(
    acts: Seq<Action>,
    pre: Node,
    client: Option<NodeInfo>,
    it: ItemV,
    kv: int,
) -> bool {
    let has_reply = client is Some;
    let has_next = it.replica_idx < pre.spec_current_k() && pre.successor is Some;
    let has_back = it.replica_idx > 0 && pre.previous is Some;
    let ib: int = if has_reply { 1 } else { 0 };
    let inx: int = ib + (if has_next { 1int } else { 0 });
    &&& acts.len() == inx + (if has_back { 1int } else { 0 })
    &&& has_reply ==> is_reply_to(acts[0], client->0, deleted_text(it.title, it.value))
    &&& has_next ==> sends_to(acts[ib], pre.successor->0, MsgType::FwDelete, None) && (action_data(
        acts[ib],
    ) matches MsgData::FwDelete { key: k2, forward_back } && id_val(k2) == kv && !forward_back)
    &&& has_back ==> sends_to(acts[inx], pre.previous->0, MsgType::FwDelete, None) && (action_data(
        acts[inx],
    ) matches MsgData::FwDelete { key: k2, forward_back } && id_val(k2) == kv && forward_back)
}

/// What `handle_delete` does. In eventual mode a replica manager removes
/// its copy, replies, and ripples the delete both ways; in chain mode the
/// primary marks the record pending and hands the delete down the chain;
/// any other node routes the request toward the primary.
pub open spec fn delete_post(
    pre: Node,
    post: Node,
    client: Option<NodeInfo>,
    data: MsgData,
    acts: Seq<Action>,
) -> bool {
    match data {
        MsgData::Delete { key } => {
            let kv = be_val(sha1_of(key@));
            match pre.replication.replication_mode {
                Consistency::Eventual => {
                    if pre.spec_replica_manager(kv) >= 0 {
                        &&& post.records@ =~= store_remove(pre.records@, kv)
                        &&& same_but_records(post, pre)
                        &&& match store_find(pre.records@, kv) {
                            Some(it) => eventual_delete_acts(acts, pre, client, it, kv),
                            None => match client {
                                Some(c) => acts.len() == 1 && is_reply_to(
                                    acts[0],
                                    c,
                                    not_found_text(key@),
                                ),
                                None => acts.len() == 0,
                            },
                        }
                    } else {
                        &&& post == pre
                        &&& routes_to_primary(acts, pre, client, MsgType::Delete, kv)
                        &&& (action_data(acts[0]) matches MsgData::Delete { key: k2 } && k2@
                            == key@)
                    }
                },
                Consistency::Chain => {
                    if pre.spec_responsible(kv) {
                        match store_find(pre.records@, kv) {
                            Some(it) => {
                                &&& post.records@ =~= store_set_pending(pre.records@, kv, true)
                                &&& same_but_records(post, pre)
                                &&& if it.replica_idx < pre.spec_current_k() {
                                    match pre.successor {
                                        Some(succ) => acts.len() == 1 && sends_to(
                                            acts[0],
                                            succ,
                                            MsgType::FwDelete,
                                            client,
                                        ) && (action_data(acts[0]) matches MsgData::FwDelete {
                                            key: k2,
                                            forward_back,
                                        } && id_val(k2) == kv && !forward_back),
                                        None => acts.len() == 0,
                                    }
                                } else {
                                    acts.len() == 0
                                }
                            },
                            None => post == pre && (match client {
                                Some(c) => acts.len() == 1 && is_reply_to(
                                    acts[0],
                                    c,
                                    not_found_text(key@),
                                ),
                                None => acts.len() == 0,
                            }),
                        }
                    } else {
                        &&& post == pre
                        &&& routes_to_primary(acts, pre, client, MsgType::Delete, kv)
                        &&& (action_data(acts[0]) matches MsgData::Delete { key: k2 } && k2@
                            == key@)
                    }
                },
                Consistency::Quorum => post == pre && acts.len() == 0,
            }
        },
        _ => post == pre && acts.len() == 0,
    }
}

/// What `handle_fw_delete` does: the eventual-mode ripple continued in its
/// one direction, and the chain-mode hand-down with the tail's physical
/// delete, reply, and backward acknowledgment.
pub open spec fn fw_delete_post(
    pre: Node,
    post: Node,
    client: Option<NodeInfo>,
    data: MsgData,
    acts: Seq<Action>,
) -> bool {
    match data {
        MsgData::FwDelete { key, forward_back } => {
            let kv = id_val(key);
            match pre.replication.replication_mode {
                Consistency::Eventual => {
                    if pre.spec_replica_manager(kv) >= 0 {
                        &&& post.records@ =~= store_remove(pre.records@, kv)
                        &&& same_but_records(post, pre)
                        &&& match store_find(pre.records@, kv) {
                            Some(it) => {
                                if it.replica_idx > 0 && forward_back && pre.previous is Some {
                                    acts.len() == 1 && sends_to(
                                        acts[0],
                                        pre.previous->0,
                                        MsgType::FwDelete,
                                        None,
                                    ) && (action_data(acts[0]) matches MsgData::FwDelete {
                                        key: k2,
                                        forward_back: b2,
                                    } && k2 == key && b2)
                                } else if it.replica_idx < pre.spec_current_k() && !forward_back
                                    && pre.successor is Some {
                                    acts.len() == 1 && sends_to(
                                        acts[0],
                                        pre.successor->0,
                                        MsgType::FwDelete,
                                        None,
                                    ) && (action_data(acts[0]) matches MsgData::FwDelete {
                                        key: k2,
                                        forward_back: b2,
                                    } && k2 == key && !b2)
                                } else {
                                    acts.len() == 0
                                }
                            },
                            None => acts.len() == 0,
                        }
                    } else {
                        post == pre && acts.len() == 0
                    }
                },
                Consistency::Chain => {
                    match store_find(pre.records@, kv) {
                        Some(it) => {
                            if it.replica_idx < pre.spec_current_k() {
                                &&& post.records@ =~= store_set_pending(pre.records@, kv, true)
                                &&& same_but_records(post, pre)
                                &&& match pre.successor {
                                    Some(succ) => acts.len() == 1 && sends_to(
                                        acts[0],
                                        succ,
                                        MsgType::FwDelete,
                                        client,
                                    ) && (action_data(acts[0]) matches MsgData::FwDelete {
                                        key: k2,
                                        forward_back: b2,
                                    } && k2 == key && !b2),
                                    None => acts.len() == 0,
                                }
                            } else if it.replica_idx == pre.spec_current_k() {
                                let nr: int = if client is Some { 1 } else { 0 };
                                let has_ack = it.replica_idx > 0 && pre.previous is Some;
                                &&& post.records@ =~= store_remove(pre.records@, kv)
                                &&& same_but_records(post, pre)
                                &&& acts.len() == nr + (if has_ack { 1int } else { 0 })
                                &&& client matches Some(c) ==> is_reply_to(
                                    acts[0],
                                    c,
                                    deleted_text(it.title, it.value),
                                )
                                &&& has_ack ==> sends_to(
                                    acts[nr],
                                    pre.previous->0,
                                    MsgType::AckDelete,
                                    None,
                                ) && (action_data(acts[nr]) matches MsgData::AckDelete { key: k2 }
                                    && k2 == key)
                            } else {
                                &&& post.records@ =~= store_set_pending(pre.records@, kv, true)
                                &&& same_but_records(post, pre)
                                &&& acts.len() == 0
                            }
                        },
                        None => post == pre && acts.len() == 0,
                    }
                },
                Consistency::Quorum => post == pre && acts.len() == 0,
            }
        },
        _ => post == pre && acts.len() == 0,
    }
}

impl Node {
    /// The chain-mode primary's gated read; `miss` is the reply when the
    /// key is not stored.
    fn chain_read(&mut self, client: Option<NodeInfo>, key_hash: &HashType, miss: String)
        -> (actions: Vec<Action>)
        requires
            old(self).ready(),
        ensures
            final(self).ready(),
            chain_read_post(*old(self), *final(self), client, id_val(*key_hash), miss@, actions@),
    {
        let mut actions: Vec<Action> = Vec::new();
        match self.records.get(key_hash) {
            Some(exist) => {
                if exist.pending {
                    self.pendings_insert(*key_hash);
                    actions.push(Action::Wait { key: *key_hash });
                } else if (exist.replica_idx as u16) < self.get_current_k() as u16 {
                    match self.successor {
                        Some(succ) => {
                            actions.push(Action::Send {
                                dest: succ,
                                msg: Message::new(
                                    MsgType::FwQuery,
                                    client,
                                    MsgData::FwQuery { key: *key_hash, forward_tail: true },
                                ),
                            });
                        },
                        None => {},
                    }
                } else {
                    match client {
                        Some(c) => {
                            let text = crate::messages::make_found_text(
                                exist.title.as_str(),
                                exist.value.as_str(),
                            );
                            actions.push(Action::Send {
                                dest: c,
                                msg: Message::new(
                                    MsgType::Reply,
                                    None,
                                    MsgData::Reply { reply: text },
                                ),
                            });
                        },
                        None => {},
                    }
                }
            },
            None => {
                match client {
                    Some(c) => {
                        actions.push(Action::Send {
                            dest: c,
                            msg: Message::new(MsgType::Reply, None, MsgData::Reply { reply: miss }),
                        });
                    },
                    None => {},
                }
            },
        }
        actions
    }

    /// Handles a client `Query` request.
    pub fn handle_query(&mut self, client: Option<NodeInfo>, data: &MsgData) -> (actions: Vec<
        Action,
    >)
        requires
            old(self).ready(),
        ensures
            final(self).ready(),
            query_post(*old(self), *final(self), client, *data, actions@),
    {
        let mut actions: Vec<Action> = Vec::new();
        match data {
            MsgData::Query { key } => {
                let key_hash = HashFunc(key.as_str());
                match self.get_consistency() {
                    Consistency::Eventual => {
                        if self.is_replica_manager(&key_hash) >= 0 {
                            match client {
                                Some(c) => {
                                    let text = match self.records.get(&key_hash) {
                                        Some(found) => crate::messages::make_found_text(
                                            found.title.as_str(),
                                            found.value.as_str(),
                                        ),
                                        None => crate::messages::make_not_found_text(key.as_str()),
                                    };
                                    actions.push(Action::Send {
                                        dest: c,
                                        msg: Message::new(
                                            MsgType::Reply,
                                            None,
                                            MsgData::Reply { reply: text },
                                        ),
                                    });
                                },
                                None => {},
                            }
                        } else {
                            let dest = if self.maybe_next_responsible(&key_hash) {
                                self.successor.unwrap()
                            } else {
                                self.previous.unwrap()
                            };
                            actions.push(Action::Send {
                                dest,
                                msg: Message::new(
                                    MsgType::FwQuery,
                                    client,
                                    MsgData::FwQuery { key: key_hash, forward_tail: false },
                                ),
                            });
                        }
                    },
                    Consistency::Chain => {
                        if self.is_responsible(&key_hash) {
                            let miss = crate::messages::make_not_found_text(key.as_str());
                            return self.chain_read(client, &key_hash, miss);
                        } else {
                            let dest = if self.maybe_next_responsible(&key_hash) {
                                self.successor.unwrap()
                            } else {
                                self.previous.unwrap()
                            };
                            actions.push(Action::Send {
                                dest,
                                msg: Message::new(
                                    MsgType::FwQuery,
                                    client,
                                    MsgData::FwQuery { key: key_hash, forward_tail: false },
                                ),
                            });
                        }
                    },
                    Consistency::Quorum => {},
                }
            },
            _ => {},
        }
        actions
    }

    /// Handles a forwarded query.
    pub fn handle_fw_query(&mut self, client: Option<NodeInfo>, data: &MsgData) -> (actions: Vec<
        Action,
    >)
        requires
            old(self).ready(),
        ensures
            final(self).ready(),
            fw_query_post(*old(self), *final(self), client, *data, actions@),
    {
        let mut actions: Vec<Action> = Vec::new();
        match data {
            MsgData::FwQuery { key, forward_tail } => {
                match self.get_consistency() {
                    Consistency::Eventual => {
                        if self.is_replica_manager(key) >= 0 {
                            match client {
                                Some(c) => {
                                    let text = match self.records.get(key) {
                                        Some(found) => crate::messages::make_found_text(
                                            found.title.as_str(),
                                            found.value.as_str(),
                                        ),
                                        None => {
                                            let hex = key.to_hex();
                                            crate::messages::make_not_found_text(hex.as_str())
                                        },
                                    };
                                    actions.push(Action::Send {
                                        dest: c,
                                        msg: Message::new(
                                            MsgType::Reply,
                                            None,
                                            MsgData::Reply { reply: text },
                                        ),
                                    });
                                },
                                None => {},
                            }
                        } else {
                            let dest = if self.maybe_next_responsible(key) {
                                self.successor.unwrap()
                            } else {
                                self.previous.unwrap()
                            };
                            actions.push(Action::Send {
                                dest,
                                msg: Message::new(
                                    MsgType::FwQuery,
                                    client,
                                    MsgData::FwQuery { key: *key, forward_tail: false },
                                ),
                            });
                        }
                    },
                    Consistency::Chain => {
                        if *forward_tail {
                            match self.records.get(key) {
                                Some(exist) => {
                                    if (exist.replica_idx as u16) < self.get_current_k() as u16 {
                                        match self.successor {
                                            Some(succ) => {
                                                actions.push(Action::Send {
                                                    dest: succ,
                                                    msg: Message::new(
                                                        MsgType::FwQuery,
                                                        client,
                                                        MsgData::FwQuery {
                                                            key: *key,
                                                            forward_tail: true,
                                                        },
                                                    ),
                                                });
                                            },
                                            None => {},
                                        }
                                    } else if exist.replica_idx == self.get_current_k() {
                                        match client {
                                            Some(c) => {
                                                let text = crate::messages::make_found_text(
                                                    exist.title.as_str(),
                                                    exist.value.as_str(),
                                                );
                                                actions.push(Action::Send {
                                                    dest: c,
                                                    msg: Message::new(
                                                        MsgType::Reply,
                                                        None,
                                                        MsgData::Reply { reply: text },
                                                    ),
                                                });
                                            },
                                            None => {},
                                        }
                                    }
                                },
                                None => {},
                            }
                        } else {
                            if self.is_responsible(key) {
                                let hex = key.to_hex();
                                let miss = crate::messages::make_not_found_text(hex.as_str());
                                return self.chain_read(client, key, miss);
                            } else {
                                let dest = if self.maybe_next_responsible(key) {
                                    self.successor.unwrap()
                                } else {
                                    self.previous.unwrap()
                                };
                                actions.push(Action::Send {
                                    dest,
                                    msg: Message::new(
                                        MsgType::FwQuery,
                                        client,
                                        MsgData::FwQuery { key: *key, forward_tail: false },
                                    ),
                                });
                            }
                        }
                    },
                    Consistency::Quorum => {},
                }
            },
            _ => {},
        }
        actions
    }

    /// Handles a client `Delete` request.
    pub fn handle_delete(&mut self, client: Option<NodeInfo>, data: &MsgData) -> (actions: Vec<
        Action,
    >)
        requires
            old(self).ready(),
        ensures
            final(self).ready(),
            delete_post(*old(self), *final(self), client, *data, actions@),
    {
        let mut actions: Vec<Action> = Vec::new();
        match data {
            MsgData::Delete { key } => {
                let key_hash = HashFunc(key.as_str());
                match self.get_consistency() {
                    Consistency::Eventual => {
                        if self.is_replica_manager(&key_hash) >= 0 {
                            match self.records.remove(&key_hash) {
                                Some(found) => {
                                    match client {
                                        Some(c) => {
                                            let text = crate::messages::make_deleted_text(
                                                found.title.as_str(),
                                                found.value.as_str(),
                                            );
                                            actions.push(Action::Send {
                                                dest: c,
                                                msg: Message::new(
                                                    MsgType::Reply,
                                                    None,
                                                    MsgData::Reply { reply: text },
                                                ),
                                            });
                                        },
                                        None => {},
                                    }
                                    if (found.replica_idx as u16) < self.get_current_k() as u16 {
                                        match self.successor {
                                            Some(succ) => {
                                                actions.push(Action::Send {
                                                    dest: succ,
                                                    msg: Message::new(
                                                        MsgType::FwDelete,
                                                        None,
                                                        MsgData::FwDelete {
                                                            key: key_hash,
                                                            forward_back: false,
                                                        },
                                                    ),
                                                });
                                            },
                                            None => {},
                                        }
                                    }
                                    if found.replica_idx > 0 {
                                        match self.previous {
                                            Some(prev) => {
                                                actions.push(Action::Send {
                                                    dest: prev,
                                                    msg: Message::new(
                                                        MsgType::FwDelete,
                                                        None,
                                                        MsgData::FwDelete {
                                                            key: key_hash,
                                                            forward_back: true,
                                                        },
                                                    ),
                                                });
                                            },
                                            None => {},
                                        }
                                    }
                                },
                                None => {
                                    match client {
                                        Some(c) => {
                                            let text = crate::messages::make_not_found_text(
                                                key.as_str(),
                                            );
                                            actions.push(Action::Send {
                                                dest: c,
                                                msg: Message::new(
                                                    MsgType::Reply,
                                                    None,
                                                    MsgData::Reply { reply: text },
                                                ),
                                            });
                                        },
                                        None => {},
                                    }
                                },
                            }
                        } else {
                            let dest = if self.maybe_next_responsible(&key_hash) {
                                self.successor.unwrap()
                            } else {
                                self.previous.unwrap()
                            };
                            actions.push(Action::Send {
                                dest,
                                msg: Message::new(
                                    MsgType::Delete,
                                    client,
                                    MsgData::Delete { key: String::from_str(key.as_str()) },
                                ),
                            });
                        }
                    },
                    Consistency::Chain => {
                        if self.is_responsible(&key_hash) {
                            match self.records.get(&key_hash) {
                                Some(exist) => {
                                    self.records.set_pending(&key_hash, true);
                                    if (exist.replica_idx as u16) < self.get_current_k() as u16 {
                                        match self.successor {
                                            Some(succ) => {
                                                actions.push(Action::Send {
                                                    dest: succ,
                                                    msg: Message::new(
                                                        MsgType::FwDelete,
                                                        client,
                                                        MsgData::FwDelete {
                                                            key: key_hash,
                                                            forward_back: false,
                                                        },
                                                    ),
                                                });
                                            },
                                            None => {},
                                        }
                                    }
                                },
                                None => {
                                    match client {
                                        Some(c) => {
                                            let text = crate::messages::make_not_found_text(
                                                key.as_str(),
                                            );
                                            actions.push(Action::Send {
                                                dest: c,
                                                msg: Message::new(
                                                    MsgType::Reply,
                                                    None,
                                                    MsgData::Reply { reply: text },
                                                ),
                                            });
                                        },
                                        None => {},
                                    }
                                },
                            }
                        } else {
                            let dest = if self.maybe_next_responsible(&key_hash) {
                                self.successor.unwrap()
                            } else {
                                self.previous.unwrap()
                            };
                            actions.push(Action::Send {
                                dest,
                                msg: Message::new(
                                    MsgType::Delete,
                                    client,
                                    MsgData::Delete { key: String::from_str(key.as_str()) },
                                ),
                            });
                        }
                    },
                    Consistency::Quorum => {},
                }
            },
            _ => {},
        }
        actions
    }

    /// Handles a forwarded delete.
    pub fn handle_fw_delete(&mut self, client: Option<NodeInfo>, data: &MsgData) -> (actions: Vec<
        Action,
    >)
        requires
            old(self).ready(),
        ensures
            final(self).ready(),
            fw_delete_post(*old(self), *final(self), client, *data, actions@),
    {
        let mut actions: Vec<Action> = Vec::new();
        match data {
            MsgData::FwDelete { key, forward_back } => {
                match self.get_consistency() {
                    Consistency::Eventual => {
                        if self.is_replica_manager(key) >= 0 {
                            match self.records.remove(key) {
                                Some(found) => {
                                    if found.replica_idx > 0 && *forward_back {
                                        match self.previous {
                                            Some(prev) => {
                                                actions.push(Action::Send {
                                                    dest: prev,
                                                    msg: Message::new(
                                                        MsgType::FwDelete,
                                                        None,
                                                        MsgData::FwDelete {
                                                            key: *key,
                                                            forward_back: true,
                                                        },
                                                    ),
                                                });
                                            },
                                            None => {},
                                        }
                                    } else if (found.replica_idx as u16) < self.get_current_k()
                                        as u16 && !*forward_back {
                                        match self.successor {
                                            Some(succ) => {
                                                actions.push(Action::Send {
                                                    dest: succ,
                                                    msg: Message::new(
                                                        MsgType::FwDelete,
                                                        None,
                                                        MsgData::FwDelete {
                                                            key: *key,
                                                            forward_back: false,
                                                        },
                                                    ),
                                                });
                                            },
                                            None => {},
                                        }
                                    }
                                },
                                None => {},
                            }
                        }
                    },
                    Consistency::Chain => {
                        match self.records.get(key) {
                            Some(exist) => {
                                if (exist.replica_idx as u16) < self.get_current_k() as u16 {
                                    self.records.set_pending(key, true);
                                    match self.successor {
                                        Some(succ) => {
                                            actions.push(Action::Send {
                                                dest: succ,
                                                msg: Message::new(
                                                    MsgType::FwDelete,
                                                    client,
                                                    MsgData::FwDelete {
                                                        key: *key,
                                                        forward_back: false,
                                                    },
                                                ),
                                            });
                                        },
                                        None => {},
                                    }
                                } else if exist.replica_idx == self.get_current_k() {
                                    self.records.remove(key);
                                    match client {
                                        Some(c) => {
                                            let text = crate::messages::make_deleted_text(
                                                exist.title.as_str(),
                                                exist.value.as_str(),
                                            );
                                            actions.push(Action::Send {
                                                dest: c,
                                                msg: Message::new(
                                                    MsgType::Reply,
                                                    None,
                                                    MsgData::Reply { reply: text },
                                                ),
                                            });
                                        },
                                        None => {},
                                    }
                                    if exist.replica_idx > 0 {
                                        match self.previous {
                                            Some(prev) => {
                                                actions.push(Action::Send {
                                                    dest: prev,
                                                    msg: Message::new(
                                                        MsgType::AckDelete,
                                                        None,
                                                        MsgData::AckDelete { key: *key },
                                                    ),
                                                });
                                            },
                                            None => {},
                                        }
                                    }
                                } else {
                                    self.records.set_pending(key, true);
                                }
                            },
                            None => {},
                        }
                    },
                    Consistency::Quorum => {},
                }
            },
            _ => {},
        }
        actions
    }
}

/// What `join_ring` does with a `Join` request: a peer forwards its own
/// descriptor to the bootstrap; the bootstrap itself merely goes online
/// and confirms.
pub open spec fn join_ring_post(
    pre: Node,
    post: Node,
    client: Option<NodeInfo>,
    acts: Seq<Action>,
) -> bool {
    match pre.bootstrap {
        Some(boot) => {
            &&& post == pre
            &&& acts.len() == 1
            &&& sends_to(acts[0], boot, MsgType::FwJoin, client)
            &&& (action_data(acts[0]) matches MsgData::FwJoin { new_node } && new_node == pre.info)
        },
        None => {
            &&& same_but_status(post, pre)
            &&& post.status
            &&& match client {
                Some(c) => acts.len() == 1 && is_reply_to(acts[0], c, boot_joined_text()),
                None => acts.len() == 0,
            }
        },
    }
}

/// The ring interval `(lower, upper]`, as a mathematical value.
pub open spec fn interval(lower: int, upper: int) -> RangeV {
    RangeV { lower, upper, lc: false, uc: true }
}

/// What `handle_join` does at the node responsible for the newcomer: the
/// state changes and the acknowledgment, neighbor update and relocation
/// ripple it sends.
pub open spec fn join_accept_post(
    pre: Node,
    post: Node,
    client: Option<NodeInfo>,
    new_node: NodeInfo,
    acts: Seq<Action>,
) -> bool {
    let prev = pre.previous->0;
    let succ = pre.successor->0;
    let factor = pre.replication.replication_factor as int;
    let nrv = interval(id_val(prev.id), id_val(new_node.id));
    let npr = interval(id_val(new_node.id), pre.self_id());
    let overflow = pre.replication.replica_ranges@.len() == factor;
    let wrap = !overflow;
    let new_ranges = if overflow {
        (pre.replication.replica_ranges@ + seq![nrv]).drop_first()
    } else {
        pre.replication.replica_ranges@ + seq![nrv]
    };
    let k_cur: int = if new_ranges.len() < factor {
        new_ranges.len() as int
    } else {
        factor
    };
    let has_update = id_val(prev.id) != pre.self_id();
    let has_reloc = k_cur > 1 && id_val(succ.id) != pre.self_id();
    let ir: int = if has_update {
        2
    } else {
        1
    };
    &&& post.previous == Some(new_node)
    &&& post.successor == (if !has_update {
        Some(new_node)
    } else {
        pre.successor
    })
    &&& post.replication.replication_factor == pre.replication.replication_factor
    &&& post.replication.replication_mode == pre.replication.replication_mode
    &&& post.replication.replica_ranges@ =~= new_ranges
    &&& post.records@ =~= shift_up_entries(pre.records@, k_cur, Some(npr))
    &&& post.pendings == pre.pendings
    &&& post.status == pre.status
    &&& post.info == pre.info
    &&& post.bootstrap == pre.bootstrap
    &&& acts.len() == ir + (if has_reloc {
        1int
    } else {
        0
    })
    &&& sends_to(acts[0], new_node, MsgType::AckJoin, client)
    &&& (action_data(acts[0]) matches MsgData::AckJoin {
        prev_info,
        succ_info,
        new_items,
        replica_config,
    } && prev_info == pre.previous && succ_info == Some(pre.info) && view_items(new_items@)
        =~= join_transfer_items(pre.records@, npr, wrap)
        && replica_config.replication_factor == pre.replication.replication_factor
        && replica_config.replication_mode == pre.replication.replication_mode
        && replica_config.replica_ranges@ =~= (if wrap {
        pre.replication.replica_ranges@ + seq![npr]
    } else {
        pre.replication.replica_ranges@
    }))
    &&& has_update ==> sends_to(acts[1], prev, MsgType::Update, None) && (action_data(acts[1])
        matches MsgData::Update { prev_info, succ_info } && prev_info is None && succ_info == Some(
        new_node,
    ))
    &&& has_reloc ==> sends_to(acts[ir], succ, MsgType::Relocate, None) && (action_data(acts[ir])
        matches MsgData::Relocate { k_remaining, inc, new_copies, range } && k_remaining == k_cur
        - 2 && inc && new_copies is None && (range matches Some(rg) && rg@ == nrv))
}

/// What `handle_join` does: answer a rejoin of a known identifier, serve
/// the join when this node is responsible for the newcomer's identifier,
/// and otherwise pass the request along the ring.
pub open spec fn join_post(
    pre: Node,
    post: Node,
    client: Option<NodeInfo>,
    data: MsgData,
    acts: Seq<Action>,
) -> bool {
    match data {
        MsgData::FwJoin { new_node } => {
            let id = id_val(new_node.id);
            if id == pre.self_id() {
                &&& post == pre
                &&& match client {
                    Some(c) => acts.len() == 1 && is_reply_to(
                        acts[0],
                        c,
                        already_joined_text(new_node@.id),
                    ),
                    None => acts.len() == 0,
                }
            } else if pre.previous is None || pre.successor is None {
                post == pre && acts.len() == 0
            } else if pre.spec_responsible(id) {
                if pre.replication.replica_ranges@.len() == 255
                    && pre.replication.replication_factor != 255 {
                    post == pre && acts.len() == 0
                } else {
                    join_accept_post(pre, post, client, new_node, acts)
                }
            } else {
                &&& post == pre
                &&& acts.len() == 1
                &&& sends_to(acts[0], pre.successor->0, MsgType::FwJoin, client)
                &&& (action_data(acts[0]) matches MsgData::FwJoin { new_node: n2 } && n2
                    == new_node)
            }
        },
        _ => post == pre && acts.len() == 0,
    }
}

impl Node {
    /// Starts this node's own join: a peer sends `FwJoin` to the
    /// bootstrap; the bootstrap goes online and confirms to the client.
    pub fn join_ring(&mut self, client: Option<NodeInfo>) -> (actions: Vec<Action>)
        requires
            old(self).ready(),
        ensures
            final(self).ready(),
            join_ring_post(*old(self), *final(self), client, actions@),
    {
        let mut actions: Vec<Action> = Vec::new();
        match self.bootstrap {
            Some(boot) => {
                actions.push(Action::Send {
                    dest: boot,
                    msg: Message::new(
                        MsgType::FwJoin,
                        client,
                        MsgData::FwJoin { new_node: self.info },
                    ),
                });
            },
            None => {
                self.status = true;
                match client {
                    Some(c) => {
                        let text = String::from_str("Bootstrap node joined the ring successfully!");
                        proof {
                            assert(text@ == boot_joined_text());
                        }
                        actions.push(Action::Send {
                            dest: c,
                            msg: Message::new(MsgType::Reply, None, MsgData::Reply { reply: text }),
                        });
                    },
                    None => {},
                }
            },
        }
        actions
    }

    /// Serves a forwarded join request; see [`join_post`].
    pub fn handle_join(&mut self, client: Option<NodeInfo>, data: &MsgData) -> (actions: Vec<
        Action,
    >)
        requires
            old(self).ready(),
        ensures
            final(self).ready(),
            join_post(*old(self), *final(self), client, *data, actions@),
    {
        let mut actions: Vec<Action> = Vec::new();
        match data {
            MsgData::FwJoin { new_node } => {
                let id = new_node.id;
                if id.equals(&self.info.id) {
                    match client {
                        Some(c) => {
                            let text = crate::messages::make_already_joined_text(&new_node.id);
                            actions.push(Action::Send {
                                dest: c,
                                msg: Message::new(
                                    MsgType::Reply,
                                    None,
                                    MsgData::Reply { reply: text },
                                ),
                            });
                        },
                        None => {},
                    }
                    return actions;
                }
                let prev = match self.previous {
                    Some(p) => p,
                    None => {
                        return actions;
                    },
                };
                let succ = match self.successor {
                    Some(s) => s,
                    None => {
                        return actions;
                    },
                };
                let max_k = self.max_replication();
                if self.is_responsible(&id) {
                    if self.replication.replica_ranges.get_size() == 255 && max_k != 255 {
                        return actions;
                    }
                    // the newcomer takes over `(previous, new]`; this node
                    // keeps `(new, self]`
                    let new_range = Range::new(prev.id, id, false, true);
                    let npr = Range::new(id, self.info.id, false, true);
                    let mut transferred_ranges = self.replication.replica_ranges.duplicate();
                    let mut wrap = false;
                    self.replication.replica_ranges.insert(new_range);
                    if self.replication.replica_ranges.get_size() == (max_k as usize) + 1 {
                        self.replication.replica_ranges.pop_head();
                    } else {
                        wrap = true;
                        transferred_ranges.insert(npr);
                    }
                    let replica_config = ReplicationConfig {
                        replication_factor: max_k,
                        replication_mode: self.replication.replication_mode,
                        replica_ranges: transferred_ranges,
                    };
                    self.previous = Some(*new_node);
                    let vec_items = self.records.collect_for_join(&npr, wrap);
                    actions.push(Action::Send {
                        dest: *new_node,
                        msg: Message::new(
                            MsgType::AckJoin,
                            client,
                            MsgData::AckJoin {
                                prev_info: Some(prev),
                                succ_info: Some(self.info),
                                new_items: vec_items,
                                replica_config,
                            },
                        ),
                    });
                    if !prev.id.equals(&self.info.id) {
                        actions.push(Action::Send {
                            dest: prev,
                            msg: Message::new(
                                MsgType::Update,
                                None,
                                MsgData::Update { prev_info: None, succ_info: Some(*new_node) },
                            ),
                        });
                    } else {
                        self.successor = Some(*new_node);
                    }
                    let k = self.get_current_k();
                    self.records.shift_up(k, Some(&npr));
                    if k > 1 && !succ.id.equals(&self.info.id) {
                        actions.push(Action::Send {
                            dest: succ,
                            msg: Message::new(
                                MsgType::Relocate,
                                None,
                                MsgData::Relocate {
                                    k_remaining: k - 2,
                                    inc: true,
                                    new_copies: None,
                                    range: Some(new_range),
                                },
                            ),
                        });
                    }
                } else {
                    actions.push(Action::Send {
                        dest: succ,
                        msg: Message::new(
                            MsgType::FwJoin,
                            client,
                            MsgData::FwJoin { new_node: *new_node },
                        ),
                    });
                }
            },
            _ => {},
        }
        actions
    }
}

/// The store after merging in a list of items, each under the hash of its
/// title, in list order.
pub open spec fn store_merge_all(s: Seq<EntryV>, items: Seq<ItemV>) -> Seq<EntryV>
    decreases items.len(),
{
    if items.len() == 0 {
        s
    } else {
        store_merge_all(
            store_merge(s, be_val(sha1_of(items.first().title)), items.first()),
            items.drop_first(),
        )
    }
}

/// The store after adding those of `items` whose key it does not hold yet,
/// in list order.
pub open spec fn store_add_missing(s: Seq<EntryV>, items: Seq<ItemV>) -> Seq<EntryV>
    decreases items.len(),
{
    if items.len() == 0 {
        s
    } else {
        let key = be_val(sha1_of(items.first().title));
        let s2 = if store_find(s, key) is Some {
            s
        } else {
            store_merge(s, key, items.first())
        };
        store_add_missing(s2, items.drop_first())
    }
}

/// What `handle_ack_join` does: install the neighbors and replication
/// configuration the acknowledgment carries, store the transferred items,
/// go online, and confirm to the client. An acknowledgment without both
/// neighbors is malformed and ignored.
pub open spec fn ack_join_post(
    pre: Node,
    post: Node,
    client: Option<NodeInfo>,
    data: MsgData,
    acts: Seq<Action>,
) -> bool {
    match data {
        MsgData::AckJoin { prev_info, succ_info, new_items, replica_config } => {
            if prev_info is Some && succ_info is Some {
                &&& post.previous == prev_info
                &&& post.successor == succ_info
                &&& post.records@ =~= store_merge_all(pre.records@, view_items(new_items@))
                &&& post.replication.replication_factor == replica_config.replication_factor
                &&& post.replication.replication_mode == replica_config.replication_mode
                &&& (pre.replication.replica_ranges@.len() + replica_config.replica_ranges@.len()
                    <= 255 ==> post.replication.replica_ranges@ =~= pre.replication.replica_ranges@
                    + replica_config.replica_ranges@)
                &&& post.status
                &&& post.pendings == pre.pendings
                &&& post.info == pre.info
                &&& post.bootstrap == pre.bootstrap
                &&& match client {
                    Some(c) => acts.len() == 1 && is_reply_to(
                        acts[0],
                        c,
                        node_joined_text(pre.info@.id),
                    ),
                    None => acts.len() == 0,
                }
            } else {
                post == pre && acts.len() == 0
            }
        },
        _ => post == pre && acts.len() == 0,
    }
}

/// What `handle_quit` does: the bootstrap departs only when alone; a peer
/// hands its neighbors to each other, ships its tail replicas to the
/// successor, clears its state, and goes offline.
pub open spec fn quit_post(
    pre: Node,
    post: Node,
    client: Option<NodeInfo>,
    acts: Seq<Action>,
) -> bool {
    if pre.bootstrap is None {
        let alone = pre.previous is None || pre.successor is None || id_val(pre.previous->0.id)
            == pre.self_id() || id_val(pre.successor->0.id) == pre.self_id();
        &&& same_but_status(post, pre)
        &&& post.status == (if alone {
            false
        } else {
            pre.status
        })
        &&& match client {
            Some(c) => acts.len() == 1 && is_reply_to(
                acts[0],
                c,
                if alone {
                    boot_left_text()
                } else {
                    boot_refuse_text()
                },
            ),
            None => acts.len() == 0,
        }
    } else {
        let k_cur = pre.spec_current_k();
        let has_up_prev = pre.previous matches Some(p) && id_val(p.id) != pre.self_id();
        let succ_present = pre.successor is Some;
        let self_succ = succ_present && id_val(pre.successor->0.id) == pre.self_id();
        let has_up_succ = succ_present && !self_succ;
        let has_reloc = succ_present && !self_succ && k_cur >= 1
            && pre.replication.replica_ranges@.len() >= 1;
        let iu: int = if has_up_prev {
            1
        } else {
            0
        };
        let ir: int = iu + (if has_up_succ {
            1int
        } else {
            0
        });
        let irep: int = ir + (if has_reloc {
            1int
        } else {
            0
        });
        &&& post.records@ =~= Seq::<EntryV>::empty()
        &&& post.replication.replica_ranges@ =~= Seq::<RangeV>::empty()
        &&& post.replication.replication_factor == pre.replication.replication_factor
        &&& post.replication.replication_mode == pre.replication.replication_mode
        &&& !post.status
        &&& post.previous == pre.previous
        &&& post.successor == pre.successor
        &&& post.pendings == pre.pendings
        &&& post.info == pre.info
        &&& post.bootstrap == pre.bootstrap
        &&& acts.len() == irep + (if client is Some {
            1int
        } else {
            0
        })
        &&& has_up_prev ==> sends_to(acts[0], pre.previous->0, MsgType::Update, None) && (
        action_data(acts[0]) matches MsgData::Update { prev_info, succ_info } && prev_info is None
            && succ_info == pre.successor)
        &&& has_up_succ ==> sends_to(acts[iu], pre.successor->0, MsgType::Update, None) && (
        action_data(acts[iu]) matches MsgData::Update { prev_info, succ_info } && prev_info
            == pre.previous && succ_info is None)
        &&& has_reloc ==> sends_to(acts[ir], pre.successor->0, MsgType::Relocate, None) && (
        action_data(acts[ir]) matches MsgData::Relocate { k_remaining, inc, new_copies, range }
            && k_remaining == k_cur - 1 && !inc && (new_copies matches Some(cp) && view_items(cp@)
            =~= items_at_idx(pre.records@, k_cur)) && (range matches Some(rg) && rg@ == (
        if pre.replication.replica_ranges@.len() == 1 {
            RangeV {
                upper: id_val(pre.successor->0.id),
                ..pre.replication.replica_ranges@[0]
            }
        } else {
            pre.replication.replica_ranges@[0]
        })))
        &&& client matches Some(c) ==> is_reply_to(acts[irep], c, node_left_text(pre.info@.id))
    }
}

impl Node {
    /// Installs the join acknowledgment at the freshly joined node.
    pub fn handle_ack_join(&mut self, client: Option<NodeInfo>, data: &MsgData) -> (actions: Vec<
        Action,
    >)
        requires
            old(self).ready(),
        ensures
            final(self).ready(),
            ack_join_post(*old(self), *final(self), client, *data, actions@),
    {
        let mut actions: Vec<Action> = Vec::new();
        match data {
            MsgData::AckJoin { prev_info, succ_info, new_items, replica_config } => {
                if prev_info.is_none() || succ_info.is_none() {
                    return actions;
                }
                self.previous = *prev_info;
                self.successor = *succ_info;
                let n = new_items.len();
                let ghost itemsv = view_items(new_items@);
                proof {
                    assert(itemsv.skip(0) =~= itemsv);
                }
                let mut i: usize = 0;
                while i < n
                    invariant
                        0 <= i <= n,
                        n == new_items@.len(),
                        itemsv == view_items(new_items@),
                        self.records.wf(),
                        store_merge_all(self.records@, itemsv.skip(i as int)) =~= store_merge_all(
                            old(self).records@,
                            itemsv,
                        ),
                        self.previous == *prev_info,
                        self.successor == *succ_info,
                        self.replication == old(self).replication,
                        self.pendings == old(self).pendings,
                        self.status == old(self).status,
                        self.info == old(self).info,
                        self.bootstrap == old(self).bootstrap,
                    decreases n - i,
                {
                    proof {
                        assert(itemsv.skip(i as int).first() == new_items@[i as int]@);
                        assert(itemsv.skip(i as int).drop_first() =~= itemsv.skip(i + 1));
                    }
                    let item = &new_items[i];
                    let new_key = HashFunc(item.title.as_str());
                    self.records.insert_or_merge(new_key, item);
                    i += 1;
                }
                proof {
                    assert(itemsv.skip(n as int) =~= Seq::<ItemV>::empty());
                }
                self.replication.replication_factor = replica_config.replication_factor;
                self.replication.replication_mode = replica_config.replication_mode;
                let m = replica_config.replica_ranges.get_size();
                let mut j: usize = 0;
                while j < m
                    invariant
                        0 <= j <= m,
                        m == replica_config.replica_ranges@.len(),
                        self.replication.replica_ranges@.len() <= 255,
                        old(self).replication.replica_ranges@.len() + m <= 255
                            ==> self.replication.replica_ranges@ =~= old(
                            self,
                        ).replication.replica_ranges@ + replica_config.replica_ranges@.take(
                            j as int,
                        ),
                        self.records.wf(),
                        self.records@ =~= store_merge_all(old(self).records@, itemsv),
                        itemsv == view_items(new_items@),
                        self.previous == *prev_info,
                        self.successor == *succ_info,
                        self.replication.replication_factor == replica_config.replication_factor,
                        self.replication.replication_mode == replica_config.replication_mode,
                        pendings_distinct(self.pendings@),
                        self.pendings == old(self).pendings,
                        self.status == old(self).status,
                        self.info == old(self).info,
                        self.bootstrap == old(self).bootstrap,
                    decreases m - j,
                {
                    if self.replication.replica_ranges.get_size() < 255 {
                        let rg = replica_config.replica_ranges.replication_vector[j];
                        proof {
                            assert(rg@ == replica_config.replica_ranges@[j as int]);
                            assert(replica_config.replica_ranges@.take(j + 1) =~= replica_config
                                .replica_ranges@.take(j as int) + seq![rg@]);
                        }
                        self.replication.replica_ranges.insert(rg);
                    }
                    j += 1;
                }
                proof {
                    assert(replica_config.replica_ranges@.take(m as int) =~= replica_config
                        .replica_ranges@);
                }
                self.status = true;
                match client {
                    Some(c) => {
                        let text = crate::messages::make_node_joined_text(&self.info.id);
                        actions.push(Action::Send {
                            dest: c,
                            msg: Message::new(MsgType::Reply, None, MsgData::Reply { reply: text }),
                        });
                    },
                    None => {},
                }
            },
            _ => {},
        }
        actions
    }

    /// Serves a depart request at this node.
    pub fn handle_quit(&mut self, client: Option<NodeInfo>) -> (actions: Vec<Action>)
        requires
            old(self).ready(),
        ensures
            final(self).ready(),
            quit_post(*old(self), *final(self), client, actions@),
    {
        let mut actions: Vec<Action> = Vec::new();
        let prev = self.previous;
        let succ = self.successor;
        if self.bootstrap.is_none() {
            let alone = match (prev, succ) {
                (Some(p), Some(s)) => p.id.equals(&self.info.id) || s.id.equals(&self.info.id),
                _ => true,
            };
            if alone {
                self.status = false;
            }
            match client {
                Some(c) => {
                    let text = if alone {
                        String::from_str("Bootstrap node has left the network")
                    } else {
                        String::from_str(
                            "Bootstrap node cannot leave the network, depart the other nodes first",
                        )
                    };
                    proof {
                        if alone {
                            assert(text@ == boot_left_text());
                        } else {
                            assert(text@ == boot_refuse_text());
                        }
                    }
                    actions.push(Action::Send {
                        dest: c,
                        msg: Message::new(MsgType::Reply, None, MsgData::Reply { reply: text }),
                    });
                },
                None => {},
            }
            return actions;
        }
        match prev {
            Some(prev_node) => {
                if !prev_node.id.equals(&self.info.id) {
                    actions.push(Action::Send {
                        dest: prev_node,
                        msg: Message::new(
                            MsgType::Update,
                            None,
                            MsgData::Update { prev_info: None, succ_info: succ },
                        ),
                    });
                }
            },
            None => {},
        }
        match succ {
            Some(succ_node) => {
                if !succ_node.id.equals(&self.info.id) {
                    actions.push(Action::Send {
                        dest: succ_node,
                        msg: Message::new(
                            MsgType::Update,
                            None,
                            MsgData::Update { prev_info: prev, succ_info: None },
                        ),
                    });
                    let k = self.get_current_k();
                    if k >= 1 && self.replication.replica_ranges.get_size() >= 1 {
                        let last_replicas = self.records.collect_at(k);
                        let mut range = self.replication.replica_ranges.get_head();
                        if self.replication.replica_ranges.get_size() == 1 {
                            range.set_upper(succ_node.id);
                        }
                        actions.push(Action::Send {
                            dest: succ_node,
                            msg: Message::new(
                                MsgType::Relocate,
                                None,
                                MsgData::Relocate {
                                    k_remaining: k - 1,
                                    inc: false,
                                    new_copies: Some(last_replicas),
                                    range: Some(range),
                                },
                            ),
                        });
                    }
                }
            },
            None => {},
        }
        self.records.clear();
        self.replication.replica_ranges.clear();
        self.status = false;
        match client {
            Some(c) => {
                let text = crate::messages::make_node_left_text(&self.info.id);
                actions.push(Action::Send {
                    dest: c,
                    msg: Message::new(MsgType::Reply, None, MsgData::Reply { reply: text }),
                });
            },
            None => {},
        }
        actions
    }
}

/// The intervals after splitting position `i` at `pv`: the left half keeps
/// the lower flag and closes at `pv`, the right opens after `pv`.
pub open spec fn split_at_seq(s: Seq<RangeV>, i: int, pv: int) -> Seq<RangeV> {
    s.take(i) + seq![
        RangeV { lower: s[i].lower, upper: pv, lc: s[i].lc, uc: true },
        RangeV { lower: pv, upper: s[i].upper, lc: false, uc: s[i].uc },
    ] + s.skip(i + 1)
}

/// The intervals after fusing positions `idx - 1` and `idx`; at the head
/// only the head drops, and past the tail nothing changes.
pub open spec fn merge_at_seq(s: Seq<RangeV>, idx: int) -> Seq<RangeV> {
    if idx == 0 {
        if s.len() > 0 {
            s.drop_first()
        } else {
            s
        }
    } else if idx >= s.len() {
        s
    } else {
        s.take(idx - 1) + seq![
            RangeV { lower: s[idx - 1].lower, upper: s[idx].upper, lc: s[idx - 1].lc, uc: s[idx].uc },
        ] + s.skip(idx + 1)
    }
}

/// What `handle_relocate` does. On a join ripple (`inc`) the node shifts
/// its replica indices up, splits its coverage at the newcomer's
/// identifier, and passes the ripple on while hops remain. On a depart
/// ripple it ships its tail copies onward, shifts indices down, takes over
/// the departed interval, and adopts the copies it was handed.
pub open spec fn relocate_post(pre: Node, post: Node, data: MsgData, acts: Seq<Action>) -> bool {
    match data {
        MsgData::Relocate { k_remaining, inc, new_copies, range } => {
            let k_cur = pre.spec_current_k();
            let max_k = pre.replication.replication_factor as int;
            let rs = pre.replication.replica_ranges@;
            if inc {
                &&& post.records@ =~= shift_up_entries(pre.records@, k_cur, None)
                &&& match range {
                    Some(rg) => {
                        let pv = rg@.upper;
                        if exists|i: int| 0 <= i < rs.len() && range_has(#[trigger] rs[i], pv) {
                            exists|i: int| {
                                &&& 0 <= i < rs.len()
                                &&& range_has(#[trigger] rs[i], pv)
                                &&& forall|j: int| 0 <= j < i ==> !range_has(#[trigger] rs[j], pv)
                                &&& post.replication.replica_ranges@ =~= (if split_at_seq(
                                    rs,
                                    i,
                                    pv,
                                ).len() > max_k {
                                    split_at_seq(rs, i, pv).drop_first()
                                } else {
                                    split_at_seq(rs, i, pv)
                                })
                            }
                        } else {
                            post.replication.replica_ranges@ =~= rs
                        }
                    },
                    None => post.replication.replica_ranges@ =~= rs,
                }
                &&& relocate_frame(pre, post)
                &&& if k_remaining > 0 && pre.successor is Some {
                    &&& acts.len() == 1
                    &&& sends_to(acts[0], pre.successor->0, MsgType::Relocate, None)
                    &&& (action_data(acts[0]) matches MsgData::Relocate {
                        k_remaining: kr2,
                        inc: inc2,
                        new_copies: nc2,
                        range: rg2,
                    } && kr2 == k_remaining - 1 && inc2 && nc2 is None && rg2 == range)
                } else {
                    acts.len() == 0
                }
            } else {
                let shifted = pre.records@.map_values(
                    |e: EntryV| EntryV { key: e.key, item: shift_down_item(e.item) },
                );
                let cpv = match new_copies {
                    Some(cp) => view_items(cp@),
                    None => Seq::empty(),
                };
                let merged = match range {
                    Some(rg) => merge_at_seq(rs, k_remaining as int),
                    None => rs,
                };
                let has_fw = k_remaining > 0 && pre.successor is Some && rs.len() >= 1;
                &&& post.records@ =~= store_add_missing(shifted, cpv)
                &&& match range {
                    Some(rg) => post.replication.replica_ranges@ =~= (if merged.len() < 255 {
                        seq![rg@] + merged
                    } else {
                        merged
                    }),
                    None => post.replication.replica_ranges@ =~= rs,
                }
                &&& relocate_frame(pre, post)
                &&& if has_fw {
                    &&& acts.len() == 1
                    &&& sends_to(acts[0], pre.successor->0, MsgType::Relocate, None)
                    &&& (action_data(acts[0]) matches MsgData::Relocate {
                        k_remaining: kr2,
                        inc: inc2,
                        new_copies: nc2,
                        range: rg2,
                    } && kr2 == k_remaining - 1 && !inc2 && (nc2 matches Some(cp2) && view_items(
                        cp2@,
                    ) =~= items_at_idx(pre.records@, k_cur)) && (rg2 matches Some(r2) && r2@ == (
                    if rs.len() == 1 {
                        RangeV { upper: id_val(pre.successor->0.id), ..rs[0] }
                    } else {
                        rs[0]
                    })))
                } else {
                    acts.len() == 0
                }
            }
        },
        _ => post == pre && acts.len() == 0,
    }
}

/// The fields a relocation never touches.
pub open spec fn relocate_frame(pre: Node, post: Node) -> bool {
    &&& post.replication.replication_factor == pre.replication.replication_factor
    &&& post.replication.replication_mode == pre.replication.replication_mode
    &&& post.previous == pre.previous
    &&& post.successor == pre.successor
    &&& post.pendings == pre.pendings
    &&& post.status == pre.status
    &&& post.info == pre.info
    &&& post.bootstrap == pre.bootstrap
}

impl Node {
    /// Applies a relocation ripple; see [`relocate_post`].
    pub fn handle_relocate(&mut self, data: &MsgData) -> (actions: Vec<Action>)
        requires
            old(self).ready(),
        ensures
            final(self).ready(),
            relocate_post(*old(self), *final(self), *data, actions@),
    {
        let mut actions: Vec<Action> = Vec::new();
        match data {
            MsgData::Relocate { k_remaining, inc, new_copies, range } => {
                let k = self.get_current_k();
                let max_k = self.max_replication();
                if *inc {
                    self.records.shift_up(k, None);
                    match range {
                        Some(split) => {
                            let pivot = split.get_bounds().1;
                            if self.replication.replica_ranges.is_subset(pivot) != -1 {
                                self.replication.replica_ranges.split_range(pivot);
                                if self.replication.replica_ranges.get_size() > max_k as usize {
                                    self.replication.replica_ranges.pop_head();
                                }
                            }
                        },
                        None => {},
                    }
                    if *k_remaining > 0 {
                        match self.successor {
                            Some(succ) => {
                                actions.push(Action::Send {
                                    dest: succ,
                                    msg: Message::new(
                                        MsgType::Relocate,
                                        None,
                                        MsgData::Relocate {
                                            k_remaining: *k_remaining - 1,
                                            inc: true,
                                            new_copies: None,
                                            range: *range,
                                        },
                                    ),
                                });
                            },
                            None => {},
                        }
                    }
                } else {
                    let to_transfer = self.records.collect_at(k);
                    self.records.shift_down();
                    let fw_range: Option<Range> =
                        if self.replication.replica_ranges.get_size() >= 1 {
                            let mut r0 = self.replication.replica_ranges.get_head();
                            if self.replication.replica_ranges.get_size() == 1 {
                                match self.successor {
                                    Some(succ) => r0.set_upper(succ.id),
                                    None => {},
                                }
                            }
                            Some(r0)
                        } else {
                            None
                        };
                    match range {
                        Some(rg) => {
                            self.replication.replica_ranges.merge_at(*k_remaining as usize);
                            if self.replication.replica_ranges.get_size() < 255 {
                                self.replication.replica_ranges.insert_head(*rg);
                            }
                        },
                        None => {},
                    }
                    match new_copies {
                        Some(copies) => {
                            let ghost shifted = self.records@;
                            let ghost pre_loop = *self;
                            let ghost cpv = view_items(copies@);
                            proof {
                                assert(cpv.skip(0) =~= cpv);
                            }
                            let nc = copies.len();
                            let mut i: usize = 0;
                            while i < nc
                                invariant
                                    0 <= i <= nc,
                                    nc == copies@.len(),
                                    cpv == view_items(copies@),
                                    self.records.wf(),
                                    store_add_missing(self.records@, cpv.skip(i as int))
                                        =~= store_add_missing(shifted, cpv),
                                    same_but_records(*self, pre_loop),
                                decreases nc - i,
                            {
                                proof {
                                    assert(cpv.skip(i as int).first() == copies@[i as int]@);
                                    assert(cpv.skip(i as int).drop_first() =~= cpv.skip(i + 1));
                                }
                                let copy = &copies[i];
                                let key_copy = HashFunc(copy.title.as_str());
                                match self.records.get(&key_copy) {
                                    Some(_) => {},
                                    None => {
                                        self.records.insert_or_merge(key_copy, copy);
                                    },
                                }
                                i += 1;
                            }
                            proof {
                                assert(cpv.skip(nc as int) =~= Seq::<ItemV>::empty());
                            }
                        },
                        None => {},
                    }
                    if *k_remaining > 0 {
                        match (self.successor, fw_range) {
                            (Some(succ), Some(r0)) => {
                                actions.push(Action::Send {
                                    dest: succ,
                                    msg: Message::new(
                                        MsgType::Relocate,
                                        None,
                                        MsgData::Relocate {
                                            k_remaining: *k_remaining - 1,
                                            inc: false,
                                            new_copies: Some(to_transfer),
                                            range: Some(r0),
                                        },
                                    ),
                                });
                            },
                            _ => {},
                        }
                    }
                }
            },
            _ => {},
        }
        actions
    }
}

/// What `handle_message` does: an offline node turns every request but a
/// join or a join acknowledgment away with an offline reply; an online
/// node hands the message to the handler its tag names, whose contract
/// then applies.
pub open spec fn dispatch_post(pre: Node, post: Node, msg: Message, acts: Seq<Action>) -> bool {
    let client = msg.client;
    if msg.msg_type != MsgType::Join && msg.msg_type != MsgType::AckJoin && !pre.status {
        &&& post == pre
        &&& match client {
            Some(c) => acts.len() == 1 && is_reply_to(acts[0], c, offline_text(pre.info@.id)),
            None => acts.len() == 0,
        }
    } else {
        match msg.msg_type {
            MsgType::Join => join_ring_post(pre, post, client, acts),
            MsgType::FwJoin => join_post(pre, post, client, msg.data, acts),
            MsgType::AckJoin => ack_join_post(pre, post, client, msg.data, acts),
            MsgType::Update => update_post(pre, post, msg.data, acts),
            MsgType::Quit => quit_post(pre, post, client, acts),
            MsgType::Insert => insert_post(pre, post, client, msg.data, acts),
            MsgType::FwInsert => fw_insert_post(pre, post, client, msg.data, acts),
            MsgType::AckInsert => ack_insert_post(pre, post, msg.data, acts),
            MsgType::Delete => delete_post(pre, post, client, msg.data, acts),
            MsgType::FwDelete => fw_delete_post(pre, post, client, msg.data, acts),
            MsgType::AckDelete => ack_delete_post(pre, post, msg.data, acts),
            MsgType::Query => query_post(pre, post, client, msg.data, acts),
            MsgType::FwQuery => fw_query_post(pre, post, client, msg.data, acts),
            MsgType::QueryAll => query_all_post(pre, post, client, msg.data, acts),
            MsgType::FwQueryAll => fw_query_all_post(pre, post, client, msg.data, acts),
            MsgType::Overlay => overlay_post(pre, post, client, msg.data, acts),
            MsgType::FwOverlay => fw_overlay_post(pre, post, client, msg.data, acts),
            MsgType::Relocate => relocate_post(pre, post, msg.data, acts),
            MsgType::Reply => post == pre && acts.len() == 0,
        }
    }
}

impl Node {
    /// Decides [`Node::ready`] at run time, for callers outside the
    /// verifier's reach.
    pub fn check_ready(&self) -> (r: bool)
        ensures
            r == self.ready(),
    {
        let n = self.records.len();
        let mut i: usize = 1;
        while i < n
            invariant
                1 <= i <= n || (n == 0 && i == 1),
                n == self.records@.len(),
                forall|a: int, b: int| 0 <= a < b < i ==> self.records@[a].key
                    < self.records@[b].key,
            decreases n - i,
        {
            let lo = self.records.key_at(i - 1);
            let hi = self.records.key_at(i);
            if !lo.less_than(&hi) {
                proof {
                    assert(!(self.records@[i - 1].key < self.records@[i as int].key));
                }
                return false;
            }
            i += 1;
        }
        let m = self.pendings.len();
        let mut a: usize = 0;
        while a < m
            invariant
                0 <= a <= m,
                m == self.pendings@.len(),
                forall|x: int, y: int| 0 <= x < y < m && x < a ==> id_val(self.pendings@[x])
                    != id_val(self.pendings@[y]),
            decreases m - a,
        {
            let mut b: usize = a + 1;
            while b < m
                invariant
                    a < b <= m,
                    a < m,
                    m == self.pendings@.len(),
                    forall|y: int| a < y < b ==> id_val(self.pendings@[a as int]) != id_val(
                        self.pendings@[y],
                    ),
                decreases m - b,
            {
                if self.pendings[a].equals(&self.pendings[b]) {
                    return false;
                }
                b += 1;
            }
            a += 1;
        }
        if self.replication.replica_ranges.get_size() > 255 {
            return false;
        }
        if self.status && (self.previous.is_none() || self.successor.is_none()) {
            return false;
        }
        if self.bootstrap.is_none() && (self.previous.is_none() || self.successor.is_none()) {
            return false;
        }
        true
    }

    /// Serves one inbound message: the offline guard, then the handler the
    /// message's tag names.
    pub fn handle_message(&mut self, msg: &Message) -> (actions: Vec<Action>)
        requires
            old(self).ready(),
        ensures
            final(self).ready(),
            dispatch_post(*old(self), *final(self), *msg, actions@),
    {
        let client = msg.client;
        match msg.msg_type {
            MsgType::Join | MsgType::AckJoin => {},
            _ => {
                if !self.status {
                    let mut actions: Vec<Action> = Vec::new();
                    match client {
                        Some(c) => {
                            let text = crate::messages::make_offline_text(&self.info.id);
                            actions.push(Action::Send {
                                dest: c,
                                msg: Message::new(
                                    MsgType::Reply,
                                    None,
                                    MsgData::Reply { reply: text },
                                ),
                            });
                        },
                        None => {},
                    }
                    return actions;
                }
            },
        }
        match msg.msg_type {
            MsgType::Join => self.join_ring(client),
            MsgType::FwJoin => self.handle_join(client, &msg.data),
            MsgType::AckJoin => self.handle_ack_join(client, &msg.data),
            MsgType::Update => self.handle_update(&msg.data),
            MsgType::Quit => self.handle_quit(client),
            MsgType::Insert => self.handle_insert(client, &msg.data),
            MsgType::FwInsert => self.handle_fw_insert(client, &msg.data),
            MsgType::AckInsert => self.handle_ack_insert(&msg.data),
            MsgType::Delete => self.handle_delete(client, &msg.data),
            MsgType::FwDelete => self.handle_fw_delete(client, &msg.data),
            MsgType::AckDelete => self.handle_ack_delete(&msg.data),
            MsgType::Query => self.handle_query(client, &msg.data),
            MsgType::FwQuery => self.handle_fw_query(client, &msg.data),
            MsgType::QueryAll => self.handle_query_all(client, &msg.data),
            MsgType::FwQueryAll => self.handle_fw_query_all(client, &msg.data),
            MsgType::Overlay => self.handle_overlay(client, &msg.data),
            MsgType::FwOverlay => self.handle_fw_overlay(client, &msg.data),
            MsgType::Relocate => self.handle_relocate(&msg.data),
            MsgType::Reply => Vec::new(),
        }
    }
}

/// All fields but the online flag agree.
pub open spec fn same_but_status(a: Node, b: Node) -> bool {
    &&& a.info == b.info
    &&& a.previous == b.previous
    &&& a.successor == b.successor
    &&& a.bootstrap == b.bootstrap
    &&& a.replication == b.replication
    &&& a.records == b.records
    &&& a.pendings == b.pendings
}

/// All fields but the neighbor pointers agree.
pub open spec fn same_but_neighbors(a: Node, b: Node) -> bool {
    &&& a.info == b.info
    &&& a.bootstrap == b.bootstrap
    &&& a.replication == b.replication
    &&& a.records == b.records
    &&& a.pendings == b.pendings
    &&& a.status == b.status
}

/// All fields but the parked-reader set agree.
pub open spec fn same_but_pendings(a: Node, b: Node) -> bool {
    &&& a.info == b.info
    &&& a.previous == b.previous
    &&& a.successor == b.successor
    &&& a.bootstrap == b.bootstrap
    &&& a.replication == b.replication
    &&& a.records == b.records
    &&& a.status == b.status
}

/// All fields but the record store agree.
pub open spec fn same_but_records(a: Node, b: Node) -> bool {
    &&& a.info == b.info
    &&& a.previous == b.previous
    &&& a.successor == b.successor
    &&& a.bootstrap == b.bootstrap
    &&& a.replication == b.replication
    &&& a.pendings == b.pendings
    &&& a.status == b.status
}

/// All fields but the record store and the parked-reader set agree.
pub open spec fn same_but_records_pendings(a: Node, b: Node) -> bool {
    &&& a.info == b.info
    &&& a.previous == b.previous
    &&& a.successor == b.successor
    &&& a.bootstrap == b.bootstrap
    &&& a.replication == b.replication
    &&& a.status == b.status
}

} // verus!
