//! Ring-level laws of the engine: what holds of a well-formed ring of
//! nodes and of the handlers' transitions on it.

use vstd::prelude::*;
use crate::id::id_val;
use crate::id::be_val;
use crate::hashing::sha1_of;
use crate::messages::Action;
use crate::messages::MsgData;
use crate::messages::MsgType;
use crate::messages::already_joined_text;
use crate::messages::found_text;
use crate::messages::is_reply_to;
use crate::messages::overlay_text;
use crate::node::Node;
use crate::node::action_data;
use crate::node::fw_overlay_post;
use crate::node::insert_post;
use crate::node::join_post;
use crate::node::pend_set;
use crate::node::query_post;
use crate::node::same_but_records;
use crate::node::sends_to;
use crate::peer::Consistency;
use crate::peer::NodeInfo;
use crate::peer::NodeInfoV;
use crate::records::lemma_find_merge;
use crate::records::merge_item;
use crate::records::store_find;
use crate::records::store_merge;

verus! {

/// The cyclic position before `i` on a ring of `n` positions.
pub open spec fn ring_prev(i: int, n: int) -> int {
    if i == 0 {
        n - 1
    } else {
        i - 1
    }
}

/// The cyclic position after `i` on a ring of `n` positions.
pub open spec fn ring_next(i: int, n: int) -> int {
    if i == n - 1 {
        0
    } else {
        i + 1
    }
}

/// Position `s` advanced `j` steps around a ring of `n` positions, for
/// `0 <= s < n` and `0 <= j <= n`.
pub open spec fn cyc(s: int, j: int, n: int) -> int {
    if s + j < n {
        s + j
    } else {
        s + j - n
    }
}

/// A well-formed ring: at least one live node, listed in ascending
/// identifier order, each pointing at its two cyclic neighbors.
pub open spec fn ring_wf(nodes: Seq<Node>) -> bool {
    let n = nodes.len() as int;
    &&& n >= 1
    &&& forall|i: int, j: int| 0 <= i < j < n ==> id_val(nodes[i].info.id) < id_val(
        nodes[j].info.id,
    )
    &&& forall|i: int| 0 <= i < n ==> (#[trigger] nodes[i].previous) == Some(
        nodes[ring_prev(i, n)].info,
    )
    &&& forall|i: int| 0 <= i < n ==> (#[trigger] nodes[i].successor) == Some(
        nodes[ring_next(i, n)].info,
    )
    &&& forall|i: int| 0 <= i < n ==> (#[trigger] nodes[i].status)
}

/// Neighbor symmetry: on a well-formed ring, every node is its
/// predecessor's successor and its successor's predecessor.
pub proof fn lemma_neighbor_symmetry(nodes: Seq<Node>, i: int)
    requires
        ring_wf(nodes),
        0 <= i < nodes.len(),
    ensures
        nodes[ring_prev(i, nodes.len() as int)].successor == Some(nodes[i].info),
        nodes[ring_next(i, nodes.len() as int)].previous == Some(nodes[i].info),
{
    let n = nodes.len() as int;
    assert(ring_next(ring_prev(i, n), n) == i);
    assert(ring_prev(ring_next(i, n), n) == i);
}

/// The first position at or after `j` whose identifier reaches `k`.
proof fn find_slot(nodes: Seq<Node>, k: int, j: int) -> (w: int)
    requires
        ring_wf(nodes),
        nodes.len() >= 2,
        1 <= j < nodes.len(),
        id_val(nodes[j - 1].info.id) < k,
        k <= id_val(nodes[nodes.len() - 1].info.id),
    ensures
        j <= w < nodes.len(),
        id_val(nodes[w - 1].info.id) < k,
        k <= id_val(nodes[w].info.id),
    decreases nodes.len() - j,
{
    if k <= id_val(nodes[j].info.id) {
        j
    } else {
        find_slot(nodes, k, j + 1)
    }
}

/// Ownership coverage: on a well-formed ring every key value has exactly
/// one responsible node.
pub proof fn lemma_ownership_coverage(nodes: Seq<Node>, k: int)
    requires
        ring_wf(nodes),
    ensures
        exists|i: int| 0 <= i < nodes.len() && (#[trigger] nodes[i].spec_responsible(k)),
        forall|i: int, j: int|
            0 <= i < nodes.len() && 0 <= j < nodes.len() && (#[trigger] nodes[i].spec_responsible(
                k,
            )) && (#[trigger] nodes[j].spec_responsible(k)) ==> i == j,
{
    let n = nodes.len() as int;
    if n == 1 {
        assert(nodes[0].spec_responsible(k));
    } else {
        if k <= id_val(nodes[0].info.id) || k > id_val(nodes[n - 1].info.id) {
            assert(nodes[0].previous == Some(nodes[n - 1].info));
            assert(nodes[0].spec_responsible(k));
        } else {
            let w = find_slot(nodes, k, 1);
            assert(nodes[w].previous == Some(nodes[w - 1].info));
            assert(nodes[w].spec_responsible(k));
        }
        assert forall|i: int, j: int|
            0 <= i < n && 0 <= j < n && (#[trigger] nodes[i].spec_responsible(k)) && (
            #[trigger] nodes[j].spec_responsible(k)) implies i == j by {
            if i != j {
                let a = if i < j {
                    i
                } else {
                    j
                };
                let b = if i < j {
                    j
                } else {
                    i
                };
                assert(nodes[a].previous == Some(nodes[ring_prev(a, n)].info));
                assert(nodes[b].previous == Some(nodes[ring_prev(b, n)].info));
                if a >= 1 {
                    assert(id_val(nodes[a].info.id) <= id_val(nodes[b - 1].info.id));
                    assert(false);
                } else {
                    assert(id_val(nodes[b - 1].info.id) >= id_val(nodes[0].info.id));
                    assert(id_val(nodes[b].info.id) <= id_val(nodes[n - 1].info.id));
                    assert(false);
                }
            }
        }
    }
}

/// Every node is responsible for its own identifier: a join request that
/// carries an identifier already on the ring is routed to that node
/// itself.
pub proof fn lemma_self_responsible(nodes: Seq<Node>, i: int)
    requires
        ring_wf(nodes),
        0 <= i < nodes.len(),
    ensures
        nodes[i].spec_responsible(id_val(nodes[i].info.id)),
{
    let n = nodes.len() as int;
    assert(nodes[i].previous == Some(nodes[ring_prev(i, n)].info));
}

/// Idempotent join: a join request for an identifier already on the ring
/// is answered "already part of the network" and leaves the node's state
/// unchanged.
pub proof fn lemma_idempotent_join(
    pre: Node,
    post: Node,
    c: NodeInfo,
    data: MsgData,
    acts: Seq<Action>,
)
    requires
        data matches MsgData::FwJoin { new_node } && id_val(new_node.id) == pre.self_id(),
        join_post(pre, post, Some(c), data, acts),
    ensures
        post == pre,
        acts.len() == 1,
        data matches MsgData::FwJoin { new_node } ==> is_reply_to(
            acts[0],
            c,
            already_joined_text(new_node@.id),
        ),
{
}

/// Eventual read-after-write at the same replica: an insert of `(key,
/// value)` at a replica manager, followed at the same node by a query of
/// `key`, replies with `value` — appended to the existing payload when the
/// key was already stored.
pub proof fn lemma_read_after_write(
    n0: Node,
    n1: Node,
    n2: Node,
    c: NodeInfo,
    ins: MsgData,
    qry: MsgData,
    acts1: Seq<Action>,
    acts2: Seq<Action>,
)
    requires
        n0.records.wf(),
        n0.replication.replication_mode == Consistency::Eventual,
        ins is Insert,
        qry is Query,
        qry->Query_key@ == ins->Insert_key@,
        n0.spec_replica_manager(be_val(sha1_of(ins->Insert_key@))) >= 0,
        insert_post(n0, n1, Some(c), ins, acts1),
        query_post(n1, n2, Some(c), qry, acts2),
    ensures
        acts2.len() == 1,
        is_reply_to(
            acts2[0],
            c,
            match store_find(n0.records@, be_val(sha1_of(ins->Insert_key@))) {
                None => found_text(ins->Insert_key@, ins->Insert_value@),
                Some(e) => found_text(e.title, e.value + ins->Insert_value@),
            },
        ),
{
    let kv = be_val(sha1_of(ins->Insert_key@));
    let r = n0.spec_replica_manager(kv);
    let ts = choose|ts: int|
        n1.records@ =~= #[trigger] store_merge(
            n0.records@,
            kv,
            crate::node::fresh_item(ins->Insert_key@, ins->Insert_value@, r, false, ts),
        );
    let it = crate::node::fresh_item(ins->Insert_key@, ins->Insert_value@, r, false, ts);
    lemma_find_merge(n0.records@, kv, it, kv);
    assert(same_but_records(n1, n0));
    assert(n1.spec_responsible(kv) == n0.spec_responsible(kv));
    assert(n1.spec_replica_manager(kv) == r);
    assert(store_find(n1.records@, kv) == store_find(store_merge(n0.records@, kv, it), kv));
    match store_find(n0.records@, kv) {
        None => {
            assert(store_find(n1.records@, kv) == Some(it));
        },
        Some(e) => {
            assert(store_find(n1.records@, kv) == Some(merge_item(e, it)));
        },
    }
}

/// Chain reads are gated on commit: a query at the primary for a key whose
/// chain write is still pending neither replies nor forwards — it parks
/// the reader on the key until the commit acknowledgment wakes it.
pub proof fn lemma_chain_read_gated(
    pre: Node,
    post: Node,
    c: NodeInfo,
    qry: MsgData,
    acts: Seq<Action>,
)
    requires
        pre.replication.replication_mode == Consistency::Chain,
        qry is Query,
        pre.spec_responsible(be_val(sha1_of(qry->Query_key@))),
        store_find(pre.records@, be_val(sha1_of(qry->Query_key@))) matches Some(it) && it.pending,
        query_post(pre, post, Some(c), qry, acts),
    ensures
        acts.len() == 1,
        acts[0] is Wait,
        pend_set(post.pendings@) =~= pend_set(pre.pendings@).insert(
            be_val(sha1_of(qry->Query_key@)),
        ),
{
}

/// Splicing a newcomer between positions `r - 1` and `r` keeps the ring
/// well-formed, given the three rewritten nodes' fields.
#[verifier::rlimit(100)]
#[verifier::spinoff_prover]
proof fn lemma_splice_ring(
    nodes: Seq<Node>,
    r: int,
    nn_info: NodeInfo,
    post_p: Node,
    post_n: Node,
    post_r: Node,
)
    requires
        ring_wf(nodes),
        nodes.len() >= 2,
        1 <= r < nodes.len(),
        id_val(nodes[r - 1].info.id) < id_val(nn_info.id),
        id_val(nn_info.id) < id_val(nodes[r].info.id),
        post_p.info == nodes[r - 1].info,
        post_p.previous == nodes[r - 1].previous,
        post_p.successor == Some(nn_info),
        post_p.status == nodes[r - 1].status,
        post_n.info == nn_info,
        post_n.previous == Some(nodes[r - 1].info),
        post_n.successor == Some(nodes[r].info),
        post_n.status,
        post_r.info == nodes[r].info,
        post_r.previous == Some(nn_info),
        post_r.successor == nodes[r].successor,
        post_r.status == nodes[r].status,
    ensures
        ring_wf(nodes.take(r - 1) + seq![post_p, post_n, post_r] + nodes.skip(r + 1)),
{
    let n = nodes.len() as int;
    let nid = id_val(nn_info.id);
    let ring = nodes.take(r - 1) + seq![post_p, post_n, post_r] + nodes.skip(r + 1);
    assert(ring.len() == n + 1);

    // where each position of the new ring comes from
    assert forall|i: int| 0 <= i < r - 1 implies ring[i] == nodes[i] by {}
    assert(ring[r - 1] == post_p);
    assert(ring[r] == post_n);
    assert(ring[r + 1] == post_r);
    assert forall|i: int| r + 1 < i < n + 1 implies ring[i] == nodes[i - 1] by {}
    assert forall|i: int| 0 <= i < n + 1 implies #[trigger] ring[i].info == (if i < r {
        nodes[i].info
    } else if i == r {
        nn_info
    } else {
        nodes[i - 1].info
    }) by {}

    // ascending identifiers
    assert forall|i: int, j: int| 0 <= i < j < n + 1 implies id_val(ring[i].info.id) < id_val(
        ring[j].info.id,
    ) by {
        if i < r && j < r {
        } else if i < r && j == r {
            if i < r - 1 {
                assert(id_val(nodes[i].info.id) < id_val(nodes[r - 1].info.id));
            }
        } else if i == r {
            assert(nid < id_val(nodes[r].info.id));
            if j > r + 1 {
                assert(id_val(nodes[r].info.id) < id_val(nodes[j - 1].info.id));
            }
        } else if i < r {
            assert(id_val(nodes[i].info.id) <= id_val(nodes[r - 1].info.id));
            assert(id_val(nodes[r - 1].info.id) < id_val(nodes[j - 1].info.id));
        } else {
        }
    }

    // every node is online
    assert forall|i: int| 0 <= i < n + 1 implies #[trigger] ring[i].status by {
        if i == r {
        } else if i == r - 1 {
        } else if i == r + 1 {
        }
    }

    // predecessor pointers
    assert forall|i: int| 0 <= i < n + 1 implies (#[trigger] ring[i].previous) == Some(
        ring[ring_prev(i, n + 1)].info,
    ) by {
        if i == r {
            assert(post_n.previous == Some(nodes[r - 1].info));
        } else if i == r + 1 {
            assert(post_r.previous == Some(nn_info));
        } else if i == r - 1 {
            assert(post_p.previous == nodes[r - 1].previous);
            if r - 1 == 0 {
                assert(nodes[0].previous == Some(nodes[n - 1].info));
                assert(ring_prev(0, n + 1) == n);
                assert(ring[n].info == nodes[n - 1].info);
            } else {
                assert(nodes[r - 1].previous == Some(nodes[r - 2].info));
            }
        } else if i < r - 1 {
            assert(nodes[i].previous == Some(nodes[ring_prev(i, n)].info));
            if i == 0 {
                assert(ring[n].info == nodes[n - 1].info);
            }
        } else {
            assert(nodes[i - 1].previous == Some(nodes[ring_prev(i - 1, n)].info));
            assert(ring_prev(i, n + 1) == i - 1);
            assert(ring[i - 1].info == nodes[i - 2].info);
        }
    }

    // successor pointers
    assert forall|i: int| 0 <= i < n + 1 implies (#[trigger] ring[i].successor) == Some(
        ring[ring_next(i, n + 1)].info,
    ) by {
        if i == r - 1 {
            assert(post_p.successor == Some(nn_info));
        } else if i == r {
            assert(post_n.successor == Some(nodes[r].info));
        } else if i == r + 1 {
            assert(post_r.successor == nodes[r].successor);
            assert(nodes[r].successor == Some(nodes[ring_next(r, n)].info));
            if r == n - 1 {
                assert(ring_next(n, n + 1) == 0);
                assert(ring[0].info == nodes[0].info);
            } else {
                assert(ring_next(r + 1, n + 1) == r + 2);
                assert(ring[r + 2].info == nodes[r + 1].info);
            }
        } else if i < r - 1 {
            assert(nodes[i].successor == Some(nodes[ring_next(i, n)].info));
        } else {
            assert(nodes[i - 1].successor == Some(nodes[ring_next(i - 1, n)].info));
            if i == n {
                assert(ring_next(n, n + 1) == 0);
                assert(ring[0].info == nodes[0].info);
            } else {
                assert(ring_next(i, n + 1) == i + 1);
                assert(ring[i + 1].info == nodes[i].info);
            }
        }
    }
}

/// A join preserves the ring: when a newcomer with a fresh identifier
/// inside node `r`'s interval is served there, and the acknowledgment and
/// neighbor update it causes are applied at the newcomer and at `r`'s old
/// predecessor, the ring with the newcomer spliced in between them is
/// well-formed again — so neighbor symmetry holds of every live node after
/// the membership change, as it did before.
///
/// `r >= 1` places the newcomer inside the ring's ascending run; the wrap
/// position (a newcomer below the least or above the greatest identifier)
/// is exercised by the test suite instead.
#[verifier::rlimit(100)]
#[verifier::spinoff_prover]
pub proof fn lemma_join_preserves_ring(
    nodes: Seq<Node>,
    r: int,
    nn_info: NodeInfo,
    client: Option<NodeInfo>,
    post_r: Node,
    acts_r: Seq<Action>,
    pre_n: Node,
    post_n: Node,
    acts_n: Seq<Action>,
    post_p: Node,
    acts_p: Seq<Action>,
    data_n: MsgData,
    data_p: MsgData,
)
    requires
        ring_wf(nodes),
        nodes.len() >= 2,
        1 <= r < nodes.len(),
        forall|i: int| 0 <= i < nodes.len() ==> id_val(nn_info.id) != id_val(
            #[trigger] nodes[i].info.id,
        ),
        nodes[r].spec_responsible(id_val(nn_info.id)),
        crate::node::join_accept_post(nodes[r], post_r, client, nn_info, acts_r),
        pre_n.info == nn_info,
        data_n == action_data(acts_r[0]),
        crate::node::ack_join_post(pre_n, post_n, client, data_n, acts_n),
        data_p == action_data(acts_r[1]),
        crate::node::update_post(nodes[r - 1], post_p, data_p, acts_p),
    ensures
        ring_wf(nodes.take(r - 1) + seq![post_p, post_n, post_r] + nodes.skip(r + 1)),
{
    let n = nodes.len() as int;
    let nid = id_val(nn_info.id);

    // the newcomer's identifier sits strictly between its neighbors'
    assert(nodes[r].previous == Some(nodes[r - 1].info));
    assert(id_val(nodes[r - 1].info.id) < id_val(nodes[r].info.id));
    assert(id_val(nodes[r - 1].info.id) < nid && nid < id_val(nodes[r].info.id));

    // the served join named the old neighbors in its acknowledgment, and
    // the update went to the old predecessor
    let prev = nodes[r].previous->0;
    assert(prev == nodes[r - 1].info);
    assert(id_val(prev.id) != id_val(nodes[r].info.id));
    assert(data_n matches MsgData::AckJoin { prev_info, succ_info, .. } && prev_info == Some(
        nodes[r - 1].info,
    ) && succ_info == Some(nodes[r].info));
    assert(data_p matches MsgData::Update { prev_info, succ_info } && prev_info is None
        && succ_info == Some(nn_info));

    // the three rewritten nodes' fields, read off the handler contracts
    assert(post_p.info == nodes[r - 1].info);
    assert(post_p.previous == nodes[r - 1].previous);
    assert(post_p.successor == Some(nn_info));
    assert(post_p.status == nodes[r - 1].status);
    assert(post_n.info == nn_info);
    assert(post_n.previous == Some(nodes[r - 1].info));
    assert(post_n.successor == Some(nodes[r].info));
    assert(post_n.status);
    assert(post_r.info == nodes[r].info);
    assert(post_r.previous == Some(nn_info));
    assert(post_r.successor == nodes[r].successor);
    assert(post_r.status == nodes[r].status);

    lemma_splice_ring(nodes, r, nn_info, post_p, post_n, post_r);
}

/// One hop of a chain write at distance `d` from the primary: the node
/// stores the fresh key pending under replica index `d`, hands the write
/// to the next successor while below the tail, and at the tail replies to
/// the client and starts the backward acknowledgment. Together with the
/// unique primary of `lemma_ownership_coverage`, a full delivery therefore
/// places the item on the primary and its `k` successors, one replica
/// index each.
pub proof fn lemma_chain_insert_step(
    nodes: Seq<Node>,
    p: int,
    d: int,
    k: int,
    post: Node,
    data: MsgData,
    acts: Seq<Action>,
    c: NodeInfo,
)
    requires
        ring_wf(nodes),
        0 <= p < nodes.len(),
        1 <= d <= k,
        k < nodes.len(),
        nodes[cyc(p, d, nodes.len() as int)].replication.replication_mode == Consistency::Chain,
        nodes[cyc(p, d, nodes.len() as int)].spec_current_k() == k,
        nodes[cyc(p, d, nodes.len() as int)].records.wf(),
        data matches MsgData::FwInsert { key, value, replica, forward_back } && replica == d
            && !forward_back && store_find(
            nodes[cyc(p, d, nodes.len() as int)].records@,
            be_val(sha1_of(key@)),
        ) is None,
        crate::node::fw_insert_post(nodes[cyc(p, d, nodes.len() as int)], post, Some(c), data, acts),
    ensures
        data matches MsgData::FwInsert { key, value, .. } ==> ({
            let kv = be_val(sha1_of(key@));
            &&& store_find(post.records@, kv) matches Some(it) && it.title == key@ && it.value
                == value@ && it.replica_idx == d && it.pending
            &&& same_but_records(post, nodes[cyc(p, d, nodes.len() as int)])
            &&& d < k ==> acts.len() == 1 && sends_to(
                acts[0],
                nodes[cyc(p, d + 1, nodes.len() as int)].info,
                MsgType::FwInsert,
                Some(c),
            ) && (action_data(acts[0]) matches MsgData::FwInsert {
                key: k2,
                value: v2,
                replica: r2,
                forward_back: b2,
            } && k2@ == key@ && v2@ == value@ && r2 == d + 1 && !b2)
            &&& d == k ==> acts.len() == 2 && is_reply_to(
                acts[0],
                c,
                crate::messages::inserted_text(key@, value@),
            ) && sends_to(
                acts[1],
                nodes[cyc(p, d - 1, nodes.len() as int)].info,
                MsgType::AckInsert,
                None,
            ) && (action_data(acts[1]) matches MsgData::AckInsert { key: kh } && kh@ == sha1_of(
                key@,
            ))
        }),
{
    let n = nodes.len() as int;
    let at = cyc(p, d, n);
    let key = data->FwInsert_key;
    let value = data->FwInsert_value;
    let kv = be_val(sha1_of(key@));
    let pre = nodes[at];
    assert(1 <= d <= 255) by {
        assert(nodes[at].spec_current_k() <= 255);
    }

    let ts = choose|ts: int|
        post.records@ =~= #[trigger] store_merge(
            pre.records@,
            kv,
            crate::node::fresh_item(key@, value@, (data->FwInsert_replica as u8) as int, true, ts),
        );
    let it = crate::node::fresh_item(key@, value@, d, true, ts);
    lemma_find_merge(pre.records@, kv, it, kv);
    assert(store_find(post.records@, kv) == Some(it));

    assert(pre.successor == Some(nodes[ring_next(at, n)].info));
    assert(ring_next(at, n) == cyc(p, d + 1, n));
    assert(pre.previous == Some(nodes[ring_prev(at, n)].info));
    assert(ring_prev(at, n) == cyc(p, d - 1, n));
}

/// Ring traversal termination for `query_all`: each node the walk reaches
/// forwards the accumulation exactly once with the origin header intact,
/// until the node whose successor is the origin closes the walk with
/// exactly one reply — so the scan visits every live node exactly once
/// and answers exactly once.
pub proof fn lemma_query_all_walk(
    nodes: Seq<Node>,
    s: int,
    j: int,
    post: Node,
    data: MsgData,
    acts: Seq<Action>,
    c: NodeInfo,
)
    requires
        ring_wf(nodes),
        0 <= s < nodes.len(),
        1 <= j <= nodes.len() - 1,
        data matches MsgData::FwQueryAll { record_list, header } && header@ == nodes[s].info@.id,
        crate::node::fw_query_all_post(nodes[cyc(s, j, nodes.len() as int)], post, Some(c), data, acts),
    ensures
        post == nodes[cyc(s, j, nodes.len() as int)],
        acts.len() == 1,
        j < nodes.len() - 1 ==> sends_to(
            acts[0],
            nodes[cyc(s, j + 1, nodes.len() as int)].info,
            MsgType::FwQueryAll,
            Some(c),
        ) && (action_data(acts[0]) matches MsgData::FwQueryAll { header: h2, .. } && h2@
            == nodes[s].info@.id),
        j == nodes.len() - 1 ==> is_reply_to_someone(acts[0], c),
{
    let n = nodes.len() as int;
    let at = cyc(s, j, n);
    let succ_pos = ring_next(at, n);
    assert(succ_pos == cyc(s, j + 1, n));
    assert(nodes[at].successor == Some(nodes[succ_pos].info));
    let header = data->header;
    assert(id_val(header) == be_val(nodes[s].info@.id));
    if j == n - 1 {
        assert(succ_pos == s);
        assert(id_val(nodes[succ_pos].info.id) == id_val(header));
    } else {
        assert(succ_pos != s);
        if succ_pos < s {
            assert(id_val(nodes[succ_pos].info.id) < id_val(nodes[s].info.id));
        } else {
            assert(id_val(nodes[s].info.id) < id_val(nodes[succ_pos].info.id));
        }
        assert(id_val(nodes[succ_pos].info.id) != id_val(header));
    }
}

/// Whether `a` delivers a `Reply` message to `c`, whatever its text.
pub open spec fn is_reply_to_someone(a: Action, c: NodeInfo) -> bool {
    &&& a matches Action::Send { dest, msg }
    &&& dest == c
    &&& msg.msg_type == MsgType::Reply
    &&& msg.data is Reply
}

/// A depart preserves the ring: when an interior peer departs and the two
/// neighbor updates it sends are applied at its predecessor and its
/// successor, the ring without it is well-formed again.
///
/// `1 <= d <= n - 2` makes the departing node interior; the boundary
/// positions are exercised by the test suite instead.
#[verifier::rlimit(100)]
#[verifier::spinoff_prover]
pub proof fn lemma_depart_preserves_ring(
    nodes: Seq<Node>,
    d: int,
    client: Option<NodeInfo>,
    post_d: Node,
    acts_d: Seq<Action>,
    post_p: Node,
    acts_p: Seq<Action>,
    post_s: Node,
    acts_s: Seq<Action>,
    data_p: MsgData,
    data_s: MsgData,
)
    requires
        ring_wf(nodes),
        nodes.len() >= 3,
        1 <= d <= nodes.len() - 2,
        nodes[d].bootstrap is Some,
        crate::node::quit_post(nodes[d], post_d, client, acts_d),
        data_p == action_data(acts_d[0]),
        crate::node::update_post(nodes[d - 1], post_p, data_p, acts_p),
        data_s == action_data(acts_d[1]),
        crate::node::update_post(nodes[d + 1], post_s, data_s, acts_s),
    ensures
        ring_wf(nodes.take(d - 1) + seq![post_p, post_s] + nodes.skip(d + 2)),
{
    let n = nodes.len() as int;
    let ring = nodes.take(d - 1) + seq![post_p, post_s] + nodes.skip(d + 2);
    assert(ring.len() == n - 1);

    // the departing node's neighbors, and what its updates told them
    assert(nodes[d].previous == Some(nodes[d - 1].info));
    assert(nodes[d].successor == Some(nodes[d + 1].info));
    assert(id_val(nodes[d - 1].info.id) < id_val(nodes[d].info.id));
    assert(id_val(nodes[d].info.id) < id_val(nodes[d + 1].info.id));
    assert(data_p matches MsgData::Update { prev_info, succ_info } && prev_info is None
        && succ_info == Some(nodes[d + 1].info));
    assert(data_s matches MsgData::Update { prev_info, succ_info } && succ_info is None
        && prev_info == Some(nodes[d - 1].info));
    assert(post_p.info == nodes[d - 1].info);
    assert(post_s.info == nodes[d + 1].info);
    assert(post_p.successor == Some(nodes[d + 1].info));
    assert(post_p.previous == nodes[d - 1].previous);
    assert(post_s.previous == Some(nodes[d - 1].info));
    assert(post_s.successor == nodes[d + 1].successor);

    // where each position of the shrunken ring comes from
    assert forall|i: int| 0 <= i < d - 1 implies ring[i] == nodes[i] by {}
    assert(ring[d - 1] == post_p);
    assert(ring[d] == post_s);
    assert forall|i: int| d < i < n - 1 implies ring[i] == nodes[i + 1] by {}
    assert forall|i: int| 0 <= i < n - 1 implies #[trigger] ring[i].info == (if i < d {
        nodes[i].info
    } else {
        nodes[i + 1].info
    }) by {}

    // ascending identifiers: a subsequence of an ascending run
    assert forall|i: int, j: int| 0 <= i < j < n - 1 implies id_val(ring[i].info.id) < id_val(
        ring[j].info.id,
    ) by {
        if i < d && j >= d {
            assert(id_val(nodes[i].info.id) < id_val(nodes[j + 1].info.id));
        }
    }

    // every node is online
    assert forall|i: int| 0 <= i < n - 1 implies #[trigger] ring[i].status by {
        if i == d - 1 {
        } else if i == d {
        }
    }

    // predecessor pointers
    assert forall|i: int| 0 <= i < n - 1 implies (#[trigger] ring[i].previous) == Some(
        ring[ring_prev(i, n - 1)].info,
    ) by {
        if i == d {
            assert(ring_prev(d, n - 1) == d - 1);
        } else if i == d - 1 {
            if d - 1 == 0 {
                assert(nodes[0].previous == Some(nodes[n - 1].info));
                assert(ring_prev(0, n - 1) == n - 2);
                assert(ring[n - 2].info == nodes[n - 1].info);
            } else {
                assert(nodes[d - 1].previous == Some(nodes[d - 2].info));
            }
        } else if i < d - 1 {
            assert(nodes[i].previous == Some(nodes[ring_prev(i, n)].info));
            if i == 0 {
                assert(ring[n - 2].info == nodes[n - 1].info);
            }
        } else {
            assert(nodes[i + 1].previous == Some(nodes[i].info));
            assert(ring_prev(i, n - 1) == i - 1);
            if i - 1 == d {
                assert(ring[d].info == nodes[d + 1].info);
            } else {
                assert(ring[i - 1].info == nodes[i].info);
            }
        }
    }

    // successor pointers
    assert forall|i: int| 0 <= i < n - 1 implies (#[trigger] ring[i].successor) == Some(
        ring[ring_next(i, n - 1)].info,
    ) by {
        if i == d - 1 {
            assert(ring_next(d - 1, n - 1) == d);
            assert(ring[d].info == nodes[d + 1].info);
        } else if i == d {
            assert(nodes[d + 1].successor == Some(nodes[ring_next(d + 1, n)].info));
            if d + 1 == n - 1 {
                assert(ring_next(d, n - 1) == 0);
                assert(ring[0].info == nodes[0].info);
            } else {
                assert(ring_next(d, n - 1) == d + 1);
                assert(ring[d + 1].info == nodes[d + 2].info);
            }
        } else if i < d - 1 {
            assert(nodes[i].successor == Some(nodes[i + 1].info));
            if i + 1 == d - 1 {
                assert(ring[d - 1].info == nodes[d - 1].info);
            }
        } else {
            assert(nodes[i + 1].successor == Some(nodes[ring_next(i + 1, n)].info));
            if i == n - 2 {
                assert(ring_next(n - 2, n - 1) == 0);
                assert(ring[0].info == nodes[0].info);
            } else {
                assert(ring_next(i, n - 1) == i + 1);
                assert(ring[i + 1].info == nodes[i + 2].info);
            }
        }
    }
}

/// The peers an overlay walk that started at position `s` has gathered
/// after `j` hops: the nodes from `s` onward, in ring order.
pub open spec fn walk_peers(nodes: Seq<Node>, s: int, j: int) -> Seq<NodeInfoV> {
    Seq::new(j as nat, |t: int| nodes[cyc(s, t, nodes.len() as int)].info@)
}

/// Ring traversal termination for `overlay`: each node the walk reaches
/// before closing the circle forwards exactly once, appending itself and
/// replying to nobody; when the walk returns to its origin after visiting
/// every node exactly once, exactly one reply carries the peers in ring
/// order.
pub proof fn lemma_overlay_walk(
    nodes: Seq<Node>,
    s: int,
    j: int,
    post: Node,
    data: MsgData,
    acts: Seq<Action>,
    c: NodeInfo,
)
    requires
        ring_wf(nodes),
        0 <= s < nodes.len(),
        1 <= j <= nodes.len(),
        data matches MsgData::FwOverlay { peers } && peers@.map_values(|p: NodeInfo| p@)
            =~= walk_peers(nodes, s, j),
        fw_overlay_post(nodes[cyc(s, j, nodes.len() as int)], post, Some(c), data, acts),
    ensures
        post == nodes[cyc(s, j, nodes.len() as int)],
        acts.len() == 1,
        j < nodes.len() ==> sends_to(
            acts[0],
            nodes[cyc(s, j + 1, nodes.len() as int)].info,
            MsgType::FwOverlay,
            Some(c),
        ) && (action_data(acts[0]) matches MsgData::FwOverlay { peers: p2 } && p2@.map_values(
            |p: NodeInfo| p@,
        ) =~= walk_peers(nodes, s, j + 1)),
        j == nodes.len() ==> is_reply_to(acts[0], c, overlay_text(walk_peers(nodes, s, j))),
{
    let n = nodes.len() as int;
    let at = cyc(s, j, n);
    let peers = data->FwOverlay_peers;
    assert(walk_peers(nodes, s, j).len() == j);
    assert(peers@.map_values(|p: NodeInfo| p@).len() == peers@.len());
    assert(peers@.len() == j);
    assert(peers@.map_values(|p: NodeInfo| p@)[0] == peers@[0]@);
    assert(peers@[0]@ == nodes[s].info@);
    assert(id_val(peers@[0].id) == be_val(nodes[s].info@.id));
    if j == n {
        assert(at == s);
        assert(id_val(peers@[0].id) == nodes[at].self_id());
    } else {
        assert(at != s);
        if at < s {
            assert(id_val(nodes[at].info.id) < id_val(nodes[s].info.id));
        } else {
            assert(id_val(nodes[s].info.id) < id_val(nodes[at].info.id));
        }
        assert(id_val(peers@[0].id) != nodes[at].self_id());
        assert(nodes[at].successor == Some(nodes[ring_next(at, n)].info));
        assert(ring_next(at, n) == cyc(s, j + 1, n));
        assert forall|t: int| 0 <= t < j + 1 implies #[trigger] walk_peers(nodes, s, j + 1)[t]
            == (peers@.map_values(|p: NodeInfo| p@) + seq![nodes[at].info@])[t] by {
            if t < j {
                assert(peers@.map_values(|p: NodeInfo| p@)[t] == walk_peers(nodes, s, j)[t]);
                assert(walk_peers(nodes, s, j)[t] == nodes[cyc(s, t, n)].info@);
            } else {
                assert(cyc(s, t, n) == at);
            }
        }
        assert(peers@.map_values(|p: NodeInfo| p@) + seq![nodes[at].info@] =~= walk_peers(
            nodes,
            s,
            j + 1,
        ));
    }
}

} // verus!
