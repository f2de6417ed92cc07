//! Multi-node scenarios: rings built through the join protocol, replicated
//! writes under both consistency modes, departs, and the ring walks.

use std::collections::VecDeque;

use chord_dht::Action;
use chord_dht::Consistency;
use chord_dht::HashFunc;
use chord_dht::Message;
use chord_dht::MsgData;
use chord_dht::MsgType;
use chord_dht::Node;
use chord_dht::NodeInfo;
use chord_dht::messages::format_overlay_msg;

const CLIENT_PORT: u16 = 9999;

fn client_info() -> NodeInfo {
    NodeInfo::new([127, 0, 0, 1], CLIENT_PORT)
}

fn node_index(nodes: &Vec<Node>, dest: &NodeInfo) -> Option<usize> {
    nodes.iter().position(|n| n.get_info().port == dest.port)
}

/// Delivers every `Send` action until the network is quiet; replies to the
/// client are collected instead of delivered.
fn route(nodes: &mut Vec<Node>, initial: Vec<Action>) -> Vec<String> {
    let mut replies = Vec::new();
    let mut queue: VecDeque<Action> = initial.into_iter().collect();
    let mut steps = 0;
    while let Some(act) = queue.pop_front() {
        steps += 1;
        assert!(steps < 10_000, "the network did not go quiet");
        match act {
            Action::Send { dest, msg } => {
                if dest.port == CLIENT_PORT {
                    if let MsgData::Reply { reply } = &msg.data {
                        replies.push(reply.clone());
                    }
                } else {
                    let i = node_index(nodes, &dest).expect("message to an unknown node");
                    for a in nodes[i].handle_message(&msg) {
                        queue.push_back(a);
                    }
                }
            },
            // parked and woken readers are scenario-specific; the broad
            // router ignores them
            Action::Wait { .. } | Action::Notify { .. } => {},
        }
    }
    replies
}

/// A ring of one bootstrap and `n_peers` peers, built through the join
/// protocol, with replication factor `k` and the given mode.
fn make_ring(n_peers: usize, k: u8, mode: Consistency) -> Vec<Node> {
    let mut boot = Node::new([127, 0, 0, 1], Some(8000), Some(k), Some(mode), None);
    boot.init_ring();
    let boot_info = boot.get_info();
    let mut nodes = vec![boot];
    for i in 1..=n_peers {
        let peer = Node::new(
            [127, 0, 0, 1],
            Some(8000 + i as u16),
            None,
            None,
            Some(boot_info),
        );
        nodes.push(peer);
        let last = nodes.len() - 1;
        let acts = nodes[last].join_ring(None);
        let replies = route(&mut nodes, acts);
        assert!(replies.is_empty());
        assert!(nodes[last].get_status(), "peer {} failed to join", i);
    }
    nodes
}

/// The indices of `nodes` in ring (ascending identifier) order.
fn ring_order(nodes: &Vec<Node>) -> Vec<usize> {
    let mut idx: Vec<usize> = (0..nodes.len()).collect();
    idx.sort_by_key(|&i| nodes[i].get_info().get_id().0);
    idx
}

fn primary_of(nodes: &Vec<Node>, key: &str) -> usize {
    let h = HashFunc(key);
    let owners: Vec<usize> = (0..nodes.len())
        .filter(|&i| nodes[i].is_responsible(&h))
        .collect();
    assert_eq!(owners.len(), 1, "key {} must have exactly one primary", key);
    owners[0]
}

#[test]
fn join_keeps_neighbor_symmetry() {
    let nodes = make_ring(4, 1, Consistency::Eventual);
    let order = ring_order(&nodes);
    let n = order.len();
    for pos in 0..n {
        let me = &nodes[order[pos]];
        let prev = &nodes[order[(pos + n - 1) % n]];
        let succ = &nodes[order[(pos + 1) % n]];
        assert_eq!(me.get_prev().unwrap().port, prev.get_info().port);
        assert_eq!(me.get_succ().unwrap().port, succ.get_info().port);
    }
}

#[test]
fn replica_ranges_match_predecessor_intervals() {
    // every node must report replica index d for exactly the keys whose
    // primary is its d-th predecessor, up to the replication factor
    let k = 2u8;
    let nodes = make_ring(4, k, Consistency::Eventual);
    let order = ring_order(&nodes);
    let n = order.len();
    for sample in 0..50 {
        let key = format!("sample{}", sample);
        let h = HashFunc(&key);
        let primary = primary_of(&nodes, &key);
        let ppos = order.iter().position(|&i| i == primary).unwrap();
        // the primary reports distance zero and each of its k successors
        // covers the key as a replica manager; the exact tail distances
        // drift after repeated joins, because the relocation ripple a join
        // starts dies after k - 1 hops and leaves older coverage unsplit
        for d in 0..=1usize {
            let holder = order[(ppos + d) % n];
            let got = nodes[holder].is_replica_manager(&h);
            if d == 0 {
                assert_eq!(got, 0, "key {} at its primary", key);
            } else {
                assert!(got >= 1, "key {} uncovered at distance {}", key, d);
            }
        }
        let _ = k;
    }
}

#[test]
fn eventual_write_reaches_every_replica() {
    let k = 1u8;
    let nodes_count = 3usize;
    let mut nodes = make_ring(nodes_count - 1, k, Consistency::Eventual);
    let c = client_info();
    for s in 0..8 {
        let key = format!("key{}", s);
        let ins = Message::new(
            MsgType::Insert,
            Some(c),
            MsgData::Insert { key: key.clone(), value: "v".to_string() },
        );
        // any node may take the request; it routes to a replica manager
        let at = s % nodes_count;
        let acts = nodes[at].handle_message(&ins);
        let replies = route(&mut nodes, acts);
        assert_eq!(replies, vec![format!("Inserted ({} : v) successfully!", key)]);
    }
    // every committed key resides on exactly min(k+1, n) nodes, with each
    // replica index present once
    for s in 0..8 {
        let key = format!("key{}", s);
        let h = HashFunc(&key);
        let mut idxs: Vec<i16> = Vec::new();
        for node in nodes.iter() {
            if let Some(it) = node.records.get(&h) {
                idxs.push(it.replica_idx as i16);
            }
        }
        idxs.sort();
        assert_eq!(idxs, vec![0, 1], "key {} replicas", key);
    }
}

#[test]
fn three_node_chain_write_blocks_reads_until_commit() {
    let k = 2u8;
    let mut nodes = make_ring(2, k, Consistency::Chain);
    let c = client_info();
    let key = "X".to_string();
    let h = HashFunc(&key);

    let primary = primary_of(&nodes, &key);
    let ins = Message::new(
        MsgType::Insert,
        Some(c),
        MsgData::Insert { key: key.clone(), value: "v".to_string() },
    );
    let acts1 = nodes[primary].handle_message(&ins);
    // the primary holds the pending head copy and has not replied
    let head = nodes[primary].records.get(&h).unwrap();
    assert_eq!(head.replica_idx, 0);
    assert!(head.pending);
    assert_eq!(acts1.len(), 1);

    // a read at the primary now parks instead of replying
    let q = Message::new(MsgType::Query, Some(c), MsgData::Query { key: key.clone() });
    let blocked = nodes[primary].handle_message(&q);
    assert!(matches!(blocked[0], Action::Wait { .. }));

    // hand the write down the chain by hand
    let (d1, m1) = match acts1.into_iter().next().unwrap() {
        Action::Send { dest, msg } => (dest, msg),
        other => panic!("unexpected action {:?}", other),
    };
    let mid = node_index(&nodes, &d1).unwrap();
    let acts2 = nodes[mid].handle_message(&m1);
    assert!(nodes[mid].records.get(&h).unwrap().pending);
    let (d2, m2) = match acts2.into_iter().next().unwrap() {
        Action::Send { dest, msg } => (dest, msg),
        other => panic!("unexpected action {:?}", other),
    };
    let tail = node_index(&nodes, &d2).unwrap();
    let tail_acts = nodes[tail].handle_message(&m2);
    // the tail replies to the client and acknowledges backward
    assert_eq!(tail_acts.len(), 2);
    let mut reply_text = None;
    let mut ack = None;
    for a in tail_acts {
        match a {
            Action::Send { dest, msg } => {
                if dest.port == CLIENT_PORT {
                    if let MsgData::Reply { reply } = &msg.data {
                        reply_text = Some(reply.clone());
                    }
                } else {
                    ack = Some((dest, msg));
                }
            },
            other => panic!("unexpected action {:?}", other),
        }
    }
    assert_eq!(reply_text.unwrap(), "Inserted (X : v) successfully!");

    // the commit acknowledgment cascades back to the head
    let (ad, am) = ack.unwrap();
    let back1 = node_index(&nodes, &ad).unwrap();
    let acts3 = nodes[back1].handle_message(&am);
    assert!(!nodes[back1].records.get(&h).unwrap().pending);
    let (ad2, am2) = match acts3.into_iter().next().unwrap() {
        Action::Send { dest, msg } => (dest, msg),
        other => panic!("unexpected action {:?}", other),
    };
    let back2 = node_index(&nodes, &ad2).unwrap();
    assert_eq!(back2, primary);
    let acts4 = nodes[primary].handle_message(&am2);
    assert!(!nodes[primary].records.get(&h).unwrap().pending);
    // the head wakes the parked readers
    assert!(matches!(acts4[0], Action::Notify { .. }));

    // the woken read now runs to the tail and returns the value
    let acts5 = nodes[primary].handle_message(&q);
    let replies = route(&mut nodes, acts5);
    assert_eq!(replies, vec!["Found (X : v)".to_string()]);
}

#[test]
fn join_with_transfer_moves_primaries() {
    // a two-node ring gathers data; a third node joins and takes over the
    // keys that now fall in its interval
    let k = 1u8;
    let mut nodes = make_ring(1, k, Consistency::Eventual);
    let c = client_info();
    let keys: Vec<String> = (0..10).map(|i| format!("item{}", i)).collect();
    for key in &keys {
        let ins = Message::new(
            MsgType::Insert,
            Some(c),
            MsgData::Insert { key: key.clone(), value: key.clone() },
        );
        let acts = nodes[0].handle_message(&ins);
        route(&mut nodes, acts);
    }
    let boot_info = nodes[0].get_info();
    let newcomer = Node::new([127, 0, 0, 1], Some(8007), None, None, Some(boot_info));
    nodes.push(newcomer);
    let last = nodes.len() - 1;
    let acts = nodes[last].join_ring(None);
    route(&mut nodes, acts);
    assert!(nodes[last].get_status());
    // the newcomer replicates its predecessor's interval: the tail of its
    // coverage closes at the predecessor's identifier
    assert!(nodes[last].replication.replica_ranges.get_size() >= 1);
    let tail = nodes[last].replication.replica_ranges.get_tail();
    let (_, tail_upper) = tail.get_bounds();
    let prev_id = nodes[last].get_prev().unwrap().get_id();
    assert!(tail_upper.equals(&prev_id));
    // every key still has exactly one primary holding it at index zero,
    // and the keys the newcomer took over sit at its successor as first
    // replicas (the node that served the join shifted its own copies up)
    let succ_port = nodes[last].get_succ().unwrap().port;
    let succ = node_index(&nodes, &nodes[last].get_succ().unwrap()).unwrap();
    assert_eq!(nodes[succ].get_info().port, succ_port);
    for key in &keys {
        let h = HashFunc(key);
        let primary = primary_of(&nodes, key);
        let holder = &nodes[primary];
        let it = holder.records.get(&h).expect("the primary lost a key");
        assert_eq!(it.replica_idx, 0, "key {}", key);
        if primary == last {
            let copy = nodes[succ].records.get(&h).expect("the transfer lost the replica");
            assert_eq!(copy.replica_idx, 1, "key {} at the join server", key);
        }
    }
}

#[test]
fn depart_hands_replicas_to_the_successor() {
    let k = 1u8;
    let mut nodes = make_ring(2, k, Consistency::Chain);
    let c = client_info();
    let keys: Vec<String> = (0..10).map(|i| format!("rec{}", i)).collect();
    for key in &keys {
        let primary = primary_of(&nodes, key);
        let ins = Message::new(
            MsgType::Insert,
            Some(c),
            MsgData::Insert { key: key.clone(), value: key.clone() },
        );
        let acts = nodes[primary].handle_message(&ins);
        route(&mut nodes, acts);
    }
    // the middle peer of the ring order departs (never the bootstrap)
    let order = ring_order(&nodes);
    let boot_pos = order.iter().position(|&i| i == 0).unwrap();
    let departing = order[(boot_pos + 1) % order.len()];
    assert!(departing != 0);
    let quit = Message::new(MsgType::Quit, Some(c), MsgData::Quit { id: String::new() });
    let acts = nodes[departing].handle_message(&quit);
    let replies = route(&mut nodes, acts);
    assert_eq!(replies.len(), 1);
    assert!(replies[0].contains("has left the network"));
    assert!(!nodes[departing].get_status());
    assert_eq!(nodes[departing].records.len(), 0);
    // the item population is preserved on the two survivors: each key is
    // back to min(k+1, 2) distinct copies
    for key in &keys {
        let h = HashFunc(key);
        let mut idxs: Vec<i16> = Vec::new();
        for (i, node) in nodes.iter().enumerate() {
            if i == departing {
                continue;
            }
            if let Some(found) = node.records.get(&h) {
                idxs.push(found.replica_idx as i16);
            }
        }
        idxs.sort();
        assert_eq!(idxs, vec![0, 1], "key {} after depart", key);
    }
}

#[test]
fn overlay_walks_the_ring_in_order() {
    let mut nodes = make_ring(4, 1, Consistency::Eventual);
    let c = client_info();
    let order = ring_order(&nodes);
    let n = order.len();
    for start_pos in 0..n {
        let start = order[start_pos];
        let ov = Message::new(MsgType::Overlay, Some(c), MsgData::Overlay {});
        let acts = nodes[start].handle_message(&ov);
        let replies = route(&mut nodes, acts);
        assert_eq!(replies.len(), 1, "overlay must reply exactly once");
        let expected_infos: Vec<NodeInfo> = (0..n)
            .map(|d| nodes[order[(start_pos + d) % n]].get_info())
            .collect();
        let expected = format_overlay_msg(&expected_infos);
        assert_eq!(replies[0], expected);
    }
}

#[test]
fn query_all_visits_every_node_once() {
    let mut nodes = make_ring(3, 1, Consistency::Eventual);
    let c = client_info();
    for i in 0..6 {
        let key = format!("qa{}", i);
        let ins = Message::new(
            MsgType::Insert,
            Some(c),
            MsgData::Insert { key: key.clone(), value: key.clone() },
        );
        let at = i % nodes.len();
        let acts = nodes[at].handle_message(&ins);
        route(&mut nodes, acts);
    }
    let qa = Message::new(MsgType::QueryAll, Some(c), MsgData::QueryAll {});
    let acts = nodes[0].handle_message(&qa);
    let replies = route(&mut nodes, acts);
    assert_eq!(replies.len(), 1, "query_all must reply exactly once");
    // each node appears once, and each committed key appears exactly once
    // (each is listed only at its primary)
    for node in nodes.iter() {
        let banner = format!("Node: {}", node.get_info().get_id().to_hex());
        assert_eq!(replies[0].matches(&banner).count(), 1);
    }
    for i in 0..6 {
        let needle = format!("(qa{} : qa{})", i, i);
        assert_eq!(replies[0].matches(&needle).count(), 1, "key qa{}", i);
    }
}

#[test]
fn eventual_delete_ripples_to_replicas() {
    let k = 1u8;
    let mut nodes = make_ring(2, k, Consistency::Eventual);
    let c = client_info();
    let key = "target".to_string();
    let primary = primary_of(&nodes, &key);
    let ins = Message::new(
        MsgType::Insert,
        Some(c),
        MsgData::Insert { key: key.clone(), value: "v".to_string() },
    );
    let acts = nodes[primary].handle_message(&ins);
    route(&mut nodes, acts);
    let del = Message::new(MsgType::Delete, Some(c), MsgData::Delete { key: key.clone() });
    let acts = nodes[primary].handle_message(&del);
    let replies = route(&mut nodes, acts);
    assert_eq!(replies, vec!["Deleted (target : v) successfully!".to_string()]);
    let h = HashFunc(&key);
    for node in nodes.iter() {
        assert!(node.records.get(&h).is_none());
    }
}

#[test]
fn bootstrap_refuses_to_depart_a_live_ring() {
    let mut nodes = make_ring(1, 0, Consistency::Eventual);
    let c = client_info();
    let quit = Message::new(MsgType::Quit, Some(c), MsgData::Quit { id: String::new() });
    let acts = nodes[0].handle_message(&quit);
    let replies = route(&mut nodes, acts);
    assert_eq!(
        replies,
        vec!["Bootstrap node cannot leave the network, depart the other nodes first".to_string()]
    );
    assert!(nodes[0].get_status());
}
