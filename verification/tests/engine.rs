//! Single-node behavior: identifiers, intervals, the record store, and the
//! bootstrap-only request scenarios.

use chord_dht::hashing::push_decimal;
use chord_dht::messages::format_overlay_msg;
use chord_dht::messages::format_queryall_msg;
use chord_dht::Action;
use chord_dht::Consistency;
use chord_dht::HashFunc;
use chord_dht::HashIP;
use chord_dht::HashType;
use chord_dht::Item;
use chord_dht::Message;
use chord_dht::MsgData;
use chord_dht::MsgType;
use chord_dht::Node;
use chord_dht::NodeInfo;
use chord_dht::Range;
use chord_dht::RecordStore;
use chord_dht::UnionRange;

fn client_info() -> NodeInfo {
    NodeInfo::new([127, 0, 0, 1], 9999)
}

/// The reply text of the single `Send` action addressed to `c`.
fn sole_reply(actions: &[Action], c: &NodeInfo) -> String {
    assert_eq!(actions.len(), 1);
    match &actions[0] {
        Action::Send { dest, msg } => {
            assert_eq!(dest.port, c.port);
            assert!(matches!(msg.msg_type, MsgType::Reply));
            match &msg.data {
                MsgData::Reply { reply } => reply.clone(),
                other => panic!("not a reply payload: {:?}", other),
            }
        },
        other => panic!("not a send: {:?}", other),
    }
}

#[test]
fn sha1_digest_matches_known_value() {
    let h = HashFunc("hello world");
    assert_eq!(h.to_hex(), "2aae6c35c94fcfb415dbe95f408b9ce91ee846ed");
}

#[test]
fn hash_ip_concatenates_decimal_digits() {
    let by_parts = HashIP([127, 0, 0, 1], 8000);
    let by_string = HashFunc("1270018000");
    assert!(by_parts.equals(&by_string));
}

#[test]
fn push_decimal_renders_digits() {
    let mut s = String::new();
    push_decimal(0, &mut s);
    push_decimal(8000, &mut s);
    push_decimal(255, &mut s);
    assert_eq!(s, "08000255");
}

#[test]
fn hex_round_trip() {
    let h = HashFunc("some key");
    let hex = h.to_hex();
    assert_eq!(hex.len(), 40);
    let back = HashType::from_hex(&hex).unwrap();
    assert!(back.equals(&h));
    assert!(HashType::from_hex("zz").is_err());
    assert!(HashType::from_hex(&hex[..39]).is_err());
    let upper = hex.to_uppercase();
    assert!(HashType::from_hex(&upper).unwrap().equals(&h));
}

#[test]
fn identifier_order_is_big_endian() {
    let mut lo = [0u8; 20];
    let mut hi = [0u8; 20];
    lo[19] = 0xff;
    hi[0] = 1;
    let lo = HashType(lo);
    let hi = HashType(hi);
    assert!(lo.less_than(&hi));
    assert!(!hi.less_than(&lo));
    assert!(lo.less_eq(&hi));
    assert!(lo.less_eq(&lo));
    assert!(HashType::min_value().less_eq(&lo));
    assert!(hi.less_eq(&HashType::max_value()));
    assert!(HashType::min_value().less_than(&HashType::max_value()));
}

fn id_of(byte: u8) -> HashType {
    let mut b = [0u8; 20];
    b[0] = byte;
    HashType(b)
}

#[test]
fn range_membership_honors_flags() {
    let r = Range::new(id_of(10), id_of(20), false, true);
    assert!(!r.in_range(id_of(10)));
    assert!(r.in_range(id_of(20)));
    assert!(r.in_range(id_of(15)));
    assert!(!r.in_range(id_of(21)));
    let closed = Range::new(id_of(10), id_of(20), true, false);
    assert!(closed.in_range(id_of(10)));
    assert!(!closed.in_range(id_of(20)));
}

#[test]
fn union_range_subset_reports_tail_distance() {
    let mut u = UnionRange::new();
    u.insert(Range::new(id_of(10), id_of(20), false, true));
    u.insert(Range::new(id_of(20), id_of(30), false, true));
    // the tail interval is one hop from the primary
    assert_eq!(u.is_subset(id_of(25)), 1);
    assert_eq!(u.is_subset(id_of(15)), 2);
    assert_eq!(u.is_subset(id_of(35)), -1);
    // a wrapped interval covers both ends of the space
    let mut w = UnionRange::new();
    w.insert(Range::new(id_of(200), id_of(5), false, true));
    assert_eq!(w.is_subset(id_of(250)), 1);
    assert_eq!(w.is_subset(id_of(3)), 1);
    assert_eq!(w.is_subset(id_of(100)), -1);
}

#[test]
fn union_range_split_and_merge() {
    let mut u = UnionRange::new();
    u.insert(Range::new(id_of(10), id_of(30), false, true));
    u.split_range(id_of(20));
    assert_eq!(u.get_size(), 2);
    let (lo, hi) = u.get_head().get_bounds();
    assert!(lo.equals(&id_of(10)));
    assert!(hi.equals(&id_of(20)));
    let (lo2, hi2) = u.get_tail().get_bounds();
    assert!(lo2.equals(&id_of(20)));
    assert!(hi2.equals(&id_of(30)));
    u.merge_at(1);
    assert_eq!(u.get_size(), 1);
    let (mlo, mhi) = u.get_head().get_bounds();
    assert!(mlo.equals(&id_of(10)));
    assert!(mhi.equals(&id_of(30)));
}

#[test]
fn union_range_ends() {
    let mut u = UnionRange::new();
    u.insert(Range::new(id_of(1), id_of(2), false, true));
    u.insert_head(Range::new(id_of(0), id_of(1), false, true));
    assert_eq!(u.get_size(), 2);
    u.pop_head();
    assert_eq!(u.get_size(), 1);
    let (lo, _) = u.get_head().get_bounds();
    assert!(lo.equals(&id_of(1)));
    u.pop_tail();
    assert_eq!(u.get_size(), 0);
    u.pop_tail();
    assert_eq!(u.get_size(), 0);
}

#[test]
fn record_store_insert_merges_values() {
    let mut store = RecordStore::new();
    let k = HashFunc("foo");
    store.insert_or_merge(k, &Item::new("foo", "bar", 0, false));
    store.insert_or_merge(k, &Item::new("foo", "baz", 0, true));
    let it = store.get(&k).unwrap();
    assert_eq!(it.value, "barbaz");
    assert!(it.pending);
    assert_eq!(store.len(), 1);
    let gone = store.remove(&k).unwrap();
    assert_eq!(gone.value, "barbaz");
    assert!(store.get(&k).is_none());
}

#[test]
fn record_store_iterates_in_id_order() {
    let mut store = RecordStore::new();
    for key in ["alpha", "beta", "gamma", "delta"] {
        store.insert_or_merge(HashFunc(key), &Item::new(key, key, 0, false));
    }
    assert_eq!(store.len(), 4);
    for i in 1..store.len() {
        let a = store.key_at(i - 1);
        let b = store.key_at(i);
        assert!(a.less_than(&b));
    }
}

#[test]
fn bootstrap_only_insert_and_query() {
    // an eventual-mode bootstrap alone on the ring
    let mut boot = Node::new([127, 0, 0, 1], Some(8000), Some(0), Some(Consistency::Eventual), None);
    boot.init_ring();
    let c = client_info();

    let ins = Message::new(
        MsgType::Insert,
        Some(c),
        MsgData::Insert { key: "foo".to_string(), value: "bar".to_string() },
    );
    let reply = sole_reply(&boot.handle_message(&ins), &c);
    assert_eq!(reply, "Inserted (foo : bar) successfully!");

    let q = Message::new(MsgType::Query, Some(c), MsgData::Query { key: "foo".to_string() });
    let reply = sole_reply(&boot.handle_message(&q), &c);
    assert_eq!(reply, "Found (foo : bar)");

    let missing = Message::new(
        MsgType::Query,
        Some(c),
        MsgData::Query { key: "missing".to_string() },
    );
    let reply = sole_reply(&boot.handle_message(&missing), &c);
    assert_eq!(reply, "Error: missing doesn't exist");
}

#[test]
fn duplicate_insert_concatenates() {
    let mut boot = Node::new([127, 0, 0, 1], Some(8000), Some(0), Some(Consistency::Eventual), None);
    boot.init_ring();
    let c = client_info();
    for _ in 0..2 {
        let ins = Message::new(
            MsgType::Insert,
            Some(c),
            MsgData::Insert { key: "k".to_string(), value: "v".to_string() },
        );
        boot.handle_message(&ins);
    }
    let q = Message::new(MsgType::Query, Some(c), MsgData::Query { key: "k".to_string() });
    let reply = sole_reply(&boot.handle_message(&q), &c);
    assert_eq!(reply, "Found (k : vv)");
}

#[test]
fn delete_and_delete_missing() {
    let mut boot = Node::new([127, 0, 0, 1], Some(8000), Some(0), Some(Consistency::Eventual), None);
    boot.init_ring();
    let c = client_info();
    let ins = Message::new(
        MsgType::Insert,
        Some(c),
        MsgData::Insert { key: "foo".to_string(), value: "bar".to_string() },
    );
    boot.handle_message(&ins);
    let del = Message::new(MsgType::Delete, Some(c), MsgData::Delete { key: "foo".to_string() });
    let reply = sole_reply(&boot.handle_message(&del), &c);
    assert_eq!(reply, "Deleted (foo : bar) successfully!");
    let del2 = Message::new(MsgType::Delete, Some(c), MsgData::Delete { key: "foo".to_string() });
    let reply = sole_reply(&boot.handle_message(&del2), &c);
    assert_eq!(reply, "Error: foo doesn't exist");
}

#[test]
fn offline_node_turns_requests_away() {
    // a peer that has not joined yet is offline
    let boot_info = NodeInfo::new([127, 0, 0, 1], 8000);
    let mut peer = Node::new([127, 0, 0, 1], Some(8001), None, None, Some(boot_info));
    let c = client_info();
    let ins = Message::new(
        MsgType::Insert,
        Some(c),
        MsgData::Insert { key: "foo".to_string(), value: "bar".to_string() },
    );
    let reply = sole_reply(&peer.handle_message(&ins), &c);
    let expected = format!("Node {} is offline", peer.get_info().get_id().to_hex());
    assert_eq!(reply, expected);
    // and its store was not touched
    assert_eq!(peer.records.len(), 0);
}

#[test]
fn lone_node_overlay_and_query_all() {
    let mut boot = Node::new([127, 0, 0, 1], Some(8000), Some(0), Some(Consistency::Eventual), None);
    boot.init_ring();
    let c = client_info();
    let ov = Message::new(MsgType::Overlay, Some(c), MsgData::Overlay {});
    let reply = sole_reply(&boot.handle_message(&ov), &c);
    let expected = format_overlay_msg(&vec![boot.get_info()]);
    assert_eq!(reply, expected);

    let ins = Message::new(
        MsgType::Insert,
        Some(c),
        MsgData::Insert { key: "foo".to_string(), value: "bar".to_string() },
    );
    boot.handle_message(&ins);
    let qa = Message::new(MsgType::QueryAll, Some(c), MsgData::QueryAll {});
    let reply = sole_reply(&boot.handle_message(&qa), &c);
    let expected = format_queryall_msg(&vec![
        Item::new("__nodeID__", &boot.get_info().get_id().to_hex(), 0, false),
        Item::new("foo", "bar", 0, false),
    ]);
    assert_eq!(reply, expected);
    assert!(reply.contains("(foo : bar)"));
}

#[test]
fn rejoining_identifier_is_turned_away() {
    let mut boot = Node::new([127, 0, 0, 1], Some(8000), Some(0), Some(Consistency::Eventual), None);
    boot.init_ring();
    let c = client_info();
    // a join request that carries the bootstrap's own identifier
    let rejoin = Message::new(
        MsgType::FwJoin,
        Some(c),
        MsgData::FwJoin { new_node: boot.get_info() },
    );
    let records_before = boot.records.len();
    let reply = sole_reply(&boot.handle_message(&rejoin), &c);
    let expected = format!(
        "Node {} is already part of the network",
        boot.get_info().get_id().to_hex()
    );
    assert_eq!(reply, expected);
    assert_eq!(boot.records.len(), records_before);
    assert!(boot.get_status());
}

#[test]
fn quorum_mode_requests_are_ignored() {
    let mut boot = Node::new([127, 0, 0, 1], Some(8000), Some(0), Some(Consistency::Quorum), None);
    boot.init_ring();
    let c = client_info();
    let ins = Message::new(
        MsgType::Insert,
        Some(c),
        MsgData::Insert { key: "foo".to_string(), value: "bar".to_string() },
    );
    let actions = boot.handle_message(&ins);
    assert!(actions.is_empty());
    assert_eq!(boot.records.len(), 0);
}

#[test]
fn bootstrap_alone_may_depart() {
    let mut boot = Node::new([127, 0, 0, 1], Some(8000), Some(0), Some(Consistency::Eventual), None);
    boot.init_ring();
    let c = client_info();
    let quit = Message::new(MsgType::Quit, Some(c), MsgData::Quit { id: String::new() });
    let reply = sole_reply(&boot.handle_message(&quit), &c);
    assert_eq!(reply, "Bootstrap node has left the network");
    assert!(!boot.get_status());
}
