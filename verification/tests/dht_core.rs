use dht::cache::PeerCache;
use dht::codec::{deserialize_message, deserialize_payload, serialize_message, serialize_payload};
use dht::crypto::{
    dht_key_hash, key_id, sign_node, sign_overlay_node, verify_node_signature,
    verify_overlay_node, verify_value_signatures,
};
use dht::dist::key_distance;
use dht::node::{build_dht_node_info, DhtNode, FindValueSession, PayloadKind, QueryOutcome};
use dht::routing::{Entry, RoutingTable};
use dht::types::{
    Address, AddressList, DhtError, DhtKey, KeyDescription, Message, Node, OverlayNode, Payload,
    PublicKey, UpdateRule, Value,
};

fn addrs(ip: u32, port: u16) -> AddressList {
    AddressList {
        addrs: vec![Address { ip, port }],
        version: 0,
        reinit_date: 0,
        priority: 0,
        expire_at: 0,
    }
}

fn node_with_seed(seed: u8) -> DhtNode {
    let mut secret = [0u8; 32];
    secret[0] = seed;
    secret[31] = seed.wrapping_add(7);
    DhtNode::with_key(secret, addrs(0x7f000001, 4000 + seed as u16))
}

fn secret_of(seed: u8) -> [u8; 32] {
    let mut secret = [0u8; 32];
    secret[0] = seed;
    secret[31] = seed.wrapping_add(7);
    secret
}

#[test]
fn distance_of_equal_keys_is_256() {
    let a = [0xabu8; 32];
    assert_eq!(key_distance(&a, &a), 256);
}

#[test]
fn distance_counts_leading_matching_bits() {
    let a = [0u8; 32];
    let mut b = [0u8; 32];
    b[0] = 0x80;
    assert_eq!(key_distance(&a, &b), 0);
    b[0] = 0x01;
    assert_eq!(key_distance(&a, &b), 7);
    b[0] = 0;
    b[1] = 0x10;
    assert_eq!(key_distance(&a, &b), 11);
    b[1] = 0;
    b[31] = 0x01;
    assert_eq!(key_distance(&a, &b), 255);
}

#[test]
fn add_peer_is_version_monotonic() {
    let mut home = node_with_seed(1);
    let peer_secret = secret_of(2);
    let pub_key = dht::crypto::ed25519_public_key(&peer_secret);
    let base = Node {
        id: PublicKey::Ed25519 { key: pub_key },
        addr_list: addrs(0x7f000002, 4100),
        version: 5,
        signature: Vec::new(),
    };
    let v5 = sign_node(&base, &peer_secret);
    let mut newer = base.clone();
    newer.version = 9;
    let v9 = sign_node(&newer, &peer_secret);
    let mut older = base.clone();
    older.version = 3;
    let v3 = sign_node(&older, &peer_secret);

    assert!(home.add_peer(&v5).is_some());
    assert!(home.add_peer(&v9).is_some());
    assert!(home.add_peer(&v3).is_some());
    let known = home.get_known_nodes(10).unwrap();
    assert_eq!(known.len(), 1);
    assert_eq!(known[0].version, 9);
}

#[test]
fn add_peer_rejects_bad_signature() {
    let mut home = node_with_seed(1);
    let peer = node_with_seed(3);
    let mut descriptor = peer.get_signed_node();
    descriptor.version = descriptor.version.wrapping_add(1);
    assert!(home.add_peer(&descriptor).is_none());
    assert_eq!(home.get_known_nodes(10).unwrap().len(), 0);
}

#[test]
fn signed_store_is_ttl_monotonic_and_rejects_expired() {
    let mut home = node_with_seed(4);
    let now: i64 = 1_000_000;
    let name = b"address".to_vec();
    let payload = serialize_payload(&Payload::AddressList { list: addrs(1, 2) });
    let value = home.sign_value(&name, payload.clone(), now);
    let hash = dht_key_hash(&value.key.key);

    // expired stores are no-ops
    let mut stale = value.clone();
    stale.ttl = now;
    assert_eq!(
        home.process_store_signed_value(hash, stale, now),
        Err(DhtError::Expired)
    );
    assert!(home.search_dht_key(&hash, now).is_none());

    assert_eq!(home.process_store_signed_value(hash, value.clone(), now), Ok(true));
    // a second store with the same ttl does not replace
    assert_eq!(home.process_store_signed_value(hash, value.clone(), now), Ok(false));
    // a longer-lived record replaces
    let longer = home.sign_value(&name, payload, now + 100);
    assert_eq!(home.process_store_signed_value(hash, longer, now), Ok(true));
    let stored = home.search_dht_key(&hash, now).unwrap();
    assert_eq!(stored.ttl, now + 100 + 3600);
}

#[test]
fn signed_store_rejects_tampered_value() {
    let mut home = node_with_seed(4);
    let now: i64 = 1_000_000;
    let payload = serialize_payload(&Payload::AddressList { list: addrs(1, 2) });
    let mut value = home.sign_value(&b"address".to_vec(), payload, now);
    let hash = dht_key_hash(&value.key.key);
    value.value.push(0xff);
    assert_eq!(
        home.process_store_signed_value(hash, value, now),
        Err(DhtError::SignatureInvalid)
    );
}

fn overlay_member(overlay_name: &[u8], seed: u8, version: i32) -> OverlayNode {
    let short = key_id(&PublicKey::Overlay { name: overlay_name.to_vec() });
    let secret = secret_of(seed);
    let pub_key = dht::crypto::ed25519_public_key(&secret);
    let unsigned = OverlayNode {
        id: PublicKey::Ed25519 { key: pub_key },
        overlay: short,
        version,
        signature: Vec::new(),
    };
    sign_overlay_node(&unsigned, &secret)
}

fn overlay_value(overlay_name: &[u8], members: Vec<OverlayNode>, ttl: i64) -> ([u8; 32], Value) {
    let short = key_id(&PublicKey::Overlay { name: overlay_name.to_vec() });
    let key = DhtKey { id: short, idx: 0, name: b"nodes".to_vec() };
    let value = Value {
        key: KeyDescription {
            id: PublicKey::Overlay { name: overlay_name.to_vec() },
            key: key.clone(),
            update_rule: UpdateRule::OverlayNodes,
            signature: Vec::new(),
        },
        value: serialize_payload(&Payload::OverlayNodes { nodes: members }),
        ttl,
        signature: Vec::new(),
    };
    (dht_key_hash(&key), value)
}

#[test]
fn overlay_store_merges_by_greatest_version() {
    let mut home = node_with_seed(5);
    let now: i64 = 2_000_000;
    let overlay = b"test-overlay";
    let x1 = overlay_member(overlay, 10, 1);
    let x2 = overlay_member(overlay, 10, 2);
    let y1 = overlay_member(overlay, 11, 1);

    let (hash, first) = overlay_value(overlay, vec![x1.clone()], now + 600);
    assert_eq!(home.process_store_overlay_nodes(hash, first, now), Ok(true));

    let (_, second) = overlay_value(overlay, vec![x2.clone(), y1.clone()], now + 600);
    assert_eq!(home.process_store_overlay_nodes(hash, second, now), Ok(true));

    let stored = home.search_dht_key(&hash, now).unwrap();
    let merged = match deserialize_payload(&stored.value) {
        Some(Payload::OverlayNodes { nodes }) => nodes,
        other => panic!("stored payload was not an overlay list: {:?}", other),
    };
    assert_eq!(merged.len(), 2);
    assert!(merged.contains(&x2));
    assert!(merged.contains(&y1));
    assert!(!merged.contains(&x1));

    // a stale store of x1 again is a no-op
    let (_, third) = overlay_value(overlay, vec![x1.clone()], now + 600);
    assert_eq!(home.process_store_overlay_nodes(hash, third, now), Ok(false));
}

#[test]
fn overlay_store_rejects_wrong_key_and_invalid_members() {
    let mut home = node_with_seed(5);
    let now: i64 = 2_000_000;
    let overlay = b"test-overlay";
    let x1 = overlay_member(overlay, 10, 1);

    // wrong structured key
    let (_, mut wrong) = overlay_value(overlay, vec![x1.clone()], now + 600);
    wrong.key.key.name = b"other".to_vec();
    let hash = dht_key_hash(&wrong.key.key);
    assert_eq!(
        home.process_store_overlay_nodes(hash, wrong, now),
        Err(DhtError::MalformedMessage)
    );

    // members of another overlay are dropped; none survive, so rejected
    let foreign = overlay_member(b"another-overlay", 12, 1);
    let (hash2, bad) = overlay_value(overlay, vec![foreign], now + 600);
    assert_eq!(
        home.process_store_overlay_nodes(hash2, bad, now),
        Err(DhtError::MalformedMessage)
    );

    // a non-empty signature is refused
    let (hash3, mut signed) = overlay_value(overlay, vec![x1], now + 600);
    signed.signature = vec![1, 2, 3];
    assert_eq!(
        home.process_store_overlay_nodes(hash3, signed, now),
        Err(DhtError::SignatureInvalid)
    );
}

fn key_at_distance(local: &[u8; 32], d: usize) -> [u8; 32] {
    let mut k = *local;
    k[d / 8] ^= 0x80u8 >> (d % 8);
    k
}

#[test]
fn find_node_returns_three_nearest_of_four() {
    let local = [0x55u8; 32];
    let base = node_with_seed(9).get_signed_node();
    let ds = [3usize, 5, 5, 17];
    let mut entries = Vec::new();
    for (i, d) in ds.iter().enumerate() {
        let mut kid = key_at_distance(&local, *d);
        if i == 2 {
            // the second peer of the same bucket differs in a later bit
            kid[31] ^= 1;
        }
        let mut n = base.clone();
        n.version = (*d as i32) * 100 + i as i32;
        entries.push(Entry { key_id: kid, node: n });
    }
    for (e, d) in entries.iter().zip(ds.iter()) {
        assert_eq!(key_distance(&local, &e.key_id) as usize, *d);
    }
    let table = RoutingTable { local_id: local, entries };

    let found = table.find_k_closest(&local, 3);
    assert_eq!(found.len(), 3);
    let versions: Vec<i32> = found.iter().map(|n| n.version).collect();
    assert_eq!(versions[0], 300);
    assert!(versions.contains(&501));
    assert!(versions.contains(&502));
    assert!(!versions.contains(&1703));

    // asking for more than there is returns everything, farthest-matching last
    let all = table.find_k_closest(&local, 10);
    assert_eq!(all.len(), 4);
    assert_eq!(all[0].version, 300);
    assert_eq!(all[3].version, 1703);
}

#[test]
fn message_round_trips() {
    let peer = node_with_seed(6).get_signed_node();
    let value = {
        let home = node_with_seed(7);
        home.sign_value(
            &b"address".to_vec(),
            serialize_payload(&Payload::AddressList { list: addrs(9, 9) }),
            1_000,
        )
    };
    let messages = vec![
        Message::Ping { random_id: 0x0123456789abcdef },
        Message::Pong { random_id: -1 },
        Message::FindNode { key: [7u8; 32], k: 10 },
        Message::FindValue { key: [9u8; 32], k: 6 },
        Message::GetSignedAddressList,
        Message::Store { value: value.clone() },
        Message::Nodes { nodes: vec![peer.clone(), peer.clone()] },
        Message::ValueFound { value: value.clone() },
        Message::ValueNotFound { nodes: vec![peer.clone()] },
        Message::Stored,
        Message::Query { node: peer.clone() },
        Message::NodeInfo { node: peer.clone() },
    ];
    for m in messages {
        let bytes = serialize_message(&m);
        assert_eq!(deserialize_message(&bytes), Some(m.clone()));
    }
    let payloads = vec![
        Payload::AddressList { list: addrs(1, 2) },
        Payload::OverlayNodes {
            nodes: vec![overlay_member(b"ov", 13, 4)],
        },
    ];
    for p in payloads {
        let bytes = serialize_payload(&p);
        assert_eq!(deserialize_payload(&bytes), Some(p.clone()));
    }
}

#[test]
fn truncated_messages_do_not_decode() {
    let m = Message::Ping { random_id: 77 };
    let mut bytes = serialize_message(&m);
    bytes.pop();
    assert_eq!(deserialize_message(&bytes), None);
    let mut longer = serialize_message(&m);
    longer.push(0);
    assert_eq!(deserialize_message(&longer), None);
}

#[test]
fn sign_verify_round_trip() {
    let home = node_with_seed(8);
    let descriptor = home.get_signed_node();
    assert!(verify_node_signature(&descriptor));
    let mut broken = descriptor.clone();
    broken.signature[0] ^= 1;
    assert!(!verify_node_signature(&broken));

    let value = home.sign_value(
        &b"address".to_vec(),
        serialize_payload(&Payload::AddressList { list: addrs(5, 6) }),
        500,
    );
    assert!(verify_value_signatures(&value));
    let mut tampered = value.clone();
    tampered.ttl += 1;
    assert!(!verify_value_signatures(&tampered));

    let member = overlay_member(b"ov", 14, 1);
    let short = key_id(&PublicKey::Overlay { name: b"ov".to_vec() });
    assert!(verify_overlay_node(&short, &member));
    let other = key_id(&PublicKey::Overlay { name: b"ov2".to_vec() });
    assert!(!verify_overlay_node(&other, &member));
}

#[test]
fn ping_echo() {
    let a = node_with_seed(20);
    let mut b = node_with_seed(21);
    let query = Message::Ping { random_id: 0x0123456789abcdef };
    let outcome = b.try_consume_query(query, 1_000).unwrap();
    let reply = match outcome {
        QueryOutcome::Consumed { reply } => reply,
        other => panic!("ping was not consumed: {:?}", describe(&other)),
    };
    assert_eq!(reply, Message::Pong { random_id: 0x0123456789abcdef });
    assert!(DhtNode::check_pong(0x0123456789abcdef, &Some(reply)));
    assert!(!DhtNode::check_pong(1, &Some(Message::Pong { random_id: 2 })));
    let _ = a;
}

fn describe(o: &QueryOutcome) -> &'static str {
    match o {
        QueryOutcome::Consumed { .. } => "consumed",
        QueryOutcome::Rejected { .. } => "rejected",
        QueryOutcome::RejectedBundle { .. } => "rejected bundle",
    }
}

#[test]
fn store_then_find_value() {
    let a = node_with_seed(22);
    let mut b = node_with_seed(23);
    let now: i64 = 3_000_000;
    let value = a.sign_value(&b"address".to_vec(), b"hello".to_vec(), now);
    let hash = dht_key_hash(&value.key.key);

    let outcome = b
        .try_consume_query(Message::Store { value: value.clone() }, now)
        .unwrap();
    match outcome {
        QueryOutcome::Consumed { reply } => assert_eq!(reply, Message::Stored),
        other => panic!("store was not consumed: {}", describe(&other)),
    }

    let outcome = b
        .try_consume_query(Message::FindValue { key: hash, k: 6 }, now)
        .unwrap();
    match outcome {
        QueryOutcome::Consumed { reply } => match reply {
            Message::ValueFound { value: found } => {
                assert_eq!(found.value, b"hello".to_vec());
                assert!(verify_value_signatures(&found));
            }
            other => panic!("unexpected reply: {:?}", other),
        },
        other => panic!("find-value was not consumed: {}", describe(&other)),
    }
}

#[test]
fn find_value_misses_return_known_nodes() {
    let mut b = node_with_seed(24);
    let peer = node_with_seed(25).get_signed_node();
    assert!(b.add_peer(&peer).is_some());
    let outcome = b
        .try_consume_query(Message::FindValue { key: [1u8; 32], k: 6 }, 10)
        .unwrap();
    match outcome {
        QueryOutcome::Consumed { reply } => match reply {
            Message::ValueNotFound { nodes } => {
                assert_eq!(nodes.len(), 1);
                assert_eq!(nodes[0], peer);
            }
            other => panic!("unexpected reply: {:?}", other),
        },
        other => panic!("find-value was not consumed: {}", describe(&other)),
    }
}

#[test]
fn expired_record_is_absent_and_replaceable() {
    let mut home = node_with_seed(26);
    let now: i64 = 5_000;
    let value = home.sign_value(&b"address".to_vec(), b"x".to_vec(), now - 3601 - 1);
    assert_eq!(value.ttl, now - 2);
    let hash = dht_key_hash(&value.key.key);
    // ttl = now - 2 is already expired at `now`, rejected outright
    assert_eq!(
        home.process_store_signed_value(hash, value, now),
        Err(DhtError::Expired)
    );
    assert!(home.search_dht_key(&hash, now).is_none());

    // a record accepted earlier but expired by now is not returned
    let early = home.sign_value(&b"address".to_vec(), b"x".to_vec(), now - 3601);
    assert_eq!(early.ttl, now - 1);
    assert_eq!(
        home.process_store_signed_value(hash, early, now - 3600),
        Ok(true)
    );
    assert!(home.search_dht_key(&hash, now).is_none());

    // a subsequent fresh store of the same hash succeeds and is readable
    let fresh = home.sign_value(&b"address".to_vec(), b"y".to_vec(), now - 3540);
    assert_eq!(fresh.ttl, now + 60);
    assert_eq!(home.process_store_signed_value(hash, fresh, now), Ok(true));
    let read = home.search_dht_key(&hash, now).unwrap();
    assert_eq!(read.value, b"y".to_vec());
}

#[test]
fn bundle_adds_peer_and_answers_ping() {
    let a = node_with_seed(27);
    let mut b = node_with_seed(28);
    let descriptor = a.get_signed_node();
    let bundle = vec![
        Message::Query { node: descriptor.clone() },
        Message::Ping { random_id: 42 },
    ];
    let outcome = b.try_consume_query_bundle(bundle, 100).unwrap();
    match outcome {
        QueryOutcome::Consumed { reply } => assert_eq!(reply, Message::Pong { random_id: 42 }),
        other => panic!("bundle was not consumed: {}", describe(&other)),
    }
    let known = b.get_known_nodes(10).unwrap();
    assert_eq!(known.len(), 1);
    assert_eq!(known[0], descriptor);
}

#[test]
fn malformed_bundles_are_rejected_without_side_effects() {
    let a = node_with_seed(27);
    let mut b = node_with_seed(28);
    let descriptor = a.get_signed_node();

    let one = vec![Message::Ping { random_id: 1 }];
    match b.try_consume_query_bundle(one, 100).unwrap() {
        QueryOutcome::RejectedBundle { queries } => assert_eq!(queries.len(), 1),
        other => panic!("short bundle not rejected: {}", describe(&other)),
    }
    let three = vec![
        Message::Query { node: descriptor.clone() },
        Message::Ping { random_id: 1 },
        Message::Ping { random_id: 2 },
    ];
    match b.try_consume_query_bundle(three, 100).unwrap() {
        QueryOutcome::RejectedBundle { queries } => assert_eq!(queries.len(), 3),
        other => panic!("long bundle not rejected: {}", describe(&other)),
    }
    let no_envelope = vec![Message::Ping { random_id: 1 }, Message::Ping { random_id: 2 }];
    match b.try_consume_query_bundle(no_envelope, 100).unwrap() {
        QueryOutcome::RejectedBundle { queries } => assert_eq!(queries.len(), 2),
        other => panic!("bare bundle not rejected: {}", describe(&other)),
    }
    assert_eq!(b.get_known_nodes(10).unwrap().len(), 0);

    // a bundle whose second message is no query at all is an error
    let bad = vec![
        Message::Query { node: descriptor },
        Message::Stored,
    ];
    assert!(matches!(
        b.try_consume_query_bundle(bad, 100),
        Err(DhtError::Unsupported)
    ));
}

#[test]
fn unknown_queries_are_rejected() {
    let mut b = node_with_seed(29);
    match b.try_consume_query(Message::Stored, 100).unwrap() {
        QueryOutcome::Rejected { query } => assert_eq!(query, Message::Stored),
        other => panic!("reply message was consumed: {}", describe(&other)),
    }
}

#[test]
fn get_signed_address_list_returns_verifying_descriptor() {
    let mut b = node_with_seed(30);
    match b.try_consume_query(Message::GetSignedAddressList, 100).unwrap() {
        QueryOutcome::Consumed { reply } => match reply {
            Message::NodeInfo { node } => {
                assert!(verify_node_signature(&node));
                assert_eq!(key_id(&node.id), b.key());
            }
            other => panic!("unexpected reply: {:?}", other),
        },
        other => panic!("not consumed: {}", describe(&other)),
    }
}

#[test]
fn peer_cache_cursor_survives_growth() {
    let mut cache = PeerCache::with_limit(8);
    assert!(cache.put([1u8; 32]));
    assert!(cache.put([2u8; 32]));
    assert!(!cache.put([1u8; 32]));
    let (mut cursor, first) = cache.first();
    assert_eq!(first, Some([1u8; 32]));
    assert_eq!(cache.next(&mut cursor), Some([2u8; 32]));
    assert_eq!(cache.next(&mut cursor), None);
    assert_eq!(cache.given(&cursor), Some([2u8; 32]));
    assert!(cache.put([3u8; 32]));
    assert_eq!(cache.next(&mut cursor), Some([3u8; 32]));
    assert_eq!(cache.count(), 3);
}

#[test]
fn peer_cache_respects_its_bound() {
    let mut cache = PeerCache::with_limit(2);
    assert!(cache.put([1u8; 32]));
    assert!(cache.put([2u8; 32]));
    assert!(!cache.put([3u8; 32]));
    assert_eq!(cache.count(), 2);
}

#[test]
fn lookup_session_limits_fanout_and_stops() {
    let mut s = FindValueSession::new_session([0u8; 32], false);
    assert!(s.can_spawn());
    for _ in 0..5 {
        s.spawned();
    }
    assert!(!s.can_spawn());
    assert!(!s.should_stop());
    s.completed(None);
    assert!(!s.should_stop());
    let home = node_with_seed(31);
    let value = home.sign_value(&b"address".to_vec(), b"z".to_vec(), 100);
    s.completed(Some((
        value.key.clone(),
        Payload::AddressList { list: addrs(1, 1) },
    )));
    assert!(s.should_stop());

    let mut all = FindValueSession::new_session([0u8; 32], true);
    all.spawned();
    all.completed(Some((value.key.clone(), Payload::AddressList { list: addrs(1, 1) })));
    assert!(!all.should_stop());
    all.mark_finished();
    assert!(all.should_stop());
}

#[test]
fn classify_value_reply_checks_kind() {
    let home = node_with_seed(32);
    let list = addrs(3, 4);
    let payload = serialize_payload(&Payload::AddressList { list: list.clone() });
    let value = home.sign_value(&b"address".to_vec(), payload, 100);
    let reply = Some(Message::ValueFound { value: value.clone() });
    match DhtNode::classify_value_reply(reply.clone(), PayloadKind::AddressList) {
        dht::node::ValueReplyAction::Found { payload, .. } => {
            assert_eq!(payload, Payload::AddressList { list });
        }
        _ => panic!("address payload was not accepted"),
    }
    match DhtNode::classify_value_reply(reply, PayloadKind::OverlayNodes) {
        dht::node::ValueReplyAction::Ignore => {}
        _ => panic!("mismatched kind was not ignored"),
    }
    let peer = node_with_seed(33).get_signed_node();
    match DhtNode::classify_value_reply(
        Some(Message::ValueNotFound { nodes: vec![peer.clone()] }),
        PayloadKind::AddressList,
    ) {
        dht::node::ValueReplyAction::AddPeers { nodes } => assert_eq!(nodes, vec![peer]),
        _ => panic!("peer suggestions were dropped"),
    }
}

#[test]
fn store_ip_address_is_locally_readable() {
    let mut home = node_with_seed(34);
    let now: i64 = 40_000;
    let (key, value) = home.store_ip_address(now);
    assert!(verify_value_signatures(&value));
    let hash = dht_key_hash(&key);
    let read = home.search_dht_key(&hash, now).unwrap();
    assert_eq!(read, value);
    let own_key = home.key();
    let fetched = home.fetch_address(&own_key, now).unwrap().unwrap();
    assert_eq!(fetched.0, addrs(0x7f000001, 4034));
    assert!(DhtNode::check_stored_address(
        &vec![(value.key.clone(), Payload::AddressList { list: fetched.0.clone() })],
        &fetched.0,
    ));
}

#[test]
fn store_overlay_node_is_locally_readable() {
    let mut home = node_with_seed(35);
    let now: i64 = 41_000;
    let overlay = b"my-overlay".to_vec();
    let member = overlay_member(&overlay, 36, 3);
    let (key, value) = home.store_overlay_node(&overlay, &member, now).unwrap();
    assert_eq!(value.key.update_rule, UpdateRule::OverlayNodes);
    let hash = dht_key_hash(&key);
    let read = home.search_dht_key(&hash, now).unwrap();
    match deserialize_payload(&read.value) {
        Some(Payload::OverlayNodes { nodes }) => {
            assert_eq!(nodes, vec![member.clone()]);
            assert!(DhtNode::check_stored_overlay_node(
                &vec![(value.key.clone(), Payload::OverlayNodes { nodes })],
                &member,
            ));
        }
        other => panic!("stored payload was wrong: {:?}", other),
    }
    // a node of some other overlay is refused
    let foreign = overlay_member(b"not-mine", 37, 1);
    assert!(home.store_overlay_node(&overlay, &foreign, now).is_err());
}

#[test]
fn build_dht_node_info_checks_key_material() {
    // 32 bytes of 0x01, standard base64 with padding
    let key_b64 = "AQEBAQEBAQEBAQEBAQEBAQEBAQEBAQEBAQEBAQEBAQE=";
    let node = build_dht_node_info(0x01020304, 9000, key_b64, "c2ln").unwrap();
    assert_eq!(node.version, -1);
    assert_eq!(node.id, PublicKey::Ed25519 { key: [1u8; 32] });
    assert_eq!(node.signature, b"sig".to_vec());
    assert_eq!(node.addr_list.addrs, vec![Address { ip: 0x01020304, port: 9000 }]);
    assert!(build_dht_node_info(1, 1, "AQID", "c2ln").is_err());
    assert!(build_dht_node_info(1, 1, "!!!not base64!!!", "c2ln").is_err());
}

#[test]
fn prepare_queries_have_expected_shape() {
    let home = node_with_seed(38);
    let (msg, id) = home.prepare_ping();
    assert_eq!(msg, Message::Ping { random_id: id });
    let fq = home.prepare_find_node_query();
    assert_eq!(fq, Message::FindNode { key: home.key(), k: 10 });
    let key = DhtNode::dht_key_from_key_id(&home.key(), &b"address".to_vec());
    let (fv, hash) = DhtNode::prepare_find_value(&key);
    assert_eq!(fv, Message::FindValue { key: hash, k: 6 });
    assert_eq!(hash, dht_key_hash(&key));
    assert!(!home.query_prefix().is_empty());
}

#[test]
fn query_prefix_decodes_to_signed_envelope() {
    let home = node_with_seed(40);
    let prefix = home.query_prefix().clone();
    match deserialize_message(&prefix) {
        Some(Message::Query { node }) => {
            assert!(verify_node_signature(&node));
            assert_eq!(node.id, PublicKey::Ed25519 { key: home.public_key() });
        }
        other => panic!("prefix decoded to {:?}", other),
    }
}

#[test]
fn known_peer_cursor_walks_the_cache() {
    let mut home = node_with_seed(41);
    let p1 = node_with_seed(42).get_signed_node();
    let p2 = node_with_seed(43).get_signed_node();
    let k1 = home.add_peer(&p1).unwrap();
    let k2 = home.add_peer(&p2).unwrap();

    let mut iter = None;
    assert_eq!(home.get_known_peer(&mut iter), Some(k1));
    assert_eq!(home.get_given_peer(&iter), Some(k1));
    assert_eq!(home.get_known_peer(&mut iter), Some(k2));
    assert_eq!(home.get_known_peer(&mut iter), None);
    assert_eq!(home.get_given_peer(&iter), Some(k2));

    let mut fresh = None;
    let empty = node_with_seed(44);
    assert_eq!(empty.get_known_peer(&mut fresh), None);
    assert!(fresh.is_some());
    assert_eq!(empty.get_given_peer(&fresh), None);
}

#[test]
fn store_round_next_decides() {
    assert_eq!(dht::node::store_round_next(true, false), dht::node::StoreAction::Finish { ok: true });
    assert_eq!(dht::node::store_round_next(true, true), dht::node::StoreAction::Finish { ok: true });
    assert_eq!(dht::node::store_round_next(false, true), dht::node::StoreAction::Repeat);
    assert_eq!(dht::node::store_round_next(false, false), dht::node::StoreAction::Finish { ok: false });
}

#[test]
fn overlay_search_takes_each_id_once_and_keeps_unresolved() {
    let overlay = b"search-overlay";
    let a1 = overlay_member(overlay, 50, 1);
    let a2 = overlay_member(overlay, 50, 2);  // same key id as a1
    let b = overlay_member(overlay, 51, 1);

    let mut search = dht::node::OverlaySearch::new_search();
    let mut batch = vec![a1.clone(), a2.clone(), b.clone()];
    search.push_members(&mut batch);
    assert!(batch.is_empty());

    // members come from the end of the pending list; the duplicate id is skipped
    let first = search.next_member().unwrap();
    assert_eq!(first, b);
    let second = search.next_member().unwrap();
    assert_eq!(second, a2);
    assert_eq!(search.next_member(), None);

    // an unresolved member returns to pending but its id stays taken
    search.resolved(second, None);
    assert_eq!(search.next_member(), None);

    // a resolved member joins the found list and ends the search
    assert!(!search.should_stop(false));
    search.resolved(first.clone(), Some(addrs(8, 8)));
    assert!(search.should_stop(false));
    assert_eq!(search.found, vec![(addrs(8, 8), first)]);
    assert!(search.should_stop(true));
}

#[test]
fn rejected_query_message_is_handed_back() {
    let a = node_with_seed(45);
    let mut b = node_with_seed(46);
    let envelope = Message::Query { node: a.get_signed_node() };
    match b.try_consume_query(envelope.clone(), 100).unwrap() {
        QueryOutcome::Rejected { query } => assert_eq!(query, envelope),
        other => panic!("solo envelope was consumed: {}", describe(&other)),
    }
}
