use ledger_dht::block::Block;
use ledger_dht::client::{prepare_request, RequestDisposition};
use ledger_dht::datagram::{Datagram, DatagramType, Rpc};
use ledger_dht::codec::{decode_datagram, encode_datagram};
use ledger_dht::kademlia::{join_step, KademliaDHT};
use ledger_dht::key::Key;
use ledger_dht::miner::{ConsensusAlgorithm, Miner};
use ledger_dht::node::Node;
use ledger_dht::routing_table::{Bucket, RoutingTable};
use ledger_dht::server::{Dispatch, Server};

fn key_of_byte(pos: usize, value: u8) -> Key {
    let mut bytes = [0u8; 32];
    bytes[pos] = value;
    Key::from_bytes(bytes)
}

fn node_with_id(id: Key, ip: &str, port: u16) -> Node {
    Node { id, ip: ip.to_string(), port }
}

#[test]
fn distance_is_zero_and_symmetric() {
    let a = Node::new("10.0.0.1".to_string(), 4000);
    let b = Node::new("10.0.0.2".to_string(), 4001);
    assert_eq!(a.id.distance(&a.id), [0u8; 32]);
    assert_eq!(a.id.distance(&b.id), b.id.distance(&a.id));
    assert_ne!(a.id.distance(&b.id), [0u8; 32]);
}

#[test]
fn bucket_index_symmetric_and_in_range() {
    let a = Node::new("10.0.0.1".to_string(), 4000);
    let b = Node::new("10.0.0.2".to_string(), 4001);
    let ta = RoutingTable::new(a.clone(), None);
    let tb = RoutingTable::new(b.clone(), None);
    let iab = ta.node_find_bucket_index(&b);
    let iba = tb.node_find_bucket_index(&a);
    assert_eq!(iab, iba);
    assert!(iab <= 255);
}

#[test]
fn bucket_index_exact_values() {
    let zero = node_with_id(Key::from_bytes([0u8; 32]), "0.0.0.0", 1);
    let table = RoutingTable::new(zero.clone(), None);
    // highest bit of the first byte set: index 255
    let top = node_with_id(key_of_byte(0, 0x80), "0.0.0.0", 2);
    assert_eq!(table.node_find_bucket_index(&top), 255);
    // lowest bit of the last byte set: index 0
    let low = node_with_id(key_of_byte(31, 0x01), "0.0.0.0", 3);
    assert_eq!(table.node_find_bucket_index(&low), 0);
    // bit 3 of the last byte: index 3
    let three = node_with_id(key_of_byte(31, 0x08), "0.0.0.0", 4);
    assert_eq!(table.node_find_bucket_index(&three), 3);
}

#[test]
fn update_is_idempotent_for_counts() {
    let me = Node::new("0.0.0.0".to_string(), 1432);
    let other = Node::new("1.2.3.4".to_string(), 999);
    let mut rt = RoutingTable::new(me, None);
    let b = rt.node_find_bucket_index(&other);
    rt.update(other.clone(), None);
    let count_once = rt.buckets[b].nodes.len();
    rt.update(other.clone(), None);
    let count_twice = rt.buckets[b].nodes.len();
    assert_eq!(count_once, 1);
    assert_eq!(count_once, count_twice);
}

#[test]
fn closest_nodes_sorted_and_unique() {
    let me = Node::new("0.0.0.0".to_string(), 1432);
    let mut rt = RoutingTable::new(me, None);
    for p in 0..30u16 {
        rt.update(Node::new("10.1.1.1".to_string(), 2000 + p), None);
    }
    let target = Node::new("1.1.1.1".to_string(), 1540);
    let cl = rt.get_closest_nodes(&target, 7);
    assert_eq!(cl.len(), 7);
    for w in cl.windows(2) {
        assert!(w[0].1 < w[1].1, "distances must ascend strictly");
        assert_ne!(w[0].0.id.0, w[1].0.id.0);
    }
    for pair in &cl {
        assert_eq!(pair.1, pair.0.id.distance(&target.id));
    }
}

fn sample_datagrams() -> Vec<Datagram> {
    let contacts = vec![
        Node::new("1.1.1.1".to_string(), 1540),
        Node::new("8.8.8.8".to_string(), 53),
    ];
    let verbs = vec![
        Rpc::Ping,
        Rpc::Pong,
        Rpc::Store { key: "clé".to_string(), value: "väl".to_string() },
        Rpc::StoreAck,
        Rpc::FindNode { target: Key::new("test".to_string()) },
        Rpc::FindValue { key: "some key".to_string() },
        Rpc::Nodes { contacts },
        Rpc::Value { value: "found".to_string() },
    ];
    verbs
        .into_iter()
        .enumerate()
        .map(|(i, data)| Datagram {
            data_type: match i % 3 {
                0 => DatagramType::REQUEST,
                1 => DatagramType::RESPONSE,
                _ => DatagramType::KILL,
            },
            token_id: format!("token-{}", i),
            source: "127.0.0.1:1234".to_string(),
            destination: "127.0.0.1:8000".to_string(),
            data,
        })
        .collect()
}

fn rpc_eq(a: &Rpc, b: &Rpc) -> bool {
    match (a, b) {
        (Rpc::Ping, Rpc::Ping) => true,
        (Rpc::Pong, Rpc::Pong) => true,
        (Rpc::StoreAck, Rpc::StoreAck) => true,
        (Rpc::Store { key: k1, value: v1 }, Rpc::Store { key: k2, value: v2 }) => {
            k1 == k2 && v1 == v2
        }
        (Rpc::FindNode { target: t1 }, Rpc::FindNode { target: t2 }) => t1.0 == t2.0,
        (Rpc::FindValue { key: k1 }, Rpc::FindValue { key: k2 }) => k1 == k2,
        (Rpc::Value { value: v1 }, Rpc::Value { value: v2 }) => v1 == v2,
        (Rpc::Nodes { contacts: c1 }, Rpc::Nodes { contacts: c2 }) => {
            c1.len() == c2.len()
                && c1.iter().zip(c2.iter()).all(|(x, y)| {
                    x.id.0 == y.id.0 && x.ip == y.ip && x.port == y.port
                })
        }
        _ => false,
    }
}

#[test]
fn datagram_round_trip_every_verb() {
    for d in sample_datagrams() {
        let bytes = encode_datagram(&d);
        let back = decode_datagram(&bytes).expect("an encoded envelope must decode");
        assert_eq!(back.data_type, d.data_type);
        assert_eq!(back.token_id, d.token_id);
        assert_eq!(back.source, d.source);
        assert_eq!(back.destination, d.destination);
        assert!(rpc_eq(&back.data, &d.data));
    }
}

#[test]
fn decode_rejects_garbage() {
    assert!(decode_datagram(&vec![]).is_none());
    assert!(decode_datagram(&vec![9u8, 1, 2, 3]).is_none());
    let mut bytes = encode_datagram(&sample_datagrams()[0]);
    bytes.push(0); // trailing byte: not an exact encoding
    assert!(decode_datagram(&bytes).is_none());
}

#[test]
fn handshake_request_gets_correlated_response() {
    let a = Node::new("127.0.0.1".to_string(), 1234);
    let b = Node::new("127.0.0.1".to_string(), 8000);
    let mut client_side = Server::new(KademliaDHT::new(a.clone(), None));
    let mut server_side = Server::new(KademliaDHT::new(b.clone(), None));

    let request = Datagram {
        data_type: DatagramType::REQUEST,
        token_id: "test".to_string(),
        source: a.get_address(),
        destination: b.get_address(),
        data: Rpc::Ping,
    };

    // the caller registers a waiter, then sends
    let disposition = prepare_request(&mut client_side.app.await_response, &request);
    assert_eq!(disposition, RequestDisposition::Await);
    assert_eq!(client_side.app.await_response.entries.len(), 1);

    // the responder validates and handles the request
    let observed = a.get_address();
    assert_eq!(server_side.dispatch(&request, &observed), Dispatch::Request);
    let response = server_side.request_handler(&request, a.clone());
    assert_eq!(response.data_type, DatagramType::RESPONSE);
    assert_eq!(response.token_id, request.token_id);
    assert_eq!(response.source, request.destination);
    assert_eq!(response.destination, request.source);
    assert!(rpc_eq(&response.data, &Rpc::Pong));

    // the responder learned the sender
    let idx = server_side.app.routing_table.node_find_bucket_index(&a);
    assert_eq!(server_side.app.routing_table.buckets[idx].nodes.len(), 1);

    // the response resolves exactly the pending waiter
    let observed_b = b.get_address();
    assert_eq!(client_side.dispatch(&response, &observed_b), Dispatch::Response);
    let delivered = client_side.response_handler(&response);
    assert!(delivered.is_some());
    assert_eq!(delivered.unwrap().token_id, "test");
    assert_eq!(client_side.app.await_response.entries.len(), 0);
}

#[test]
fn timeout_removes_waiter_without_leak() {
    let a = Node::new("127.0.0.1".to_string(), 8080);
    let mut side = Server::new(KademliaDHT::new(a.clone(), None));
    let request = Datagram {
        data_type: DatagramType::REQUEST,
        token_id: "test".to_string(),
        source: a.get_address(),
        destination: "127.0.0.1:12345".to_string(),
        data: Rpc::Ping,
    };
    assert_eq!(
        prepare_request(&mut side.app.await_response, &request),
        RequestDisposition::Await
    );
    // nothing answers; the timeout resolves the waiter to "no answer"
    let entry = side.app.await_response.resolve(&"test".to_string());
    assert!(entry.is_some());
    assert_eq!(side.app.await_response.entries.len(), 0);
    // a second resolution finds nothing: never delivered twice
    assert!(side.app.await_response.resolve(&"test".to_string()).is_none());
}

#[test]
fn duplicate_token_is_reported() {
    let a = Node::new("127.0.0.1".to_string(), 8080);
    let mut side = Server::new(KademliaDHT::new(a.clone(), None));
    let request = Datagram {
        data_type: DatagramType::REQUEST,
        token_id: "tok".to_string(),
        source: a.get_address(),
        destination: "127.0.0.1:12345".to_string(),
        data: Rpc::Ping,
    };
    assert_eq!(
        prepare_request(&mut side.app.await_response, &request),
        RequestDisposition::Await
    );
    assert_eq!(
        prepare_request(&mut side.app.await_response, &request),
        RequestDisposition::DuplicateToken
    );
    assert_eq!(side.app.await_response.entries.len(), 1);
}

#[test]
fn kill_is_fire_and_forget() {
    let a = Node::new("127.0.0.1".to_string(), 8080);
    let mut side = Server::new(KademliaDHT::new(a.clone(), None));
    let kill = Datagram {
        data_type: DatagramType::KILL,
        token_id: "test".to_string(),
        source: a.get_address(),
        destination: a.get_address(),
        data: Rpc::Ping,
    };
    assert_eq!(
        prepare_request(&mut side.app.await_response, &kill),
        RequestDisposition::FireAndForget
    );
    assert_eq!(side.app.await_response.entries.len(), 0);
    let observed = a.get_address();
    assert_eq!(side.dispatch(&kill, &observed), Dispatch::Kill);
}

#[test]
fn unsolicited_response_is_dropped() {
    let a = Node::new("127.0.0.1".to_string(), 8080);
    let mut side = Server::new(KademliaDHT::new(a.clone(), None));
    let stray = Datagram {
        data_type: DatagramType::RESPONSE,
        token_id: "unknown".to_string(),
        source: "127.0.0.1:9999".to_string(),
        destination: a.get_address(),
        data: Rpc::Pong,
    };
    assert!(side.response_handler(&stray).is_none());
    assert_eq!(side.app.await_response.entries.len(), 0);
}

#[test]
fn mismatched_envelopes_are_discarded() {
    let a = Node::new("127.0.0.1".to_string(), 8080);
    let side = Server::new(KademliaDHT::new(a.clone(), None));
    let misdelivered = Datagram {
        data_type: DatagramType::REQUEST,
        token_id: "t".to_string(),
        source: "127.0.0.1:9999".to_string(),
        destination: "127.0.0.1:7777".to_string(),
        data: Rpc::Ping,
    };
    let observed = "127.0.0.1:9999".to_string();
    assert_eq!(side.dispatch(&misdelivered, &observed), Dispatch::Discard);
    let spoofed = Datagram {
        data_type: DatagramType::REQUEST,
        token_id: "t".to_string(),
        source: "127.0.0.1:6666".to_string(),
        destination: a.get_address(),
        data: Rpc::Ping,
    };
    assert_eq!(side.dispatch(&spoofed, &observed), Dispatch::Discard);
}

#[test]
fn store_then_find_value() {
    let me = Node::new("127.0.0.1".to_string(), 4100);
    let peer = Node::new("127.0.0.1".to_string(), 4101);
    let mut dht = KademliaDHT::new(me.clone(), None);
    let store = Datagram {
        data_type: DatagramType::REQUEST,
        token_id: "s1".to_string(),
        source: peer.get_address(),
        destination: me.get_address(),
        data: Rpc::Store { key: "k".to_string(), value: "v".to_string() },
    };
    let ack = dht.handle_request(&store, peer.clone());
    assert!(rpc_eq(&ack.data, &Rpc::StoreAck));

    let find_known = Datagram {
        data_type: DatagramType::REQUEST,
        token_id: "s2".to_string(),
        source: peer.get_address(),
        destination: me.get_address(),
        data: Rpc::FindValue { key: "k".to_string() },
    };
    let hit = dht.handle_request(&find_known, peer.clone());
    assert!(rpc_eq(&hit.data, &Rpc::Value { value: "v".to_string() }));

    let find_unknown = Datagram {
        data_type: DatagramType::REQUEST,
        token_id: "s3".to_string(),
        source: peer.get_address(),
        destination: me.get_address(),
        data: Rpc::FindValue { key: "missing".to_string() },
    };
    let miss = dht.handle_request(&find_unknown, peer.clone());
    match miss.data {
        Rpc::Nodes { contacts } => assert!(contacts.len() >= 1),
        _ => panic!("an unknown key must be answered with contacts"),
    }
}

#[test]
fn find_node_returns_closest() {
    let me = Node::new("127.0.0.1".to_string(), 4200);
    let peer = Node::new("127.0.0.1".to_string(), 4201);
    let mut dht = KademliaDHT::new(me.clone(), None);
    for p in 0..10u16 {
        let d = Datagram {
            data_type: DatagramType::REQUEST,
            token_id: format!("t{}", p),
            source: peer.get_address(),
            destination: me.get_address(),
            data: Rpc::Ping,
        };
        dht.handle_request(&d, Node::new("10.0.0.9".to_string(), 5000 + p));
    }
    let find = Datagram {
        data_type: DatagramType::REQUEST,
        token_id: "f".to_string(),
        source: peer.get_address(),
        destination: me.get_address(),
        data: Rpc::FindNode { target: peer.id },
    };
    let reply = dht.handle_request(&find, peer.clone());
    match reply.data {
        Rpc::Nodes { contacts } => {
            // 10 pinged contacts plus the peer itself, capped by bucket capacity
            assert_eq!(contacts.len(), 11);
            for w in contacts.windows(2) {
                assert!(w[0].id.distance(&peer.id) < w[1].id.distance(&peer.id));
            }
        }
        _ => panic!("a node lookup must be answered with contacts"),
    }
}

#[test]
fn sha256_key_matches_known_digest() {
    // the digest of the empty string, as every SHA-256 implementation gives it
    let k = Key::new("".to_string());
    assert_eq!(k.0[0], 0xe3);
    assert_eq!(k.0[1], 0xb0);
    assert_eq!(k.0[2], 0xc4);
    assert_eq!(k.0[31], 0x55);
}

#[test]
fn address_formatting() {
    let n = Node::new("127.0.0.1".to_string(), 1234);
    assert_eq!(n.get_address(), "127.0.0.1:1234");
    let z = Node::new("h".to_string(), 0);
    assert_eq!(z.get_address(), "h:0");
}

#[test]
fn miner_consensus_outcomes() {
    // difficulty 0: every nonce proves the work, so mining returns the start
    let easy = Block::new("blk".to_string(), "prev".to_string(), 7, 0);
    assert!(easy.is_valid());
    let mut miner = Miner::new(ConsensusAlgorithm::ProofOfWork);
    assert_eq!(miner.mine_block(easy), 7);
    // the block's identifier was recorded as being mined
    assert_eq!(miner.mining_blocks, vec!["blk".to_string()]);

    let staked = Block::new("blk2".to_string(), "prev".to_string(), 42, 30);
    let mut miner2 = Miner::new(ConsensusAlgorithm::DelegatedProofOfStake);
    assert_eq!(miner2.mine_block(staked), 42);
    assert_eq!(miner2.mining_blocks, vec!["blk2".to_string()]);
}

#[test]
fn bucket_capacity_and_refresh_order() {
    let mut bucket = Bucket::new();
    for v in 1..=21u8 {
        bucket.insert_or_refresh(node_with_id(key_of_byte(31, v), "0.0.0.0", v as u16));
    }
    // the bucket is bounded: the 21st newcomer was dropped
    assert_eq!(bucket.nodes.len(), 20);
    assert_eq!(bucket.nodes[0].id.0[31], 1);
    // re-seeing a known contact moves it to the freshest position
    bucket.insert_or_refresh(node_with_id(key_of_byte(31, 1), "0.0.0.9", 500));
    assert_eq!(bucket.nodes.len(), 20);
    assert_eq!(bucket.nodes[19].id.0[31], 1);
    assert_eq!(bucket.nodes[19].ip, "0.0.0.9");
    // removal by identifier, and a miss changes nothing
    bucket.remove_id(&key_of_byte(31, 1));
    assert_eq!(bucket.nodes.len(), 19);
    bucket.remove_id(&key_of_byte(31, 77));
    assert_eq!(bucket.nodes.len(), 19);
}

#[test]
fn bucket_closest_to_sorted() {
    let mut bucket = Bucket::new();
    for v in [3u8, 1, 2] {
        bucket.insert_or_refresh(node_with_id(key_of_byte(31, v), "0.0.0.0", v as u16));
    }
    let target = node_with_id(Key::from_bytes([0u8; 32]), "0.0.0.0", 9);
    let two = bucket.closest_to(&target, 2);
    assert_eq!(two.len(), 2);
    assert_eq!(two[0].0.id.0[31], 1);
    assert_eq!(two[1].0.id.0[31], 2);
    let all = bucket.closest_to(&target, 10);
    assert_eq!(all.len(), 3);
}

#[test]
fn join_step_picks_fresh_closest_and_stops() {
    let me = Node::new("127.0.0.1".to_string(), 4300);
    let a = Node::new("10.0.0.1".to_string(), 1);
    let b = Node::new("10.0.0.2".to_string(), 2);
    let c = Node::new("10.0.0.3".to_string(), 3);
    let queried = vec![a.get_address()];
    // a was queried already and b appears twice: one fresh copy of b and c remain
    let discovered = vec![a.clone(), b.clone(), b.clone(), c.clone()];
    let (next, done) = join_step(&me, &queried, discovered, 0);
    assert_eq!(next.len(), 2);
    assert!(!done);
    assert!(next.iter().all(|n| n.get_address() != a.get_address()));
    assert!(next[0].id.distance(&me.id) < next[1].id.distance(&me.id));
    // nothing new ends the lookup
    let (none_left, done2) = join_step(&me, &queried, vec![a.clone()], 1);
    assert!(none_left.is_empty());
    assert!(done2);
    // the round budget ends it too
    let (_, done3) = join_step(&me, &queried, vec![b.clone()], 2);
    assert!(done3);
}

#[test]
fn record_contacts_inserts_replies() {
    let me = Node::new("127.0.0.1".to_string(), 4400);
    let mut dht = KademliaDHT::new(me.clone(), None);
    let replies = vec![
        Node::new("10.0.1.1".to_string(), 11),
        Node::new("10.0.1.2".to_string(), 12),
        Node::new("10.0.1.1".to_string(), 11),
        me.clone(),
    ];
    dht.record_contacts(replies);
    // two distinct contacts entered; the duplicate refreshed, self was ignored
    let total: usize = dht.routing_table.buckets.iter().map(|b| b.nodes.len()).sum();
    assert_eq!(total, 2);
}

#[test]
fn simulated_four_node_join() {
    // four nodes around one bootstrap, joined over an in-memory exchange
    let btp = Node::new("0.0.0.0".to_string(), 1432);
    let mut boot = KademliaDHT::new(btp.clone(), None);
    let ports = [1430u16, 1431, 1433];
    let mut members: Vec<KademliaDHT> = ports
        .iter()
        .map(|p| KademliaDHT::new(Node::new("0.0.0.0".to_string(), *p), Some(btp.clone())))
        .collect();
    for m in members.iter_mut() {
        // the joining node asks the bootstrap for the nodes closest to itself
        let find = Datagram {
            data_type: DatagramType::REQUEST,
            token_id: "test".to_string(),
            source: m.node.get_address(),
            destination: btp.get_address(),
            data: Rpc::FindNode { target: m.node.id },
        };
        let reply = boot.handle_request(&find, m.node.clone());
        match reply.data {
            Rpc::Nodes { contacts } => {
                m.record_contacts(contacts.clone());
                let queried = vec![btp.get_address()];
                let (next, _done) = join_step(&m.node, &queried, contacts, 0);
                assert!(next.iter().all(|n| n.get_address() != btp.get_address()));
            }
            _ => panic!("a node lookup must be answered with contacts"),
        }
        m.record_contacts(vec![btp.clone()]);
    }
    // the bootstrap learned all three joiners; a closest query sees them
    let probe = Node::new("0.0.0.0".to_string(), 1431);
    let cls = boot.routing_table.get_closest_nodes(&probe, 20);
    assert_eq!(cls.len(), 3);
    // each joiner knows the bootstrap
    for m in &members {
        let idx = m.routing_table.node_find_bucket_index(&btp);
        assert!(m.routing_table.buckets[idx]
            .nodes
            .iter()
            .any(|n| n.id.0 == btp.id.0));
    }
}
