use blockchain_consensus::coordinator::{ConnectionState, Coordinator, NetAction};
use blockchain_consensus::error::NetworkError;
use blockchain_consensus::node::RegularNode;
use blockchain_consensus::protocol::P2PMessage;

fn over_the_wire(m: &P2PMessage) -> P2PMessage {
    let bytes = m.to_bytes().unwrap();
    P2PMessage::from_bytes(&bytes).unwrap()
}

#[test]
fn first_message_must_be_join() {
    let mut coord = Coordinator::new();
    let heartbeat = P2PMessage::Heartbeat {
        node_id: "nodeA".to_string(),
        timestamp: 1,
    };
    let (state, result) = coord.connection_step(ConnectionState::AwaitingJoin, &heartbeat, 10);
    assert!(matches!(state, ConnectionState::AwaitingJoin));
    assert!(matches!(result, Err(NetworkError::InvalidMessage(_))));
    assert!(coord.peer_list().is_empty());
}

#[test]
fn join_registers_and_announces_peers() {
    let mut coord = Coordinator::new();
    let node = RegularNode::new("nodeA".to_string());
    let join = over_the_wire(&node.join_message(5));
    let (state, result) = coord.connection_step(ConnectionState::AwaitingJoin, &join, 10);
    match state {
        ConnectionState::Registered { peer_id } => assert_eq!(peer_id, "nodeA"),
        _ => panic!("connection not registered"),
    }
    let actions = result.unwrap();
    assert_eq!(actions.len(), 2);
    match &actions[0] {
        NetAction::Reply(P2PMessage::PeerList { peers }) => assert!(peers.is_empty()),
        _ => panic!("expected a PeerList reply to the joiner"),
    }
    match &actions[1] {
        NetAction::Broadcast(P2PMessage::PeerList { peers }) => {
            assert_eq!(peers.len(), 1);
            assert_eq!(peers[0].node_id, "nodeA");
            assert_eq!(peers[0].last_seen, 10);
        },
        _ => panic!("expected a PeerList broadcast"),
    }
}

#[test]
fn chain_sync_scenario() {
    // Coordinator up; node A joins; A requests the chain; the reply carries
    // the one-block genesis chain; A's local chain length becomes 1.
    let mut coord = Coordinator::new();
    let mut node = RegularNode::new("nodeA".to_string());
    let join = over_the_wire(&node.join_message(5));
    let (state, _) = coord.connection_step(ConnectionState::AwaitingJoin, &join, 10);
    let request = over_the_wire(&node.sync_request());
    let (_, result) = coord.connection_step(state, &request, 11);
    let actions = result.unwrap();
    assert_eq!(actions.len(), 1);
    let reply = match &actions[0] {
        NetAction::Reply(m) => over_the_wire(m),
        _ => panic!("expected a reply"),
    };
    match &reply {
        P2PMessage::BlockchainSync { chain } => assert_eq!(chain.len(), 1),
        _ => panic!("expected a BlockchainSync reply"),
    }
    node.handle_message(reply);
    assert_eq!(node.blockchain.chain.len(), 1);
    assert_eq!(
        node.blockchain.chain[0].hash,
        coord.blockchain.chain[0].hash
    );
}

#[test]
fn transaction_relay_scenario() {
    // Two nodes connected; A submits a transaction; B's mempool mirror ends
    // up holding it: one pending transaction.
    let mut coord = Coordinator::new();
    let mut node_a = RegularNode::new("nodeA".to_string());
    let mut node_b = RegularNode::new("nodeB".to_string());
    let announce = node_a
        .submit_transaction("alice".to_string(), "bob".to_string(), 30)
        .unwrap();
    assert_eq!(node_a.mempool.size(), 1);
    let received = over_the_wire(&announce);
    let actions = coord.handle_message("nodeA", &received);
    assert_eq!(coord.mempool.size(), 1);
    assert_eq!(actions.len(), 1);
    let (relay_for_b, relay_for_a) = match &actions[0] {
        NetAction::Broadcast(m) => (over_the_wire(m), over_the_wire(m)),
        _ => panic!("expected a broadcast relay"),
    };
    node_b.handle_message(relay_for_b);
    assert_eq!(node_b.mempool.size(), 1);
    let pending = node_b.mempool.get_all();
    assert_eq!(pending[0].from, "alice");
    assert_eq!(pending[0].to, "bob");
    assert_eq!(pending[0].amount, 30);
    // The origin tolerates its own relay: deduplication keeps one entry.
    node_a.handle_message(relay_for_a);
    assert_eq!(node_a.mempool.size(), 1);
}

#[test]
fn duplicate_relay_reaches_the_coordinator_once() {
    let mut coord = Coordinator::new();
    let mut node = RegularNode::new("nodeA".to_string());
    let announce = node
        .submit_transaction("alice".to_string(), "bob".to_string(), 30)
        .unwrap();
    let first = coord.handle_message("nodeA", &announce);
    assert_eq!(first.len(), 1);
    // The same transaction arriving again is dropped and not re-relayed.
    let second = coord.handle_message("nodeA", &announce);
    assert!(second.is_empty());
    assert_eq!(coord.mempool.size(), 1);
}

#[test]
fn heartbeat_refreshes_last_seen_and_pongs() {
    let mut coord = Coordinator::new();
    let join = P2PMessage::Join {
        node_id: "nodeA".to_string(),
        address: "addr".to_string(),
        timestamp: 1,
    };
    coord.handle_join(&join, 10).unwrap();
    let hb = P2PMessage::Heartbeat {
        node_id: "nodeA".to_string(),
        timestamp: 99,
    };
    let actions = coord.handle_message("nodeA", &hb);
    assert_eq!(actions.len(), 1);
    match &actions[0] {
        NetAction::Reply(P2PMessage::Pong { node_id }) => assert_eq!(node_id, "bootstrap"),
        _ => panic!("expected a Pong reply"),
    }
    assert_eq!(coord.peer_list()[0].last_seen, 99);
}

#[test]
fn stale_peers_are_evicted_and_the_rest_informed() {
    let mut coord = Coordinator::new();
    let join_a = P2PMessage::Join {
        node_id: "nodeA".to_string(),
        address: "a".to_string(),
        timestamp: 0,
    };
    let join_b = P2PMessage::Join {
        node_id: "nodeB".to_string(),
        address: "b".to_string(),
        timestamp: 0,
    };
    coord.handle_join(&join_a, 0).unwrap();
    coord.handle_join(&join_b, 90).unwrap();
    let (removed, actions) = coord.evict_stale(100, 60);
    assert_eq!(removed, vec!["nodeA".to_string()]);
    let list = coord.peer_list();
    assert_eq!(list.len(), 1);
    assert_eq!(list[0].node_id, "nodeB");
    assert_eq!(actions.len(), 1);
    match &actions[0] {
        NetAction::Broadcast(P2PMessage::PeerList { peers }) => assert_eq!(peers.len(), 1),
        _ => panic!("expected a PeerList broadcast"),
    }
}

#[test]
fn removing_a_peer_announces_the_remainder() {
    let mut coord = Coordinator::new();
    let join = P2PMessage::Join {
        node_id: "nodeA".to_string(),
        address: "a".to_string(),
        timestamp: 0,
    };
    coord.handle_join(&join, 0).unwrap();
    let actions = coord.remove_peer("nodeA");
    assert!(coord.peer_list().is_empty());
    assert_eq!(actions.len(), 1);
}

#[test]
fn three_consecutive_heartbeat_failures_stop_the_node() {
    let mut node = RegularNode::new("nodeA".to_string());
    node.record_heartbeat_result(false);
    node.record_heartbeat_result(false);
    assert!(node.running);
    node.record_heartbeat_result(false);
    assert!(!node.running);
}

#[test]
fn a_heartbeat_success_resets_the_failure_streak() {
    let mut node = RegularNode::new("nodeA".to_string());
    node.record_heartbeat_result(false);
    node.record_heartbeat_result(false);
    node.record_heartbeat_result(true);
    node.record_heartbeat_result(false);
    node.record_heartbeat_result(false);
    assert!(node.running);
    node.record_heartbeat_result(false);
    assert!(!node.running);
}

#[test]
fn node_appends_only_valid_blocks() {
    let mut node = RegularNode::new("nodeA".to_string());
    node.blockchain.difficulty = 0;
    let prev = node.blockchain.last_block().hash.clone();
    let (good, _) =
        blockchain_consensus::pow::mine_block(prev, 50, "next".to_string(), 0).unwrap();
    node.handle_message(P2PMessage::NewBlock {
        block: good,
        miner_id: "m".to_string(),
    });
    assert_eq!(node.blockchain.chain.len(), 2);
    // A block linked to nothing in particular is rejected, not appended.
    let (bad, _) = blockchain_consensus::pow::mine_block(
        "unrelated".to_string(),
        50,
        "next".to_string(),
        0,
    )
    .unwrap();
    node.handle_message(P2PMessage::NewBlock {
        block: bad,
        miner_id: "m".to_string(),
    });
    assert_eq!(node.blockchain.chain.len(), 2);
    assert!(node.blockchain.is_valid());
}

#[test]
fn empty_sync_does_not_erase_the_local_chain() {
    let mut node = RegularNode::new("nodeA".to_string());
    node.handle_message(P2PMessage::BlockchainSync { chain: vec![] });
    assert_eq!(node.blockchain.chain.len(), 1);
}

#[test]
fn peer_list_replaces_the_local_cache() {
    let mut node = RegularNode::new("nodeA".to_string());
    let peers = vec![blockchain_consensus::protocol::PeerInfo {
        node_id: "nodeB".to_string(),
        address: "b".to_string(),
        last_seen: 3,
        blocks_mined: 0,
    }];
    node.handle_message(P2PMessage::PeerList { peers: peers.clone() });
    assert_eq!(node.peers, peers);
}

#[test]
fn block_template_lists_pending_signatures() {
    let mut coord = Coordinator::new();
    let tx = blockchain_consensus::transaction::Transaction::new(
        "alice".to_string(),
        "bob".to_string(),
        8,
    );
    let msg = P2PMessage::NewTransaction {
        transaction: tx.clone(),
        from_node: "nodeA".to_string(),
    };
    coord.handle_message("nodeA", &msg);
    let template = coord.create_block_template();
    assert_eq!(template.previous_hash, coord.blockchain.last_block().hash);
    assert_eq!(template.difficulty, 5);
    assert_eq!(template.block_number, 1);
    assert_eq!(template.transactions, vec![tx.signature.clone()]);
    let block = template.to_block(3);
    assert_eq!(block.data, "Block 1 with 1 transactions");
    assert_eq!(block.nonce, 3);
}

#[test]
fn network_error_messages_render_their_detail() {
    let e = NetworkError::PeerNotFound("nodeX".to_string());
    assert_eq!(e.message(), "Peer not found: nodeX");
    let e = NetworkError::SendFailed("broken pipe".to_string());
    assert_eq!(e.message(), "Send failed: broken pipe");
    let e = NetworkError::ConnectionFailed("refused".to_string());
    assert_eq!(e.message(), "Connection failed: refused");
    let e = NetworkError::ReceiveFailed("closed".to_string());
    assert_eq!(e.message(), "Receive failed: closed");
    let e = NetworkError::InvalidMessage("first message must be Join".to_string());
    assert_eq!(e.message(), "Invalid message: first message must be Join");
    let e = NetworkError::SerializationError("bad bytes".to_string());
    assert_eq!(e.message(), "Serialization error: bad bytes");
}

#[test]
fn unsigned_transactions_are_not_pooled_or_relayed() {
    let mut coord = Coordinator::new();
    let unsigned = P2PMessage::NewTransaction {
        transaction: blockchain_consensus::transaction::Transaction {
            from: "alice".to_string(),
            to: "bob".to_string(),
            amount: 3,
            signature: String::new(),
        },
        from_node: "nodeA".to_string(),
    };
    let actions = coord.handle_message("nodeA", &unsigned);
    assert!(actions.is_empty());
    assert_eq!(coord.mempool.size(), 0);
    let mut node = RegularNode::new("nodeB".to_string());
    node.handle_message(unsigned);
    assert_eq!(node.mempool.size(), 0);
}
