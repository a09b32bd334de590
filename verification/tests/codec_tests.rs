use blockchain_consensus::block::Block;
use blockchain_consensus::codec::frame_message;
use blockchain_consensus::error::NetworkError;
use blockchain_consensus::protocol::{BlockTemplate, P2PMessage, PeerInfo};
use blockchain_consensus::transaction::Transaction;

fn round_trip(m: P2PMessage) {
    let bytes = m.to_bytes().unwrap();
    let back = P2PMessage::from_bytes(&bytes).unwrap();
    assert_eq!(back, m);
}

fn sample_peer() -> PeerInfo {
    PeerInfo {
        node_id: "node_1".to_string(),
        address: "127.0.0.1:9000".to_string(),
        last_seen: 1234,
        blocks_mined: 7,
    }
}

fn sample_block() -> Block {
    Block::new("0".to_string(), -42, 9, "data".to_string())
}

#[test]
fn round_trip_join() {
    round_trip(P2PMessage::Join {
        node_id: "nœud".to_string(),
        address: "addr".to_string(),
        timestamp: u64::MAX,
    });
}

#[test]
fn round_trip_peer_list() {
    round_trip(P2PMessage::PeerList { peers: vec![] });
    round_trip(P2PMessage::PeerList {
        peers: vec![sample_peer(), sample_peer()],
    });
}

#[test]
fn round_trip_request_blockchain() {
    round_trip(P2PMessage::RequestBlockchain {
        requester_id: "".to_string(),
    });
}

#[test]
fn round_trip_blockchain_sync() {
    round_trip(P2PMessage::BlockchainSync {
        chain: vec![sample_block(), sample_block()],
    });
}

#[test]
fn round_trip_mining_start() {
    round_trip(P2PMessage::MiningStart {
        template: BlockTemplate {
            previous_hash: "ff".to_string(),
            transactions: vec!["t1".to_string(), "".to_string(), "t3".to_string()],
            difficulty: 5,
            timestamp: i64::MIN,
            block_number: 12,
        },
    });
}

#[test]
fn round_trip_mining_stop() {
    round_trip(P2PMessage::MiningStop);
}

#[test]
fn round_trip_new_block() {
    round_trip(P2PMessage::NewBlock {
        block: sample_block(),
        miner_id: "miner".to_string(),
    });
}

#[test]
fn round_trip_new_transaction() {
    round_trip(P2PMessage::NewTransaction {
        transaction: Transaction::new("alice".to_string(), "bob".to_string(), 42),
        from_node: "node_2".to_string(),
    });
}

#[test]
fn round_trip_heartbeat() {
    round_trip(P2PMessage::Heartbeat {
        node_id: "hb".to_string(),
        timestamp: 0,
    });
}

#[test]
fn round_trip_pong() {
    round_trip(P2PMessage::Pong {
        node_id: "bootstrap".to_string(),
    });
}

#[test]
fn decode_rejects_empty_buffer() {
    assert!(matches!(
        P2PMessage::from_bytes(&[]),
        Err(NetworkError::SerializationError(_))
    ));
}

#[test]
fn decode_rejects_unknown_tag() {
    assert!(P2PMessage::from_bytes(&[200]).is_err());
}

#[test]
fn decode_rejects_truncated_message() {
    let bytes = P2PMessage::Pong {
        node_id: "bootstrap".to_string(),
    }
    .to_bytes()
    .unwrap();
    assert!(P2PMessage::from_bytes(&bytes[..bytes.len() - 1]).is_err());
}

#[test]
fn decode_rejects_trailing_bytes() {
    let mut bytes = P2PMessage::MiningStop.to_bytes().unwrap();
    bytes.push(0);
    assert!(P2PMessage::from_bytes(&bytes).is_err());
}

#[test]
fn frame_prefixes_payload_with_big_endian_length() {
    let m = P2PMessage::Pong {
        node_id: "p".to_string(),
    };
    let payload = m.to_bytes().unwrap();
    let frame = frame_message(&m).unwrap();
    assert_eq!(frame.len(), payload.len() + 4);
    let n = u32::from_be_bytes([frame[0], frame[1], frame[2], frame[3]]) as usize;
    assert_eq!(n, payload.len());
    assert_eq!(&frame[4..], &payload[..]);
}

#[test]
fn encoding_is_not_the_identity() {
    // The payload is tagged and length-prefixed; it never equals the raw
    // string content it carries.
    let m = P2PMessage::Pong {
        node_id: "bootstrap".to_string(),
    };
    let bytes = m.to_bytes().unwrap();
    assert_ne!(bytes, "bootstrap".as_bytes().to_vec());
    assert_eq!(bytes[0], 9);
}

#[test]
fn decode_rejects_invalid_utf8_in_strings() {
    // A Pong frame whose two-byte "string" is not UTF-8.
    let bytes = vec![9u8, 0, 0, 0, 2, 0xff, 0xfe];
    assert!(P2PMessage::from_bytes(&bytes).is_err());
    // The same layout with real UTF-8 decodes.
    let ok = vec![9u8, 0, 0, 0, 2, b'h', b'i'];
    assert_eq!(
        P2PMessage::from_bytes(&ok).unwrap(),
        P2PMessage::Pong { node_id: "hi".to_string() }
    );
}
