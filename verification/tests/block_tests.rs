use blockchain_consensus::block::{Block, Blockchain};

#[test]
fn block_hash_known_vector() {
    // SHA-256 over the rendered source "000abc".
    let b = Block::new("0".to_string(), 0, 0, "abc".to_string());
    assert_eq!(
        b.hash,
        "3a9f1c78530f91b8660d76d323a54cbf67b6d309f1a5f4791ca27dfd37cfee89"
    );
    assert!(b.is_valid());
}

#[test]
fn block_hash_negative_timestamp() {
    // SHA-256 over the rendered source "0-70Genesis Block".
    let b = Block::new("0".to_string(), -7, 0, "Genesis Block".to_string());
    assert_eq!(
        b.hash,
        "29f48cae2ff4630318c1450817b2367199a64649aba40f0d4d3caa335f520d3e"
    );
}

#[test]
fn block_hash_is_64_hex_chars() {
    let b = Block::new("prev".to_string(), 123, 42, "payload".to_string());
    assert_eq!(b.hash.len(), 64);
    assert!(b.hash.chars().all(|c| c.is_ascii_hexdigit()));
}

#[test]
fn calculate_hash_ignores_stored_hash() {
    let mut b = Block::new("prev".to_string(), 1, 2, "data".to_string());
    let original = b.hash.clone();
    b.hash = "garbage".to_string();
    assert_eq!(b.calculate_hash(), original);
    assert!(!b.is_valid());
}

#[test]
fn meets_difficulty_counts_leading_zeros() {
    let b = Block {
        previous_hash: "x".to_string(),
        timestamp: 0,
        nonce: 0,
        data: "y".to_string(),
        hash: "000abc".to_string(),
    };
    assert!(b.meets_difficulty(0));
    assert!(b.meets_difficulty(1));
    assert!(b.meets_difficulty(2));
    assert!(b.meets_difficulty(3));
    assert!(!b.meets_difficulty(4));
    assert!(!b.meets_difficulty(7));
}

#[test]
fn difficulty_zero_always_met() {
    let b = Block::new("p".to_string(), 5, 9, "d".to_string());
    assert!(b.meets_difficulty(0));
}

#[test]
fn genesis_chain_is_valid() {
    let bc = Blockchain::new(4);
    assert_eq!(bc.chain.len(), 1);
    assert_eq!(bc.difficulty, 4);
    assert_eq!(bc.chain[0].previous_hash, "0");
    assert_eq!(bc.chain[0].data, "Genesis Block");
    assert!(bc.is_valid());
}

#[test]
fn last_block_is_the_tip() {
    let mut bc = Blockchain::new(0);
    let tip = bc.last_block().hash.clone();
    let next = Block::new(tip.clone(), 1, 0, "next".to_string());
    bc.add_block(next);
    assert_eq!(bc.last_block().previous_hash, tip);
}
