use blockchain_consensus::block::{Block, Blockchain};
use blockchain_consensus::pow::mine_block;

fn mined_successor(bc: &Blockchain) -> Block {
    let prev = bc.last_block().hash.clone();
    let (block, _) = mine_block(prev, 77, "payload".to_string(), bc.difficulty).unwrap();
    block
}

#[test]
fn valid_appends_keep_the_chain_valid() {
    let mut bc = Blockchain::new(1);
    for _ in 0..3 {
        let block = mined_successor(&bc);
        assert!(bc.validate_block(&block));
        bc.add_block(block);
        assert!(bc.is_valid());
    }
    assert_eq!(bc.chain.len(), 4);
}

#[test]
fn payload_mutation_invalidates_the_chain() {
    let mut bc = Blockchain::new(1);
    let block = mined_successor(&bc);
    bc.add_block(block);
    assert!(bc.is_valid());
    bc.chain[1].data = "tampered".to_string();
    assert!(!bc.is_valid());
}

#[test]
fn validate_block_rejects_wrong_link() {
    let mut bc = Blockchain::new(1);
    let good = mined_successor(&bc);
    bc.add_block(good);
    // A block linked to the old tip no longer validates after the append.
    let stale = mine_block(
        bc.chain[0].hash.clone(),
        77,
        "payload2".to_string(),
        bc.difficulty,
    )
    .unwrap()
    .0;
    assert!(!bc.validate_block(&stale));
}

#[test]
fn validate_block_rejects_insufficient_difficulty() {
    let bc = Blockchain::new(4);
    // A block that links correctly but was mined at difficulty zero.
    let prev = bc.last_block().hash.clone();
    let (block, _) = mine_block(prev, 1, "easy".to_string(), 0).unwrap();
    if !block.meets_difficulty(4) {
        assert!(!bc.validate_block(&block));
    }
}

#[test]
fn validate_block_rejects_corrupted_block() {
    let bc = Blockchain::new(0);
    let mut block = mined_successor(&bc);
    block.nonce += 1;
    assert!(!block.is_valid());
    assert!(!bc.validate_block(&block));
}
