use blockchain_consensus::block::Blockchain;
use blockchain_consensus::pos::{
    Validator, generate_transactions, propose_block, select_validator_index,
    select_validator_weighted, validate_transaction_batch,
};
use blockchain_consensus::transaction::Transaction;

#[test]
fn validator_address_derives_from_id() {
    let v = Validator::new(7, 500);
    assert_eq!(v.id, 7);
    assert_eq!(v.stake, 500);
    assert_eq!(v.address, "validator_7");
}

#[test]
fn index_selection_walks_cumulative_stake() {
    let validators = vec![Validator::new(0, 5), Validator::new(1, 10), Validator::new(2, 1)];
    for draw in 0..5u64 {
        assert_eq!(select_validator_index(&validators, draw), 0);
    }
    for draw in 5..15u64 {
        assert_eq!(select_validator_index(&validators, draw), 1);
    }
    assert_eq!(select_validator_index(&validators, 15), 2);
}

#[test]
fn weighted_selection_follows_stake_ratio() {
    let validators = vec![Validator::new(0, 100), Validator::new(1, 900)];
    let trials = 10_000;
    let mut second = 0usize;
    for _ in 0..trials {
        let chosen = select_validator_weighted(&validators);
        if chosen.id == 1 {
            second += 1;
        }
    }
    // Expected 9000 of 10000; the band is ten standard deviations wide.
    assert!(second > 8700, "second validator chosen only {} times", second);
    assert!(second < 9300, "second validator chosen {} times", second);
}

#[test]
fn generated_transactions_are_well_formed() {
    let txs = generate_transactions(3, 25);
    assert_eq!(txs.len(), 25);
    for tx in &txs {
        assert!(tx.amount >= 1 && tx.amount < 1000);
        assert!(tx.from.starts_with("user_"));
        assert!(tx.to.starts_with("user_"));
        let expected = format!("sig_{}_{}_{}", tx.from, tx.to, tx.amount);
        assert_eq!(tx.signature, expected);
    }
}

#[test]
fn batch_validation_accepts_signed_and_rejects_unsigned() {
    let signed = vec![
        Transaction::new("a".to_string(), "b".to_string(), 1),
        Transaction::new("c".to_string(), "d".to_string(), 2),
    ];
    assert!(validate_transaction_batch(&signed));
    let mut with_unsigned = signed.clone();
    with_unsigned.push(Transaction {
        from: "e".to_string(),
        to: "f".to_string(),
        amount: 3,
        signature: String::new(),
    });
    assert!(!validate_transaction_batch(&with_unsigned));
}

#[test]
fn transaction_validate_requires_nonempty_signature() {
    let tx = Transaction::new("x".to_string(), "y".to_string(), 9);
    assert!(tx.verify_signature());
    assert!(tx.check_balance());
    assert!(tx.validate());
    let unsigned = Transaction {
        from: "x".to_string(),
        to: "y".to_string(),
        amount: 9,
        signature: String::new(),
    };
    assert!(!unsigned.validate());
}

#[test]
fn proposed_block_extends_the_chain() {
    let mut bc = Blockchain::new(0);
    let proposer = Validator::new(4, 250);
    let block = propose_block(&bc, &proposer, 1, 5);
    assert_eq!(block.previous_hash, bc.last_block().hash);
    assert_eq!(block.nonce, 4);
    assert_eq!(block.data, "Block 1 proposed by validator 4 with 5 transactions");
    assert!(bc.validate_block(&block));
    bc.add_block(block);
    assert!(bc.is_valid());
    assert_eq!(bc.chain.len(), 2);
}
