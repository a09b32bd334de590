use blockchain_consensus::mempool::TransactionPool;
use blockchain_consensus::transaction::Transaction;

#[test]
fn duplicate_signature_is_rejected_once_stored() {
    let mut pool = TransactionPool::new(10);
    let tx = Transaction::new("alice".to_string(), "bob".to_string(), 5);
    assert!(pool.add_transaction(tx.clone()).is_ok());
    let err = pool.add_transaction(tx).unwrap_err();
    assert_eq!(err, "Duplicate transaction");
    assert_eq!(pool.size(), 1);
}

#[test]
fn full_pool_rejects_new_transactions() {
    let mut pool = TransactionPool::new(1);
    let tx1 = Transaction::new("a".to_string(), "b".to_string(), 1);
    let tx2 = Transaction::new("c".to_string(), "d".to_string(), 2);
    assert!(pool.add_transaction(tx1).is_ok());
    let err = pool.add_transaction(tx2).unwrap_err();
    assert_eq!(err, "Transaction pool is full");
    assert_eq!(pool.size(), 1);
}

#[test]
fn capacity_is_checked_before_deduplication() {
    let mut pool = TransactionPool::new(1);
    let tx = Transaction::new("a".to_string(), "b".to_string(), 1);
    assert!(pool.add_transaction(tx.clone()).is_ok());
    // Re-adding the same transaction to a full pool reports fullness, not
    // duplication: capacity comes first.
    let err = pool.add_transaction(tx).unwrap_err();
    assert_eq!(err, "Transaction pool is full");
}

#[test]
fn get_transactions_returns_oldest_without_removal() {
    let mut pool = TransactionPool::new(10);
    for amount in 1..=4u64 {
        let tx = Transaction::new("a".to_string(), "b".to_string(), amount);
        pool.add_transaction(tx).unwrap();
    }
    let taken = pool.get_transactions(2);
    assert_eq!(taken.len(), 2);
    assert_eq!(taken[0].amount, 1);
    assert_eq!(taken[1].amount, 2);
    assert_eq!(pool.size(), 4);
    let all = pool.get_transactions(100);
    assert_eq!(all.len(), 4);
}

#[test]
fn remove_transactions_deletes_by_signature() {
    let mut pool = TransactionPool::new(10);
    let tx1 = Transaction::new("a".to_string(), "b".to_string(), 1);
    let tx2 = Transaction::new("a".to_string(), "b".to_string(), 2);
    let tx3 = Transaction::new("a".to_string(), "b".to_string(), 3);
    pool.add_transaction(tx1.clone()).unwrap();
    pool.add_transaction(tx2.clone()).unwrap();
    pool.add_transaction(tx3.clone()).unwrap();
    pool.remove_transactions(&vec![tx1.clone(), tx3.clone()]);
    let left = pool.get_all();
    assert_eq!(left.len(), 1);
    assert_eq!(left[0], tx2);
    // A removed signature may be added again.
    assert!(pool.add_transaction(tx1).is_ok());
}

#[test]
fn clear_empties_the_pool() {
    let mut pool = TransactionPool::new(10);
    let tx = Transaction::new("a".to_string(), "b".to_string(), 1);
    pool.add_transaction(tx.clone()).unwrap();
    pool.clear();
    assert_eq!(pool.size(), 0);
    assert!(pool.get_all().is_empty());
    // Cleared signatures are forgotten.
    assert!(pool.add_transaction(tx).is_ok());
}
