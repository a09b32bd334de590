use blockchain_consensus::pow::{mine_block, mine_block_race, mine_block_worker};

#[test]
fn race_produces_one_winning_block_per_call() {
    for &workers in &[1u64, 2, 8] {
        for difficulty in 0..=4usize {
            let outcome = mine_block_race(
                "prev".to_string(),
                99,
                "data".to_string(),
                difficulty,
                workers,
                10_000_000,
            )
            .unwrap();
            assert!(outcome.block.meets_difficulty(difficulty));
            assert!(outcome.block.is_valid());
            // The partitioned nonce scheme: the winner's index is the
            // winning nonce modulo the worker count.
            assert_eq!(outcome.winner, outcome.block.nonce % workers);
            assert!(outcome.winner < workers);
            assert_eq!(outcome.attempts, outcome.block.nonce + 1);
        }
    }
}

#[test]
fn single_worker_race_degenerates_to_sequential() {
    let (block, attempts) = mine_block("prev".to_string(), 7, "data".to_string(), 2).unwrap();
    let outcome =
        mine_block_race("prev".to_string(), 7, "data".to_string(), 2, 1, u64::MAX).unwrap();
    assert_eq!(outcome.block, block);
    assert_eq!(outcome.winner, 0);
    assert_eq!(outcome.attempts, attempts);
}

#[test]
fn sequential_miner_finds_the_smallest_nonce() {
    let (block, attempts) = mine_block("abc".to_string(), 3, "xyz".to_string(), 1).unwrap();
    assert!(block.meets_difficulty(1));
    assert_eq!(attempts, block.nonce + 1);
    for nonce in 0..block.nonce {
        let earlier = blockchain_consensus::block::Block::new(
            "abc".to_string(),
            3,
            nonce,
            "xyz".to_string(),
        );
        assert!(!earlier.meets_difficulty(1));
    }
}

#[test]
fn worker_searches_only_its_partition() {
    for worker in 0..3u64 {
        if let Some((block, _tried)) = mine_block_worker(
            "prev".to_string(),
            11,
            "data".to_string(),
            1,
            worker,
            3,
            0,
            100_000,
        ) {
            assert_eq!(block.nonce % 3, worker);
            assert!(block.meets_difficulty(1));
        } else {
            panic!("worker {} found nothing within its rounds", worker);
        }
    }
}

#[test]
fn worker_resumes_from_a_later_round() {
    // Searching rounds [5, 10) of worker 1 of 4 only touches nonces
    // 21, 25, 29, 33, 37.
    let r = mine_block_worker(
        "prev".to_string(),
        11,
        "data".to_string(),
        0,
        1,
        4,
        5,
        5,
    );
    let (block, tried) = r.unwrap();
    assert_eq!(block.nonce, 21);
    assert_eq!(tried, 1);
}
