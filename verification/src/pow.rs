//! Proof-of-work nonce search: the sequential miner, the per-worker
//! partitioned search (worker `w` of `W` tries the nonces congruent to `w`
//! modulo `W`), and a deterministic race over all workers in which the
//! winning worker's index is, by construction, the winning nonce modulo the
//! worker count.

use vstd::prelude::*;
use vstd::arithmetic::div_mod::{lemma_mod_multiples_vanish, lemma_small_mod};
use vstd::arithmetic::mul::lemma_mul_inequality;
use crate::block::{Block, block_internally_valid, block_source, hash_meets_difficulty};
use crate::hash::sha256_hex_of;

verus! {

/// The hash a block would store for this nonce and these fixed fields.
pub open spec fn nonce_hash(
    previous_hash: Seq<char>,
    timestamp: i64,
    data: Seq<char>,
    nonce: u64,
) -> Seq<char> {
    sha256_hex_of(block_source(previous_hash, timestamp, nonce, data))
}

/// Whether this nonce solves the puzzle at the given difficulty.
pub open spec fn nonce_wins(
    previous_hash: Seq<char>,
    timestamp: i64,
    data: Seq<char>,
    difficulty: nat,
    nonce: u64,
) -> bool {
    hash_meets_difficulty(nonce_hash(previous_hash, timestamp, data, nonce), difficulty)
}

/// The nonce tried by worker `worker` of `workers` in round `round`.
pub open spec fn partition_nonce(worker: u64, workers: u64, round: int) -> int {
    worker + round * workers
}

/// Sequential mining: tries nonces in increasing order from zero and returns
/// the first solution with the number of attempts it took (saturating in the
/// one unrepresentable corner, a win at the very last nonce). `None` only
/// when every representable nonce was tried in vain.
pub fn mine_block(previous_hash: String, timestamp: i64, data: String, difficulty: usize) -> (r:
    Option<(Block, u64)>)
    ensures
        match r {
            Some((b, attempts)) => {
                &&& b@.previous_hash == previous_hash@
                &&& b@.timestamp == timestamp
                &&& b@.data == data@
                &&& block_internally_valid(b@)
                &&& hash_meets_difficulty(b@.hash, difficulty as nat)
                &&& attempts == if b@.nonce < u64::MAX {
                    b@.nonce + 1
                } else {
                    u64::MAX as int
                }
                &&& forall|n: u64|
                    n < b@.nonce ==> !nonce_wins(
                        previous_hash@,
                        timestamp,
                        data@,
                        difficulty as nat,
                        n,
                    )
            },
            None => forall|n: u64|
                !nonce_wins(previous_hash@, timestamp, data@, difficulty as nat, n),
        },
{
    let mut nonce: u64 = 0;
    loop
        invariant
            forall|m: u64|
                m < nonce ==> !nonce_wins(previous_hash@, timestamp, data@, difficulty as nat, m),
        decreases u64::MAX - nonce,
    {
        let block = Block::new(previous_hash.clone(), timestamp, nonce, data.clone());
        if block.meets_difficulty(difficulty) {
            let attempts = if nonce < u64::MAX {
                nonce + 1
            } else {
                u64::MAX
            };
            return Some((block, attempts));
        }
        if nonce == u64::MAX {
            return None;
        }
        nonce += 1;
    }
}

/// One worker's share of the search: rounds `start_round` up to
/// `start_round + rounds` of its own nonce partition, in order. A caller that
/// alternates this with a shared cancellation check gets cooperative
/// cancellation without giving up the partition guarantees.
pub fn mine_block_worker(
    previous_hash: String,
    timestamp: i64,
    data: String,
    difficulty: usize,
    worker: u64,
    workers: u64,
    start_round: u64,
    rounds: u64,
) -> (r: Option<(Block, u64)>)
    requires
        1 <= workers,
        worker < workers,
    ensures
        match r {
            Some((b, tried)) => {
                &&& b@.previous_hash == previous_hash@
                &&& b@.timestamp == timestamp
                &&& b@.data == data@
                &&& block_internally_valid(b@)
                &&& hash_meets_difficulty(b@.hash, difficulty as nat)
                &&& b@.nonce % workers == worker
                &&& exists|round: int|
                    {
                        &&& start_round <= round < start_round + rounds
                        &&& b@.nonce == partition_nonce(worker, workers, round)
                        &&& tried == round - start_round + 1
                        &&& forall|r2: int|
                            start_round <= r2 < round ==> !nonce_wins(
                                previous_hash@,
                                timestamp,
                                data@,
                                difficulty as nat,
                                partition_nonce(worker, workers, r2) as u64,
                            )
                    }
            },
            None => forall|r2: int|
                start_round <= r2 < start_round + rounds && partition_nonce(worker, workers, r2)
                    <= u64::MAX ==> !nonce_wins(
                    previous_hash@,
                    timestamp,
                    data@,
                    difficulty as nat,
                    partition_nonce(worker, workers, r2) as u64,
                ),
        },
{
    let mut round: u64 = start_round;
    let mut remaining: u64 = rounds;
    while remaining > 0
        invariant
            1 <= workers,
            worker < workers,
            round - start_round == rounds - remaining,
            remaining <= rounds,
            forall|r2: int|
                start_round <= r2 < round ==> !nonce_wins(
                    previous_hash@,
                    timestamp,
                    data@,
                    difficulty as nat,
                    partition_nonce(worker, workers, r2) as u64,
                ),
        decreases remaining,
    {
        let product = round.checked_mul(workers);
        let nonce_opt = match product {
            Some(p) => p.checked_add(worker),
            None => None,
        };
        let nonce = match nonce_opt {
            Some(n) => n,
            None => {
                proof {
                    assert(partition_nonce(worker, workers, round as int) > u64::MAX);
                    assert forall|r2: int|
                        round <= r2 < start_round + rounds implies partition_nonce(
                        worker,
                        workers,
                        r2,
                    ) > u64::MAX by {
                        lemma_mul_inequality(round as int, r2, workers as int);
                    }
                }
                return None;
            },
        };
        proof {
            assert(nonce == partition_nonce(worker, workers, round as int));
        }
        let block = Block::new(previous_hash.clone(), timestamp, nonce, data.clone());
        if block.meets_difficulty(difficulty) {
            proof {
                lemma_mod_multiples_vanish(round as int, worker as int, workers as int);
                lemma_small_mod(worker as nat, workers as nat);
            }
            return Some((block, round - start_round + 1));
        }
        round = match round.checked_add(1) {
            Some(next) => next,
            None => {
                proof {
                    assert forall|r2: int|
                        round < r2 < start_round + rounds implies partition_nonce(
                        worker,
                        workers,
                        r2,
                    ) > u64::MAX by {
                        lemma_mul_inequality(1, workers as int, r2);
                    }
                }
                return None;
            },
        };
        remaining -= 1;
    }
    None
}

/// What a mining race reports: the winning block, the index of the worker
/// whose partition held the winning nonce, and the total number of nonces
/// tried across all workers.
#[derive(Debug)]
pub struct RaceOutcome {
    pub block: Block,
    pub winner: u64,
    pub attempts: u64,
}

/// A fair race of `workers` partitioned searchers, stepped round-robin:
/// exactly one winning block comes out, the winner's index equals the winning
/// nonce modulo the worker count, and no earlier nonce solves the puzzle.
/// `None` only when every nonce within the round budget (clipped to the
/// representable nonce space) was tried in vain.
pub fn mine_block_race(
    previous_hash: String,
    timestamp: i64,
    data: String,
    difficulty: usize,
    workers: u64,
    max_rounds: u64,
) -> (r: Option<RaceOutcome>)
    requires
        1 <= workers,
    ensures
        match r {
            Some(o) => {
                &&& o.block@.previous_hash == previous_hash@
                &&& o.block@.timestamp == timestamp
                &&& o.block@.data == data@
                &&& block_internally_valid(o.block@)
                &&& hash_meets_difficulty(o.block@.hash, difficulty as nat)
                &&& o.winner < workers
                &&& o.winner == o.block@.nonce % workers
                &&& o.attempts == if o.block@.nonce < u64::MAX {
                    o.block@.nonce + 1
                } else {
                    u64::MAX as int
                }
                &&& forall|n: u64|
                    n < o.block@.nonce ==> !nonce_wins(
                        previous_hash@,
                        timestamp,
                        data@,
                        difficulty as nat,
                        n,
                    )
            },
            None => forall|n: u64|
                n < max_rounds * workers ==> !nonce_wins(
                    previous_hash@,
                    timestamp,
                    data@,
                    difficulty as nat,
                    n,
                ),
        },
{
    let cap = max_rounds.checked_mul(workers);
    let mut nonce: u64 = 0;
    loop
        invariant
            1 <= workers,
            cap matches Some(c) ==> c == max_rounds * workers && nonce <= c,
            cap is None ==> max_rounds * workers > u64::MAX,
            forall|m: u64|
                m < nonce ==> !nonce_wins(previous_hash@, timestamp, data@, difficulty as nat, m),
        decreases u64::MAX - nonce,
    {
        if let Some(c) = cap {
            if nonce >= c {
                return None;
            }
        }
        let block = Block::new(previous_hash.clone(), timestamp, nonce, data.clone());
        if block.meets_difficulty(difficulty) {
            let winner = nonce % workers;
            let attempts = if nonce < u64::MAX {
                nonce + 1
            } else {
                u64::MAX
            };
            return Some(RaceOutcome { block, winner, attempts });
        }
        if nonce == u64::MAX {
            return None;
        }
        nonce += 1;
    }
}

} // verus!
