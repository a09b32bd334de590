//! Stake-weighted block production: validators, weighted proposer selection,
//! batch validation, and the block a selected proposer contributes. The
//! random draw comes from outside; the walk from a draw to the selected
//! validator is verified for every possible draw.

use vstd::prelude::*;
use vstd::string::StringExecFns;
use crate::block::{Block, Blockchain, block_internally_valid, candidate_valid};
use crate::strutil::{dec_nat, u64_to_string};
use crate::sys::{now_timestamp, random_below};
use crate::transaction::{Transaction, TxView, sig_of};

verus! {

#[derive(Debug, PartialEq, Eq)]
pub struct Validator {
    pub id: u32,
    pub stake: u64,
    pub address: String,
}

/// The mathematical image of a validator.
pub ghost struct ValidatorView {
    pub id: u32,
    pub stake: u64,
    pub address: Seq<char>,
}

impl View for Validator {
    type V = ValidatorView;

    open spec fn view(&self) -> ValidatorView {
        ValidatorView { id: self.id, stake: self.stake, address: self.address@ }
    }
}

impl DeepView for Validator {
    type V = ValidatorView;

    open spec fn deep_view(&self) -> ValidatorView {
        self.view()
    }
}

impl Clone for Validator {
    fn clone(&self) -> (r: Self)
        ensures
            r == *self,
    {
        Validator { id: self.id, stake: self.stake, address: self.address.clone() }
    }
}

impl Validator {
    /// Builds a validator whose address is derived from its id.
    pub fn new(id: u32, stake: u64) -> (v: Validator)
        ensures
            v@.id == id,
            v@.stake == stake,
            v@.address == "validator_"@ + dec_nat(id as nat),
    {
        let mut address = "validator_".to_owned();
        let id_str = u64_to_string(id as u64);
        address.append(id_str.as_str());
        Validator { id, stake, address }
    }
}

/// The sum of the first `k` validators' stakes.
pub open spec fn stake_prefix(vs: Seq<ValidatorView>, k: int) -> int
    decreases k,
{
    if k <= 0 {
        0
    } else {
        stake_prefix(vs, k - 1) + vs[k - 1].stake
    }
}

/// The total stake of all validators.
pub open spec fn total_stake(vs: Seq<ValidatorView>) -> int {
    stake_prefix(vs, vs.len() as int)
}

/// Prefix sums of stakes grow monotonically.
pub proof fn lemma_stake_prefix_mono(vs: Seq<ValidatorView>, i: int, j: int)
    requires
        0 <= i <= j,
    ensures
        stake_prefix(vs, i) <= stake_prefix(vs, j),
    decreases j - i,
{
    if i < j {
        lemma_stake_prefix_mono(vs, i, j - 1);
    }
}

/// The cumulative-stake walk: returns the unique index whose stake interval
/// contains the draw, characterized by the prefix sums around it.
pub fn select_validator_index(validators: &[Validator], draw: u64) -> (r: usize)
    requires
        draw < total_stake(validators.deep_view()),
    ensures
        r < validators.deep_view().len(),
        stake_prefix(validators.deep_view(), r as int) <= draw,
        draw < stake_prefix(validators.deep_view(), r as int + 1),
{
    let ghost vs = validators.deep_view();
    let mut i: usize = 0;
    let mut remaining = draw;
    while i < validators.len()
        invariant
            i <= validators.len(),
            vs == validators.deep_view(),
            vs.len() == validators.len(),
            draw < total_stake(vs),
            remaining == draw - stake_prefix(vs, i as int),
            0 <= draw - stake_prefix(vs, i as int),
        decreases validators.len() - i,
    {
        let stake = validators[i].stake;
        proof {
            assert(vs[i as int].stake == stake);
        }
        if remaining < stake {
            return i;
        }
        remaining -= stake;
        i += 1;
    }
    proof {
        assert(stake_prefix(vs, vs.len() as int) <= draw);
        assert(false);
    }
    0
}

/// Whether index `i` is the validator whose cumulative-stake interval
/// contains the draw.
pub open spec fn selection_of(vs: Seq<ValidatorView>, draw: int, i: int) -> bool {
    &&& 0 <= i < vs.len()
    &&& stake_prefix(vs, i) <= draw < stake_prefix(vs, i + 1)
}

/// Draws a stake-weighted proposer: a validator is selected with its stake's
/// share of the total. The draw itself comes from outside; whatever it is,
/// the selected validator owns the stake interval the draw fell into, so its
/// stake is positive.
pub fn select_validator_weighted(validators: &[Validator]) -> (r: &Validator)
    requires
        validators.deep_view().len() > 0,
        total_stake(validators.deep_view()) > 0,
        total_stake(validators.deep_view()) <= u64::MAX,
    ensures
        exists|draw: u64, i: int|
            {
                &&& draw < total_stake(validators.deep_view())
                &&& #[trigger] selection_of(validators.deep_view(), draw as int, i)
                &&& r@ == validators.deep_view()[i]
            },
        r@.stake > 0,
{
    let ghost vs = validators.deep_view();
    let mut total: u64 = 0;
    let mut i: usize = 0;
    while i < validators.len()
        invariant
            i <= validators.len(),
            vs == validators.deep_view(),
            vs.len() == validators.len(),
            total_stake(vs) <= u64::MAX,
            total == stake_prefix(vs, i as int),
        decreases validators.len() - i,
    {
        let stake = validators[i].stake;
        proof {
            assert(vs[i as int].stake == stake);
            lemma_stake_prefix_mono(vs, i as int + 1, vs.len() as int);
        }
        total = total + stake;
        i += 1;
    }
    let draw = random_below(total);
    let idx = select_validator_index(validators, draw);
    let selected = &validators[idx];
    proof {
        assert(vs[idx as int] == selected@);
        assert(selection_of(vs, draw as int, idx as int));
    }
    selected
}

/// The synthetic account name used by the transaction generator.
pub open spec fn user_name(k: nat) -> Seq<char> {
    "user_"@ + dec_nat(k)
}

/// What the transaction generator promises of each entry, whatever the
/// random draws were: an amount between 1 and 999, a derived signature, and
/// accounts drawn from a hundred synthetic users.
pub open spec fn generated_tx(tx: TxView) -> bool {
    &&& 1 <= tx.amount < 1000
    &&& tx.signature == sig_of(tx.from, tx.to, tx.amount)
    &&& exists|a: u64, b: u64|
        a < 100 && b < 100 && tx.from == user_name(a as nat) && tx.to == user_name(b as nat)
}

/// Generates a batch of random transactions. Only what holds of every draw
/// is stated.
pub fn generate_transactions(_block_index: usize, num_transactions: usize) -> (r: Vec<Transaction>)
    ensures
        r@.len() == num_transactions,
        forall|i: int| 0 <= i < num_transactions ==> generated_tx((#[trigger] r@[i])@),
{
    let mut out: Vec<Transaction> = Vec::new();
    let mut i: usize = 0;
    while i < num_transactions
        invariant
            i <= num_transactions,
            out@.len() == i,
            forall|j: int| 0 <= j < i ==> generated_tx((#[trigger] out@[j])@),
        decreases num_transactions - i,
    {
        let a = random_below(100);
        let b = random_below(100);
        let mut from = "user_".to_owned();
        let from_digits = u64_to_string(a);
        from.append(from_digits.as_str());
        let mut to = "user_".to_owned();
        let to_digits = u64_to_string(b);
        to.append(to_digits.as_str());
        let amount = 1 + random_below(999);
        let tx = Transaction::new(from, to, amount);
        out.push(tx);
        proof {
            let tv = out@[i as int]@;
            assert(tv.from == user_name(a as nat));
            assert(tv.to == user_name(b as nat));
            assert(generated_tx(tv));
        }
        i += 1;
    }
    out
}

/// Validates a transaction batch: true exactly when every signature is
/// non-empty. (Each check burns a randomized amount of hashing, simulating
/// heterogeneous validation cost.)
pub fn validate_transaction_batch(transactions: &Vec<Transaction>) -> (r: bool)
    ensures
        r == (forall|i: int|
            0 <= i < transactions.deep_view().len() ==> (#[trigger] transactions.deep_view()[i])
                .signature.len() != 0),
{
    let mut i: usize = 0;
    while i < transactions.len()
        invariant
            i <= transactions.len(),
            transactions.deep_view().len() == transactions.len(),
            forall|j: int|
                0 <= j < i ==> (#[trigger] transactions.deep_view()[j]).signature.len() != 0,
        decreases transactions.len() - i,
    {
        if !transactions[i].validate() {
            proof {
                assert(transactions.deep_view()[i as int].signature.len() == 0);
            }
            return false;
        }
        i += 1;
    }
    true
}

/// The payload of a stake-weighted block.
pub open spec fn pos_block_data(block_index: u64, proposer_id: u32, tx_count: u64) -> Seq<char> {
    "Block "@ + dec_nat(block_index as nat) + " proposed by validator "@ + dec_nat(
        proposer_id as nat,
    ) + " with "@ + dec_nat(tx_count as nat) + " transactions"@
}

/// The block the selected proposer contributes: linked to the current tip,
/// stamped now, with the proposer's id recorded in the nonce field (this mode
/// has no nonce search, and its difficulty is zero). The result always passes
/// the admission check of a chain with difficulty zero.
pub fn propose_block(
    chain: &Blockchain,
    proposer: &Validator,
    block_index: u64,
    tx_count: u64,
) -> (b: Block)
    requires
        chain.blocks().len() > 0,
    ensures
        b@.previous_hash == chain.blocks().last().hash,
        b@.nonce == proposer.id as u64,
        b@.data == pos_block_data(block_index, proposer@.id, tx_count),
        block_internally_valid(b@),
        candidate_valid(chain.blocks(), 0, b@),
{
    let previous_hash = chain.last_block().hash.clone();
    let mut data = "Block ".to_owned();
    let idx_str = u64_to_string(block_index);
    data.append(idx_str.as_str());
    data.append(" proposed by validator ");
    let id_str = u64_to_string(proposer.id as u64);
    data.append(id_str.as_str());
    data.append(" with ");
    let count_str = u64_to_string(tx_count);
    data.append(count_str.as_str());
    data.append(" transactions");
    Block::new(previous_hash, now_timestamp(), proposer.id as u64, data)
}

} // verus!
