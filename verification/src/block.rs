//! Blocks and the append-only chain. A block's stored hash is SHA-256 over
//! the textual rendering of its other fields; a chain is valid when every
//! non-genesis block is internally valid, links to its predecessor, and meets
//! the configured difficulty (a count of leading `'0'` characters required of
//! the hash).

use vstd::prelude::*;
use vstd::string::StrSliceExecFns;
use vstd::string::StringExecFns;
use crate::hash::{sha256_hex, sha256_hex_of};
use crate::strutil::{dec_int, dec_nat, i64_to_string, u64_to_string, str_eq};
use crate::sys::now_timestamp;

verus! {

#[derive(Debug, PartialEq, Eq)]
pub struct Block {
    pub previous_hash: String,
    pub timestamp: i64,
    pub nonce: u64,
    pub data: String,
    pub hash: String,
}

/// The mathematical image of a block: its fields as sequences and integers.
pub ghost struct BlockView {
    pub previous_hash: Seq<char>,
    pub timestamp: i64,
    pub nonce: u64,
    pub data: Seq<char>,
    pub hash: Seq<char>,
}

impl View for Block {
    type V = BlockView;

    open spec fn view(&self) -> BlockView {
        BlockView {
            previous_hash: self.previous_hash@,
            timestamp: self.timestamp,
            nonce: self.nonce,
            data: self.data@,
            hash: self.hash@,
        }
    }
}

impl DeepView for Block {
    type V = BlockView;

    open spec fn deep_view(&self) -> BlockView {
        self.view()
    }
}

impl Clone for Block {
    fn clone(&self) -> (r: Self)
        ensures
            r == *self,
    {
        Block {
            previous_hash: self.previous_hash.clone(),
            timestamp: self.timestamp,
            nonce: self.nonce,
            data: self.data.clone(),
            hash: self.hash.clone(),
        }
    }
}

/// The string that a block's hash is computed over: the previous hash, the
/// timestamp and nonce in decimal, and the payload, concatenated.
pub open spec fn block_source(
    previous_hash: Seq<char>,
    timestamp: i64,
    nonce: u64,
    data: Seq<char>,
) -> Seq<char> {
    previous_hash + dec_int(timestamp as int) + dec_nat(nonce as nat) + data
}

/// The hash a block with these fields ought to store.
pub open spec fn computed_hash(b: BlockView) -> Seq<char> {
    sha256_hex_of(block_source(b.previous_hash, b.timestamp, b.nonce, b.data))
}

/// A block is internally valid when its stored hash matches a recomputation
/// from its other fields.
pub open spec fn block_internally_valid(b: BlockView) -> bool {
    b.hash == computed_hash(b)
}

/// A hash meets difficulty `d` exactly when its first `d` characters are `'0'`.
pub open spec fn hash_meets_difficulty(hash: Seq<char>, difficulty: nat) -> bool {
    hash.len() >= difficulty && forall|i: int| 0 <= i < difficulty ==> hash[i] == '0'
}

impl Block {
    /// Builds a block and stores the hash recomputed from the given fields.
    pub fn new(previous_hash: String, timestamp: i64, nonce: u64, data: String) -> (b: Block)
        ensures
            b@.previous_hash == previous_hash@,
            b@.timestamp == timestamp,
            b@.nonce == nonce,
            b@.data == data@,
            block_internally_valid(b@),
    {
        let mut block = Block { previous_hash, timestamp, nonce, data, hash: String::new() };
        block.hash = block.calculate_hash();
        block
    }

    /// Recomputes the hash from the block's fields (the stored hash plays no
    /// part in it).
    pub fn calculate_hash(&self) -> (r: String)
        ensures
            r@ == computed_hash(self@),
            r@.len() == 64,
    {
        let mut source = self.previous_hash.clone();
        let ts = i64_to_string(self.timestamp);
        source.append(ts.as_str());
        let nonce = u64_to_string(self.nonce);
        source.append(nonce.as_str());
        source.append(self.data.as_str());
        sha256_hex(source.as_str())
    }

    /// Whether the stored hash matches a recomputation.
    pub fn is_valid(&self) -> (r: bool)
        ensures
            r == block_internally_valid(self@),
    {
        let computed = self.calculate_hash();
        str_eq(self.hash.as_str(), computed.as_str())
    }

    /// Whether the stored hash starts with `difficulty` zero characters.
    pub fn meets_difficulty(&self, difficulty: usize) -> (r: bool)
        ensures
            r == hash_meets_difficulty(self@.hash, difficulty as nat),
    {
        let len = self.hash.as_str().unicode_len();
        if difficulty > len {
            return false;
        }
        let mut i: usize = 0;
        while i < difficulty
            invariant
                i <= difficulty <= len,
                len == self@.hash.len(),
                forall|j: int| 0 <= j < i ==> self@.hash[j] == '0',
            decreases difficulty - i,
        {
            if self.hash.as_str().get_char(i) != '0' {
                return false;
            }
            i += 1;
        }
        true
    }
}

#[derive(Debug)]
pub struct Blockchain {
    pub chain: Vec<Block>,
    pub difficulty: usize,
}

/// Whether entry `i` of a chain is sound: internally valid, linked to its
/// predecessor, and meeting the difficulty.
pub open spec fn chain_entry_valid(chain: Seq<BlockView>, difficulty: nat, i: int) -> bool {
    &&& block_internally_valid(chain[i])
    &&& chain[i].previous_hash == chain[i - 1].hash
    &&& hash_meets_difficulty(chain[i].hash, difficulty)
}

/// Whether every non-genesis entry of a chain is sound. The genesis block is
/// exempt, as it was when the chain was seeded.
pub open spec fn chain_links_valid(chain: Seq<BlockView>, difficulty: nat) -> bool {
    forall|i: int| 1 <= i < chain.len() ==> #[trigger] chain_entry_valid(chain, difficulty, i)
}

/// Whether a candidate block may be appended: internally valid, meeting the
/// difficulty, and linked to the current tip.
pub open spec fn candidate_valid(chain: Seq<BlockView>, difficulty: nat, b: BlockView) -> bool {
    &&& block_internally_valid(b)
    &&& hash_meets_difficulty(b.hash, difficulty)
    &&& b.previous_hash == chain.last().hash
}

impl Blockchain {
    /// The chain's mathematical image.
    pub open spec fn blocks(&self) -> Seq<BlockView> {
        self.chain.deep_view()
    }

    /// Seeds a chain with a genesis block at the current time.
    pub fn new(difficulty: usize) -> (bc: Blockchain)
        ensures
            bc.difficulty == difficulty,
            bc.blocks().len() == 1,
            bc.blocks()[0].previous_hash == "0"@,
            bc.blocks()[0].nonce == 0,
            bc.blocks()[0].data == "Genesis Block"@,
            block_internally_valid(bc.blocks()[0]),
    {
        let genesis = Block::new(
            "0".to_owned(),
            now_timestamp(),
            0,
            "Genesis Block".to_owned(),
        );
        Blockchain { chain: vec![genesis], difficulty }
    }

    /// The current tip.
    pub fn last_block(&self) -> (r: &Block)
        requires
            self.blocks().len() > 0,
        ensures
            r@ == self.blocks().last(),
    {
        &self.chain[self.chain.len() - 1]
    }

    /// Appends unconditionally; validation is the caller's contract.
    pub fn add_block(&mut self, block: Block)
        ensures
            final(self).blocks() == old(self).blocks().push(block@),
            final(self).difficulty == old(self).difficulty,
    {
        self.chain.push(block);
        proof {
            assert(self.blocks() =~= old(self).blocks().push(self.chain@.last()@));
        }
    }

    /// Whether every non-genesis block is internally valid, linked, and
    /// meeting the configured difficulty.
    pub fn is_valid(&self) -> (r: bool)
        ensures
            r == chain_links_valid(self.blocks(), self.difficulty as nat),
    {
        let mut i: usize = 1;
        while i < self.chain.len()
            invariant
                1 <= i,
                forall|j: int| 1 <= j < i ==> #[trigger] chain_entry_valid(
                    self.blocks(),
                    self.difficulty as nat,
                    j,
                ),
            decreases self.chain.len() - i,
        {
            let current = &self.chain[i];
            let previous = &self.chain[i - 1];
            proof {
                assert(self.blocks()[i as int] == current@);
                assert(self.blocks()[i as int - 1] == previous@);
            }
            if !current.is_valid() {
                proof {
                    assert(!chain_entry_valid(self.blocks(), self.difficulty as nat, i as int));
                }
                return false;
            }
            if !str_eq(current.previous_hash.as_str(), previous.hash.as_str()) {
                proof {
                    assert(!chain_entry_valid(self.blocks(), self.difficulty as nat, i as int));
                }
                return false;
            }
            if !current.meets_difficulty(self.difficulty) {
                proof {
                    assert(!chain_entry_valid(self.blocks(), self.difficulty as nat, i as int));
                }
                return false;
            }
            i += 1;
        }
        true
    }

    /// The admission check applied to an externally received block before appending.
    pub fn validate_block(&self, block: &Block) -> (r: bool)
        requires
            self.blocks().len() > 0,
        ensures
            r == candidate_valid(self.blocks(), self.difficulty as nat, block@),
    {
        if !block.is_valid() {
            return false;
        }
        if !block.meets_difficulty(self.difficulty) {
            return false;
        }
        let last = self.last_block();
        if !str_eq(block.previous_hash.as_str(), last.hash.as_str()) {
            return false;
        }
        true
    }
}

/// The base case of chain validity: a freshly seeded one-block chain is
/// fully valid at any difficulty, since only non-genesis blocks are judged.
pub proof fn lemma_seeded_chain_valid(chain: Seq<BlockView>, difficulty: nat)
    requires
        chain.len() == 1,
    ensures
        chain_links_valid(chain, difficulty),
{
}

/// A chain built of valid appends stays valid: appending a candidate that
/// passes the admission check preserves full validity.
pub proof fn lemma_valid_append(chain: Seq<BlockView>, difficulty: nat, b: BlockView)
    requires
        chain_links_valid(chain, difficulty),
        chain.len() > 0,
        candidate_valid(chain, difficulty, b),
    ensures
        chain_links_valid(chain.push(b), difficulty),
{
    let pushed = chain.push(b);
    assert forall|i: int| 1 <= i < pushed.len() implies #[trigger] chain_entry_valid(
        pushed,
        difficulty,
        i,
    ) by {
        if i < chain.len() {
            assert(chain_entry_valid(chain, difficulty, i));
        }
    }
}

/// Mutating a stored block's payload breaks full validity, provided the new
/// payload does not hash to the very value the block already stores.
pub proof fn lemma_payload_mutation_invalidates(
    chain: Seq<BlockView>,
    difficulty: nat,
    i: int,
    data2: Seq<char>,
)
    requires
        1 <= i < chain.len(),
        sha256_hex_of(block_source(chain[i].previous_hash, chain[i].timestamp, chain[i].nonce, data2))
            != chain[i].hash,
    ensures
        !chain_links_valid(
            chain.update(i, BlockView { data: data2, ..chain[i] }),
            difficulty,
        ),
{
    let mutated = chain.update(i, BlockView { data: data2, ..chain[i] });
    assert(!chain_entry_valid(mutated, difficulty, i));
}

} // verus!
