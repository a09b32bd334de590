//! The wire protocol's data model: peer descriptions, block templates, and
//! the tagged message envelope exchanged between the coordinator and regular
//! nodes. The byte encoding lives in `codec`.

use vstd::prelude::*;
use vstd::string::StringExecFns;
use crate::block::{Block, BlockView, block_internally_valid};
use crate::strutil::{dec_nat, u64_to_string};
use crate::sys::now_timestamp;
use crate::transaction::{Transaction, TxView};

verus! {

#[derive(Debug, PartialEq, Eq)]
pub struct PeerInfo {
    pub node_id: String,
    pub address: String,
    pub last_seen: u64,
    pub blocks_mined: usize,
}

/// The mathematical image of a peer entry.
pub ghost struct PeerInfoView {
    pub node_id: Seq<char>,
    pub address: Seq<char>,
    pub last_seen: u64,
    pub blocks_mined: usize,
}

impl View for PeerInfo {
    type V = PeerInfoView;

    open spec fn view(&self) -> PeerInfoView {
        PeerInfoView {
            node_id: self.node_id@,
            address: self.address@,
            last_seen: self.last_seen,
            blocks_mined: self.blocks_mined,
        }
    }
}

impl DeepView for PeerInfo {
    type V = PeerInfoView;

    open spec fn deep_view(&self) -> PeerInfoView {
        self.view()
    }
}

impl Clone for PeerInfo {
    fn clone(&self) -> (r: Self)
        ensures
            r == *self,
    {
        PeerInfo {
            node_id: self.node_id.clone(),
            address: self.address.clone(),
            last_seen: self.last_seen,
            blocks_mined: self.blocks_mined,
        }
    }
}

#[derive(Debug, PartialEq, Eq)]
pub struct BlockTemplate {
    pub previous_hash: String,
    pub transactions: Vec<String>,
    pub difficulty: usize,
    pub timestamp: i64,
    pub block_number: usize,
}

/// The mathematical image of a block template.
pub ghost struct TemplateView {
    pub previous_hash: Seq<char>,
    pub transactions: Seq<Seq<char>>,
    pub difficulty: usize,
    pub timestamp: i64,
    pub block_number: usize,
}

impl View for BlockTemplate {
    type V = TemplateView;

    open spec fn view(&self) -> TemplateView {
        TemplateView {
            previous_hash: self.previous_hash@,
            transactions: self.transactions.deep_view(),
            difficulty: self.difficulty,
            timestamp: self.timestamp,
            block_number: self.block_number,
        }
    }
}

/// The payload text of a block built from a template.
pub open spec fn template_block_data(block_number: nat, tx_count: nat) -> Seq<char> {
    "Block "@ + dec_nat(block_number) + " with "@ + dec_nat(tx_count) + " transactions"@
}

impl BlockTemplate {
    /// Builds a template stamped with the current time.
    pub fn new(
        previous_hash: String,
        transactions: Vec<String>,
        difficulty: usize,
        block_number: usize,
    ) -> (t: BlockTemplate)
        ensures
            t@.previous_hash == previous_hash@,
            t@.transactions == transactions.deep_view(),
            t@.difficulty == difficulty,
            t@.block_number == block_number,
    {
        BlockTemplate {
            previous_hash,
            transactions,
            difficulty,
            timestamp: now_timestamp(),
            block_number,
        }
    }

    /// Fills the template with a nonce, producing the block a miner searches
    /// for.
    pub fn to_block(&self, nonce: u64) -> (b: Block)
        ensures
            b@.previous_hash == self@.previous_hash,
            b@.timestamp == self@.timestamp,
            b@.nonce == nonce,
            b@.data == template_block_data(
                self@.block_number as nat,
                self@.transactions.len() as nat,
            ),
            block_internally_valid(b@),
    {
        let mut data = "Block ".to_owned();
        let number = u64_to_string(self.block_number as u64);
        data.append(number.as_str());
        data.append(" with ");
        let count = u64_to_string(self.transactions.len() as u64);
        data.append(count.as_str());
        data.append(" transactions");
        Block::new(self.previous_hash.clone(), self.timestamp, nonce, data)
    }
}

#[derive(Debug, PartialEq, Eq)]
pub enum P2PMessage {
    /// The mandatory first message on every connection.
    Join { node_id: String, address: String, timestamp: u64 },
    /// The list of currently connected peers.
    PeerList { peers: Vec<PeerInfo> },
    /// Asks the coordinator for its chain.
    RequestBlockchain { requester_id: String },
    /// The full chain, replacing the requester's copy wholesale.
    BlockchainSync { chain: Vec<Block> },
    /// Starts mining against a template (accepted but not acted on).
    MiningStart { template: BlockTemplate },
    /// Stops mining (accepted but not acted on).
    MiningStop,
    /// A freshly produced block.
    NewBlock { block: Block, miner_id: String },
    /// A transaction to relay into every mempool.
    NewTransaction { transaction: Transaction, from_node: String },
    /// A liveness beacon; the coordinator answers with a Pong.
    Heartbeat { node_id: String, timestamp: u64 },
    /// The answer to a heartbeat.
    Pong { node_id: String },
}

/// The mathematical image of a message.
pub ghost enum MessageView {
    Join { node_id: Seq<char>, address: Seq<char>, timestamp: u64 },
    PeerList { peers: Seq<PeerInfoView> },
    RequestBlockchain { requester_id: Seq<char> },
    BlockchainSync { chain: Seq<BlockView> },
    MiningStart { template: TemplateView },
    MiningStop,
    NewBlock { block: BlockView, miner_id: Seq<char> },
    NewTransaction { transaction: TxView, from_node: Seq<char> },
    Heartbeat { node_id: Seq<char>, timestamp: u64 },
    Pong { node_id: Seq<char> },
}

impl View for P2PMessage {
    type V = MessageView;

    open spec fn view(&self) -> MessageView {
        match self {
            P2PMessage::Join { node_id, address, timestamp } => MessageView::Join {
                node_id: node_id@,
                address: address@,
                timestamp: *timestamp,
            },
            P2PMessage::PeerList { peers } => MessageView::PeerList { peers: peers.deep_view() },
            P2PMessage::RequestBlockchain { requester_id } => MessageView::RequestBlockchain {
                requester_id: requester_id@,
            },
            P2PMessage::BlockchainSync { chain } => MessageView::BlockchainSync {
                chain: chain.deep_view(),
            },
            P2PMessage::MiningStart { template } => MessageView::MiningStart {
                template: template@,
            },
            P2PMessage::MiningStop => MessageView::MiningStop,
            P2PMessage::NewBlock { block, miner_id } => MessageView::NewBlock {
                block: block@,
                miner_id: miner_id@,
            },
            P2PMessage::NewTransaction { transaction, from_node } => MessageView::NewTransaction {
                transaction: transaction@,
                from_node: from_node@,
            },
            P2PMessage::Heartbeat { node_id, timestamp } => MessageView::Heartbeat {
                node_id: node_id@,
                timestamp: *timestamp,
            },
            P2PMessage::Pong { node_id } => MessageView::Pong { node_id: node_id@ },
        }
    }
}

} // verus!
