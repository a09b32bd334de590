//! A regular node: joins the coordinator, mirrors the chain and peer list,
//! keeps a local mempool, and stays alive through heartbeats. The functions
//! here are the decisions of the node's loops; the loops themselves, and all
//! socket traffic, live with the caller.

use vstd::prelude::*;
use vstd::string::StringExecFns;
use crate::block::{Blockchain, candidate_valid};
use crate::mempool::{TransactionPool, has_signature};
use crate::protocol::{MessageView, P2PMessage, PeerInfo, PeerInfoView};
use crate::transaction::{Transaction, TxView, sig_of};

verus! {

/// How many consecutive heartbeat failures end the session.
pub open spec fn heartbeat_failure_limit() -> u8 {
    3
}

pub struct RegularNode {
    pub node_id: String,
    pub blockchain: Blockchain,
    pub peers: Vec<PeerInfo>,
    pub mempool: TransactionPool,
    pub running: bool,
    pub heartbeat_failures: u8,
}

impl RegularNode {
    /// The peer cache's mathematical image.
    pub open spec fn peers_view(&self) -> Seq<PeerInfoView> {
        self.peers.deep_view()
    }

    /// The local chain is never empty, the mempool deduplicated, and the
    /// failure counter within its limit.
    pub open spec fn wf(&self) -> bool {
        &&& self.blockchain.blocks().len() > 0
        &&& self.mempool.wf()
        &&& self.heartbeat_failures <= heartbeat_failure_limit()
    }

    /// A fresh node: a genesis chain at difficulty five, an empty peer
    /// cache, a mempool bounded at a thousand entries, alive.
    pub fn new(node_id: String) -> (n: RegularNode)
        ensures
            n.wf(),
            n.node_id@ == node_id@,
            n.blockchain.difficulty == 5,
            n.blockchain.blocks().len() == 1,
            n.peers_view() == Seq::<PeerInfoView>::empty(),
            n.mempool@ == Seq::<TxView>::empty(),
            n.mempool.spec_capacity() == 1000,
            n.running,
            n.heartbeat_failures == 0,
    {
        let n = RegularNode {
            node_id,
            blockchain: Blockchain::new(5),
            peers: Vec::new(),
            mempool: TransactionPool::new(1000),
            running: true,
            heartbeat_failures: 0,
        };
        proof {
            assert(n.peers_view() =~= Seq::<PeerInfoView>::empty());
        }
        n
    }

    /// The mandatory first frame on a fresh connection.
    pub fn join_message(&self, timestamp: u64) -> (m: P2PMessage)
        ensures
            m@ == (MessageView::Join {
                node_id: self.node_id@,
                address: "unknown"@,
                timestamp,
            }),
    {
        P2PMessage::Join {
            node_id: self.node_id.clone(),
            address: "unknown".to_owned(),
            timestamp,
        }
    }

    /// Asks the coordinator for its chain.
    pub fn sync_request(&self) -> (m: P2PMessage)
        ensures
            m@ == (MessageView::RequestBlockchain { requester_id: self.node_id@ }),
    {
        P2PMessage::RequestBlockchain { requester_id: self.node_id.clone() }
    }

    /// The periodic liveness beacon.
    pub fn heartbeat_message(&self, timestamp: u64) -> (m: P2PMessage)
        ensures
            m@ == (MessageView::Heartbeat { node_id: self.node_id@, timestamp }),
    {
        P2PMessage::Heartbeat { node_id: self.node_id.clone(), timestamp }
    }

    /// Books one heartbeat outcome: a success clears the failure streak;
    /// the third consecutive failure marks the node no longer running.
    pub fn record_heartbeat_result(&mut self, ok: bool)
        requires
            old(self).wf(),
        ensures
            final(self).wf(),
            final(self).node_id == old(self).node_id,
            final(self).blockchain == old(self).blockchain,
            final(self).peers == old(self).peers,
            final(self).mempool == old(self).mempool,
            ok ==> final(self).heartbeat_failures == 0 && final(self).running == old(
                self,
            ).running,
            !ok ==> {
                &&& final(self).heartbeat_failures == if old(self).heartbeat_failures
                    < heartbeat_failure_limit() {
                    (old(self).heartbeat_failures + 1) as u8
                } else {
                    old(self).heartbeat_failures
                }
                &&& final(self).running == (old(self).running && final(self).heartbeat_failures
                    < heartbeat_failure_limit())
            },
    {
        if ok {
            self.heartbeat_failures = 0;
        } else {
            if self.heartbeat_failures < 3 {
                self.heartbeat_failures = self.heartbeat_failures + 1;
            }
            if self.heartbeat_failures >= 3 {
                self.running = false;
            }
        }
    }

    /// A fatal connection error ends the session at once.
    pub fn mark_disconnected(&mut self)
        ensures
            final(self).node_id == old(self).node_id,
            final(self).blockchain == old(self).blockchain,
            final(self).peers == old(self).peers,
            final(self).mempool == old(self).mempool,
            final(self).heartbeat_failures == old(self).heartbeat_failures,
            !final(self).running,
    {
        self.running = false;
    }

    /// The receive-loop dispatch:
    /// - a peer list replaces the local cache wholesale;
    /// - a chain sync replaces the local chain wholesale (an empty chain is
    ///   rejected: the local chain stays non-empty);
    /// - a new block is appended only when it passes the candidate check
    ///   against the local tip and difficulty;
    /// - a relayed transaction is validated and deduplicated into the
    ///   local mempool;
    /// - everything else is tolerated and ignored.
    pub fn handle_message(&mut self, msg: P2PMessage)
        requires
            old(self).wf(),
        ensures
            final(self).wf(),
            final(self).node_id == old(self).node_id,
            final(self).running == old(self).running,
            final(self).heartbeat_failures == old(self).heartbeat_failures,
            match msg@ {
                MessageView::PeerList { peers } => {
                    &&& final(self).peers_view() == peers
                    &&& final(self).blockchain == old(self).blockchain
                    &&& final(self).mempool == old(self).mempool
                },
                MessageView::BlockchainSync { chain } => {
                    &&& final(self).mempool == old(self).mempool
                    &&& final(self).peers == old(self).peers
                    &&& final(self).blockchain.difficulty == old(self).blockchain.difficulty
                    &&& final(self).blockchain.blocks() == if chain.len() > 0 {
                        chain
                    } else {
                        old(self).blockchain.blocks()
                    }
                },
                MessageView::NewBlock { block, miner_id } => {
                    &&& final(self).mempool == old(self).mempool
                    &&& final(self).peers == old(self).peers
                    &&& final(self).blockchain.difficulty == old(self).blockchain.difficulty
                    &&& final(self).blockchain.blocks() == if candidate_valid(
                        old(self).blockchain.blocks(),
                        old(self).blockchain.difficulty as nat,
                        block,
                    ) {
                        old(self).blockchain.blocks().push(block)
                    } else {
                        old(self).blockchain.blocks()
                    }
                },
                MessageView::NewTransaction { transaction, from_node } => {
                    &&& final(self).peers == old(self).peers
                    &&& final(self).blockchain == old(self).blockchain
                    &&& if transaction.signature.len() != 0 && old(self).mempool@.len() < old(
                        self,
                    ).mempool.spec_capacity() && !has_signature(
                        old(self).mempool@,
                        transaction.signature,
                    ) {
                        final(self).mempool@ == old(self).mempool@.push(transaction)
                    } else {
                        final(self).mempool@ == old(self).mempool@
                    }
                },
                _ => *final(self) == *old(self),
            },
    {
        match msg {
            P2PMessage::PeerList { peers } => {
                self.peers = peers;
            },
            P2PMessage::BlockchainSync { chain } => {
                if chain.len() > 0 {
                    self.blockchain.chain = chain;
                }
            },
            P2PMessage::NewBlock { block, miner_id: _ } => {
                if self.blockchain.validate_block(&block) {
                    self.blockchain.add_block(block);
                }
            },
            P2PMessage::NewTransaction { transaction, from_node: _ } => {
                if transaction.validate() {
                    let _ = self.mempool.add_transaction(transaction);
                }
            },
            _ => {},
        }
    }

    /// Builds, pools, and announces a transaction. The local mempool entry
    /// is kept even if the caller later fails to send the returned message
    /// (eventual consistency, as designed). A full pool or a duplicate
    /// signature is reported and nothing is pooled.
    pub fn submit_transaction(&mut self, from: String, to: String, amount: u64) -> (r: Result<
        P2PMessage,
        String,
    >)
        requires
            old(self).wf(),
        ensures
            final(self).wf(),
            final(self).node_id == old(self).node_id,
            final(self).blockchain == old(self).blockchain,
            final(self).peers == old(self).peers,
            final(self).running == old(self).running,
            ({
                let tx = TxView {
                    from: from@,
                    to: to@,
                    amount,
                    signature: sig_of(from@, to@, amount),
                };
                if old(self).mempool@.len() >= old(self).mempool.spec_capacity() {
                    &&& (r matches Err(m) && m@ == "Transaction pool is full"@)
                    &&& final(self).mempool@ == old(self).mempool@
                } else if has_signature(old(self).mempool@, tx.signature) {
                    &&& (r matches Err(m) && m@ == "Duplicate transaction"@)
                    &&& final(self).mempool@ == old(self).mempool@
                } else {
                    &&& (r matches Ok(m) && m@ == (MessageView::NewTransaction {
                        transaction: tx,
                        from_node: old(self).node_id@,
                    }))
                    &&& final(self).mempool@ == old(self).mempool@.push(tx)
                }
            }),
    {
        let tx = Transaction::new(from, to, amount);
        proof {
            assert(tx@.signature.len() >= 4);
        }
        let valid = tx.validate();
        proof {
            assert(valid);
        }
        let announced = tx.clone();
        match self.mempool.add_transaction(tx) {
            Ok(()) => Ok(
                P2PMessage::NewTransaction {
                    transaction: announced,
                    from_node: self.node_id.clone(),
                },
            ),
            Err(e) => Err(e),
        }
    }
}

} // verus!
