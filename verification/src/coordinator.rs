//! The coordinator: the single rendezvous point of the star topology. It
//! owns the authoritative peer registry, the canonical chain, and the shared
//! mempool. Every connection must open with a Join; afterwards each incoming
//! message maps to a new state and a list of network actions that the caller
//! performs (replying on the same connection, or broadcasting to all).

use vstd::prelude::*;
use crate::block::{Block, Blockchain};
use crate::error::NetworkError;
use crate::mempool::{TransactionPool, has_signature};
use crate::protocol::{BlockTemplate, MessageView, P2PMessage, PeerInfo, PeerInfoView};
use crate::strutil::str_eq;
use crate::transaction::TxView;

verus! {

/// What the caller must do on the network after a message was handled.
pub enum NetAction {
    /// Send to the connection the handled message arrived on.
    Reply(P2PMessage),
    /// Send to every registered connection, best effort.
    Broadcast(P2PMessage),
}

/// Whether some peer entry carries this node id.
pub open spec fn has_peer(ps: Seq<PeerInfoView>, id: Seq<char>) -> bool {
    exists|i: int| 0 <= i < ps.len() && ps[i].node_id == id
}

/// The index of the entry carrying this node id.
pub open spec fn peer_index(ps: Seq<PeerInfoView>, id: Seq<char>) -> int {
    choose|i: int| 0 <= i < ps.len() && ps[i].node_id == id
}

/// Node ids are pairwise distinct.
pub open spec fn unique_peer_ids(ps: Seq<PeerInfoView>) -> bool {
    forall|i: int, j: int|
        0 <= i < j < ps.len() ==> #[trigger] ps[i].node_id != #[trigger] ps[j].node_id
}

/// The predicate kept by peer removal: the entry's id differs from the one
/// removed.
pub open spec fn keep_other(id: Seq<char>) -> spec_fn(PeerInfoView) -> bool {
    |p: PeerInfoView| p.node_id != id
}

/// Whether a peer entry has outlived the heartbeat window.
pub open spec fn peer_stale(p: PeerInfoView, now: u64, timeout: u64) -> bool {
    p.last_seen + timeout < now
}

/// The predicate kept by eviction: the entry is still fresh.
pub open spec fn keep_fresh(now: u64, timeout: u64) -> spec_fn(PeerInfoView) -> bool {
    |p: PeerInfoView| !peer_stale(p, now, timeout)
}

/// The predicate matching evicted entries.
pub open spec fn is_stale(now: u64, timeout: u64) -> spec_fn(PeerInfoView) -> bool {
    |p: PeerInfoView| peer_stale(p, now, timeout)
}

/// Projects a peer entry to its node id.
pub open spec fn peer_id_fn() -> spec_fn(PeerInfoView) -> Seq<char> {
    |p: PeerInfoView| p.node_id
}

/// Projects a transaction to its signature.
pub open spec fn tx_signature_fn() -> spec_fn(TxView) -> Seq<char> {
    |tx: TxView| tx.signature
}

pub struct Coordinator {
    pub blockchain: Blockchain,
    pub peers: Vec<PeerInfo>,
    pub mempool: TransactionPool,
}

/// What handling a Join must do: the joiner registered under its declared id
/// (re-registration overwrites the old entry), chain and mempool untouched,
/// and two actions produced — the other peers for the joiner, the full list
/// for everyone.
pub open spec fn join_effect(
    pre: Coordinator,
    post: Coordinator,
    node_id: Seq<char>,
    address: Seq<char>,
    now: u64,
    actions: Seq<NetAction>,
) -> bool {
    let entry = PeerInfoView { node_id, address, last_seen: now, blocks_mined: 0 };
    &&& post.blockchain == pre.blockchain
    &&& post.mempool == pre.mempool
    &&& post.peers_view() == if has_peer(pre.peers_view(), node_id) {
        pre.peers_view().update(peer_index(pre.peers_view(), node_id), entry)
    } else {
        pre.peers_view().push(entry)
    }
    &&& actions.len() == 2
    &&& (actions[0] matches NetAction::Reply(m) && m@ == (MessageView::PeerList {
        peers: post.peers_view().filter(keep_other(node_id)),
    }))
    &&& (actions[1] matches NetAction::Broadcast(m) && m@ == (MessageView::PeerList {
        peers: post.peers_view(),
    }))
}

/// What the Registered-phase dispatch must do for each message kind: a chain
/// request answered with a snapshot, a heartbeat refreshing `last_seen` and
/// answered with a Pong, a valid new transaction pooled and relayed once,
/// everything else ignored and the state untouched.
pub open spec fn dispatch_effect(
    pre: Coordinator,
    post: Coordinator,
    m: MessageView,
    actions: Seq<NetAction>,
) -> bool {
    &&& post.blockchain == pre.blockchain
    &&& match m {
        MessageView::RequestBlockchain { requester_id } => {
            &&& post == pre
            &&& actions.len() == 1
            &&& (actions[0] matches NetAction::Reply(x) && x@ == (MessageView::BlockchainSync {
                chain: pre.blockchain.blocks(),
            }))
        },
        MessageView::Heartbeat { node_id, timestamp } => {
            &&& post.mempool == pre.mempool
            &&& post.peers_view() == if has_peer(pre.peers_view(), node_id) {
                let i = peer_index(pre.peers_view(), node_id);
                pre.peers_view().update(
                    i,
                    PeerInfoView { last_seen: timestamp, ..pre.peers_view()[i] },
                )
            } else {
                pre.peers_view()
            }
            &&& actions.len() == 1
            &&& (actions[0] matches NetAction::Reply(x) && x@ == (MessageView::Pong {
                node_id: "bootstrap"@,
            }))
        },
        MessageView::NewTransaction { transaction, from_node } => {
            &&& post.peers_view() == pre.peers_view()
            &&& if transaction.signature.len() != 0 && pre.mempool@.len()
                < pre.mempool.spec_capacity() && !has_signature(
                pre.mempool@,
                transaction.signature,
            ) {
                &&& post.mempool@ == pre.mempool@.push(transaction)
                &&& actions.len() == 1
                &&& (actions[0] matches NetAction::Broadcast(x) && x@
                    == (MessageView::NewTransaction { transaction, from_node }))
            } else {
                &&& post.mempool@ == pre.mempool@
                &&& actions.len() == 0
            }
        },
        _ => {
            &&& post == pre
            &&& actions.len() == 0
        },
    }
}

impl Coordinator {
    /// The registry's mathematical image.
    pub open spec fn peers_view(&self) -> Seq<PeerInfoView> {
        self.peers.deep_view()
    }

    /// The registry holds one entry per node id, the mempool one entry per
    /// signature, and the chain is never empty.
    pub open spec fn wf(&self) -> bool {
        &&& unique_peer_ids(self.peers_view())
        &&& self.mempool.wf()
        &&& self.blockchain.blocks().len() > 0
    }

    /// A fresh coordinator: a genesis chain at difficulty five, an empty
    /// registry, and a mempool bounded at a thousand entries.
    pub fn new() -> (c: Coordinator)
        ensures
            c.wf(),
            c.peers_view() == Seq::<PeerInfoView>::empty(),
            c.blockchain.difficulty == 5,
            c.blockchain.blocks().len() == 1,
            c.mempool@ == Seq::<TxView>::empty(),
            c.mempool.spec_capacity() == 1000,
    {
        let c = Coordinator {
            blockchain: Blockchain::new(5),
            peers: Vec::new(),
            mempool: TransactionPool::new(1000),
        };
        proof {
            assert(c.peers_view() =~= Seq::<PeerInfoView>::empty());
        }
        c
    }

    /// Finds the index of a registered peer.
    fn find_peer(&self, node_id: &str) -> (r: Option<usize>)
        ensures
            match r {
                Some(i) => i < self.peers_view().len() && self.peers_view()[i as int].node_id
                    == node_id@,
                None => !has_peer(self.peers_view(), node_id@),
            },
    {
        let mut i: usize = 0;
        while i < self.peers.len()
            invariant
                i <= self.peers.len(),
                self.peers_view().len() == self.peers.len(),
                forall|j: int| 0 <= j < i ==> self.peers_view()[j].node_id != node_id@,
            decreases self.peers.len() - i,
        {
            proof {
                assert(self.peers_view()[i as int] == self.peers@[i as int]@);
            }
            if str_eq(self.peers[i].node_id.as_str(), node_id) {
                return Some(i);
            }
            i += 1;
        }
        None
    }

    /// The registered peers, as a fresh list.
    pub fn peer_list(&self) -> (r: Vec<PeerInfo>)
        ensures
            r.deep_view() == self.peers_view(),
    {
        let mut out: Vec<PeerInfo> = Vec::new();
        let mut i: usize = 0;
        while i < self.peers.len()
            invariant
                i <= self.peers.len(),
                self.peers_view().len() == self.peers.len(),
                out.deep_view() =~= self.peers_view().take(i as int),
            decreases self.peers.len() - i,
        {
            let ghost prevraw = out@;
            let ghost prev = out.deep_view();
            out.push(self.peers[i].clone());
            proof {
                assert(out@.len() == prevraw.len() + 1);
                assert(prev.len() == prevraw.len());
                assert(out.deep_view().len() == out@.len());
                assert(forall|k: int| 0 <= k < prevraw.len() ==> out.deep_view()[k] == prev[k]);
                assert(out.deep_view()[i as int] == out@[i as int]@);
                assert(out.deep_view() =~= self.peers_view().take(i as int + 1));
            }
            i += 1;
        }
        proof {
            assert(self.peers_view().take(self.peers_view().len() as int) =~= self.peers_view());
        }
        out
    }

    /// The registered peers except one id, as a fresh list.
    fn peer_list_except(&self, node_id: &str) -> (r: Vec<PeerInfo>)
        ensures
            r.deep_view() == self.peers_view().filter(keep_other(node_id@)),
    {
        let ghost keep = keep_other(node_id@);
        let mut out: Vec<PeerInfo> = Vec::new();
        let mut i: usize = 0;
        proof {
            reveal(Seq::filter);
            assert(out.deep_view() =~= self.peers_view().take(0).filter(keep));
        }
        while i < self.peers.len()
            invariant
                i <= self.peers.len(),
                self.peers_view().len() == self.peers.len(),
                out.deep_view() == self.peers_view().take(i as int).filter(keep_other(node_id@)),
            decreases self.peers.len() - i,
        {
            let ghost keep = keep_other(node_id@);
            proof {
                assert(self.peers_view()[i as int] == self.peers@[i as int]@);
            }
            let ghost prevraw = out@;
            let ghost prev = out.deep_view();
            if !str_eq(self.peers[i].node_id.as_str(), node_id) {
                out.push(self.peers[i].clone());
                proof {
                    assert(out@.len() == prevraw.len() + 1);
                    assert(prev.len() == prevraw.len());
                    assert(out.deep_view().len() == out@.len());
                    assert(forall|k: int| 0 <= k < prevraw.len() ==> out.deep_view()[k] == prev[k]);
                    assert(out.deep_view()[prevraw.len() as int] == out@[prevraw.len() as int]@);
                }
            }
            proof {
                reveal(Seq::filter);
                let prefix = self.peers_view().take(i as int);
                let next = self.peers_view().take(i as int + 1);
                assert(next.drop_last() =~= prefix);
                assert(next.last() == self.peers_view()[i as int]);
                assert(out.deep_view() =~= next.filter(keep));
            }
            i += 1;
        }
        proof {
            assert(self.peers_view().take(self.peers_view().len() as int) =~= self.peers_view());
        }
        out
    }

    /// The AwaitingJoin step: the very first message on a connection must be
    /// a Join. A Join registers the peer (re-registering overwrites the old
    /// entry) and produces two actions: the joiner is sent the list of the
    /// other peers, and the full list is broadcast. Anything else is
    /// rejected and nothing is registered.
    pub fn handle_join(&mut self, msg: &P2PMessage, now: u64) -> (r: Result<
        (String, Vec<NetAction>),
        NetworkError,
    >)
        requires
            old(self).wf(),
        ensures
            final(self).wf(),
            match msg@ {
                MessageView::Join { node_id, address, timestamp } => {
                    &&& r matches Ok((id, actions))
                    &&& id@ == node_id
                    &&& join_effect(*old(self), *final(self), node_id, address, now, actions@)
                },
                _ => {
                    &&& (r matches Err(e) && e matches NetworkError::InvalidMessage(_))
                    &&& *final(self) == *old(self)
                },
            },
    {
        let (node_id, address) = match msg {
            P2PMessage::Join { node_id, address, timestamp: _ } => (
                node_id.clone(),
                address.clone(),
            ),
            _ => {
                return Err(
                    NetworkError::InvalidMessage("first message must be Join".to_owned()),
                );
            },
        };
        let entry = PeerInfo { node_id: node_id.clone(), address, last_seen: now, blocks_mined: 0 };
        match self.find_peer(node_id.as_str()) {
            Some(i) => {
                proof {
                    let ps = self.peers_view();
                    assert(has_peer(ps, node_id@));
                    let j = peer_index(ps, node_id@);
                    assert(0 <= j < ps.len() && ps[j].node_id == node_id@);
                    assert(j == i as int);
                }
                let ghost prevview = self.peers_view();
                self.peers[i] = entry;
                proof {
                    assert(self.peers_view() =~= prevview.update(i as int, self.peers@[i as int]@));
                    assert forall|a: int, b: int|
                        0 <= a < b < self.peers_view().len() implies #[trigger] self.peers_view()[a].node_id
                        != #[trigger] self.peers_view()[b].node_id by {
                        assert(prevview[a].node_id != prevview[b].node_id);
                    }
                }
            },
            None => {
                let ghost prevview = self.peers_view();
                self.peers.push(entry);
                proof {
                    assert(self.peers_view() =~= prevview.push(
                        self.peers@[self.peers@.len() - 1]@,
                    ));
                    assert forall|a: int, b: int|
                        0 <= a < b < self.peers_view().len() implies #[trigger] self.peers_view()[a].node_id
                        != #[trigger] self.peers_view()[b].node_id by {
                        if b < prevview.len() {
                            assert(prevview[a].node_id != prevview[b].node_id);
                        } else {
                            assert(!has_peer(prevview, node_id@));
                            assert(self.peers_view()[b].node_id == node_id@);
                        }
                    }
                }
            },
        }
        let others = self.peer_list_except(node_id.as_str());
        let all = self.peer_list();
        let mut actions: Vec<NetAction> = Vec::new();
        actions.push(NetAction::Reply(P2PMessage::PeerList { peers: others }));
        actions.push(NetAction::Broadcast(P2PMessage::PeerList { peers: all }));
        Ok((node_id, actions))
    }

    /// The Registered-phase dispatch. Each arm says exactly what changes and
    /// which actions come back:
    /// - a chain request is answered with a snapshot of the chain;
    /// - a heartbeat refreshes the sender's `last_seen` and is answered with
    ///   a Pong;
    /// - a new transaction is deduplicated into the mempool and, when
    ///   accepted, relayed to every peer;
    /// - everything else is tolerated and ignored.
    pub fn handle_message(&mut self, from: &str, msg: &P2PMessage) -> (actions: Vec<NetAction>)
        requires
            old(self).wf(),
        ensures
            final(self).wf(),
            dispatch_effect(*old(self), *final(self), msg@, actions@),
    {
        let mut actions: Vec<NetAction> = Vec::new();
        match msg {
            P2PMessage::RequestBlockchain { requester_id: _ } => {
                let mut chain: Vec<Block> = Vec::new();
                let mut i: usize = 0;
                while i < self.blockchain.chain.len()
                    invariant
                        i <= self.blockchain.chain.len(),
                        chain@ =~= self.blockchain.chain@.take(i as int),
                    decreases self.blockchain.chain.len() - i,
                {
                    chain.push(self.blockchain.chain[i].clone());
                    proof {
                        assert(chain@ =~= self.blockchain.chain@.take(i as int + 1));
                    }
                    i += 1;
                }
                proof {
                    assert(self.blockchain.chain@.take(self.blockchain.chain@.len() as int)
                        =~= self.blockchain.chain@);
                    assert(chain.deep_view() =~= self.blockchain.blocks());
                }
                actions.push(NetAction::Reply(P2PMessage::BlockchainSync { chain }));
            },
            P2PMessage::Heartbeat { node_id, timestamp } => {
                match self.find_peer(node_id.as_str()) {
                    Some(i) => {
                        proof {
                            let ps = self.peers_view();
                            assert(has_peer(ps, node_id@));
                            let j = peer_index(ps, node_id@);
                            assert(0 <= j < ps.len() && ps[j].node_id == node_id@);
                            assert(j == i as int);
                        }
                        let ghost prevview = self.peers_view();
                        let mut p = self.peers[i].clone();
                        p.last_seen = *timestamp;
                        self.peers[i] = p;
                        proof {
                            assert(self.peers_view() =~= prevview.update(
                                i as int,
                                self.peers@[i as int]@,
                            ));
                            assert forall|a: int, b: int|
                                0 <= a < b < self.peers_view().len() implies #[trigger] self.peers_view()[a].node_id
                                != #[trigger] self.peers_view()[b].node_id by {
                                assert(prevview[a].node_id != prevview[b].node_id);
                            }
                        }
                    },
                    None => {},
                }
                actions.push(NetAction::Reply(P2PMessage::Pong {
                    node_id: "bootstrap".to_owned(),
                }));
            },
            P2PMessage::NewTransaction { transaction, from_node } => {
                if transaction.validate() {
                    match self.mempool.add_transaction(transaction.clone()) {
                        Ok(()) => {
                            actions.push(NetAction::Broadcast(P2PMessage::NewTransaction {
                                transaction: transaction.clone(),
                                from_node: from_node.clone(),
                            }));
                        },
                        Err(_) => {},
                    }
                }
            },
            _ => {},
        }
        actions
    }

    /// Evicts every peer whose heartbeat is older than the timeout, and
    /// announces the updated peer list to everyone who remains. Returns the
    /// evicted node ids.
    pub fn evict_stale(&mut self, now: u64, timeout: u64) -> (r: (Vec<String>, Vec<NetAction>))
        requires
            old(self).wf(),
        ensures
            final(self).wf(),
            final(self).blockchain == old(self).blockchain,
            final(self).mempool == old(self).mempool,
            final(self).peers_view() == old(self).peers_view().filter(keep_fresh(now, timeout)),
            r.0.deep_view() == old(self).peers_view().filter(is_stale(now, timeout)).map_values(
                peer_id_fn(),
            ),
            r.1@.len() == 1,
            (r.1@[0] matches NetAction::Broadcast(m) && m@ == (MessageView::PeerList {
                peers: final(self).peers_view(),
            })),
    {
        let ghost keep = keep_fresh(now, timeout);
        let ghost stale = is_stale(now, timeout);
        let mut kept: Vec<PeerInfo> = Vec::new();
        let mut removed: Vec<String> = Vec::new();
        let mut i: usize = 0;
        proof {
            reveal(Seq::filter);
            assert(kept.deep_view() =~= self.peers_view().take(0).filter(keep));
            assert(removed.deep_view() =~= self.peers_view().take(0).filter(stale).map_values(
                peer_id_fn(),
            ));
        }
        while i < self.peers.len()
            invariant
                i <= self.peers.len(),
                self.peers_view().len() == self.peers.len(),
                unique_peer_ids(self.peers_view()),
                kept.deep_view() == self.peers_view().take(i as int).filter(
                    keep_fresh(now, timeout),
                ),
                removed.deep_view() == self.peers_view().take(i as int).filter(
                    is_stale(now, timeout),
                ).map_values(peer_id_fn()),
                forall|k: int|
                    0 <= k < kept.deep_view().len() ==> has_peer(
                        self.peers_view().take(i as int),
                        #[trigger] kept.deep_view()[k].node_id,
                    ),
                unique_peer_ids(kept.deep_view()),
            decreases self.peers.len() - i,
        {
            let ghost keep = keep_fresh(now, timeout);
            let ghost stale = is_stale(now, timeout);
            proof {
                assert(self.peers_view()[i as int] == self.peers@[i as int]@);
            }
            let entry = &self.peers[i];
            let entry_stale = now > timeout && entry.last_seen < now - timeout;
            proof {
                assert(entry_stale == peer_stale(entry@, now, timeout));
            }
            let ghost kept_prevraw = kept@;
            let ghost kept_prev = kept.deep_view();
            let ghost removed_prevraw = removed@;
            let ghost removed_prev = removed.deep_view();
            if entry_stale {
                removed.push(entry.node_id.clone());
                proof {
                    assert(removed@.len() == removed_prevraw.len() + 1);
                    assert(removed_prev.len() == removed_prevraw.len());
                    assert(removed.deep_view().len() == removed@.len());
                    assert(forall|k: int|
                        0 <= k < removed_prevraw.len() ==> removed.deep_view()[k]
                            == removed_prev[k]);
                    assert(removed.deep_view()[removed_prevraw.len() as int] == removed@[
                        removed_prevraw.len() as int]@);
                    assert(removed.deep_view() =~= removed_prev.push(entry@.node_id));
                }
            } else {
                proof {
                    assert forall|k: int| 0 <= k < kept.deep_view().len() implies
                        kept.deep_view()[k].node_id != entry@.node_id by {
                        let id = kept.deep_view()[k].node_id;
                        assert(has_peer(self.peers_view().take(i as int), id));
                        let m = choose|m: int|
                            0 <= m < self.peers_view().take(i as int).len() && self.peers_view().take(
                                i as int,
                            )[m].node_id == id;
                        assert(self.peers_view()[m].node_id == id);
                        assert(self.peers_view()[i as int].node_id == entry@.node_id);
                    }
                }
                kept.push(entry.clone());
                proof {
                    assert(kept@.len() == kept_prevraw.len() + 1);
                    assert(kept_prev.len() == kept_prevraw.len());
                    assert(kept.deep_view().len() == kept@.len());
                    assert(forall|k: int|
                        0 <= k < kept_prevraw.len() ==> kept.deep_view()[k] == kept_prev[k]);
                    assert(kept.deep_view()[kept_prevraw.len() as int] == kept@[
                        kept_prevraw.len() as int]@);
                }
            }
            proof {
                reveal(Seq::filter);
                let prefix = self.peers_view().take(i as int);
                let next = self.peers_view().take(i as int + 1);
                assert(next.drop_last() =~= prefix);
                assert(next.last() == self.peers_view()[i as int]);
                assert(kept.deep_view() =~= next.filter(keep));
                if peer_stale(next.last(), now, timeout) {
                    assert(next.filter(stale) == prefix.filter(stale).push(next.last()));
                    prefix.filter(stale).lemma_push_map_commute(peer_id_fn(), next.last());
                    assert(peer_id_fn()(next.last()) == next.last().node_id);
                    assert(removed.deep_view() == next.filter(stale).map_values(peer_id_fn()));
                } else {
                    assert(next.filter(stale) == prefix.filter(stale));
                    assert(removed.deep_view() == next.filter(stale).map_values(peer_id_fn()));
                }
                assert forall|k: int| 0 <= k < kept.deep_view().len() implies has_peer(
                    next,
                    #[trigger] kept.deep_view()[k].node_id,
                ) by {
                    let id = kept.deep_view()[k].node_id;
                    if has_peer(prefix, id) {
                        let m = choose|m: int|
                            0 <= m < prefix.len() && prefix[m].node_id == id;
                        assert(next[m].node_id == id);
                    } else {
                        assert(id == self.peers_view()[i as int].node_id);
                        assert(next[i as int].node_id == id);
                    }
                }
            }
            i += 1;
        }
        proof {
            assert(self.peers_view().take(self.peers_view().len() as int) =~= self.peers_view());
        }
        self.peers = kept;
        let remaining = self.peer_list();
        let mut actions: Vec<NetAction> = Vec::new();
        actions.push(NetAction::Broadcast(P2PMessage::PeerList { peers: remaining }));
        (removed, actions)
    }

    /// Drops one peer from the registry (as happens when its connection
    /// fails) and announces the updated peer list to the rest.
    pub fn remove_peer(&mut self, node_id: &str) -> (actions: Vec<NetAction>)
        requires
            old(self).wf(),
        ensures
            final(self).wf(),
            final(self).blockchain == old(self).blockchain,
            final(self).mempool == old(self).mempool,
            final(self).peers_view() == old(self).peers_view().filter(keep_other(node_id@)),
            actions@.len() == 1,
            (actions@[0] matches NetAction::Broadcast(m) && m@ == (MessageView::PeerList {
                peers: final(self).peers_view(),
            })),
    {
        let ghost keep = keep_other(node_id@);
        let mut kept: Vec<PeerInfo> = Vec::new();
        let mut i: usize = 0;
        proof {
            reveal(Seq::filter);
            assert(kept.deep_view() =~= self.peers_view().take(0).filter(keep));
        }
        while i < self.peers.len()
            invariant
                i <= self.peers.len(),
                self.peers_view().len() == self.peers.len(),
                unique_peer_ids(self.peers_view()),
                kept.deep_view() == self.peers_view().take(i as int).filter(keep_other(node_id@)),
                forall|k: int|
                    0 <= k < kept.deep_view().len() ==> has_peer(
                        self.peers_view().take(i as int),
                        #[trigger] kept.deep_view()[k].node_id,
                    ),
                unique_peer_ids(kept.deep_view()),
            decreases self.peers.len() - i,
        {
            let ghost keep = keep_other(node_id@);
            proof {
                assert(self.peers_view()[i as int] == self.peers@[i as int]@);
            }
            let entry = &self.peers[i];
            let ghost kept_prevraw = kept@;
            let ghost kept_prev = kept.deep_view();
            if !str_eq(entry.node_id.as_str(), node_id) {
                proof {
                    assert forall|k: int| 0 <= k < kept.deep_view().len() implies
                        kept.deep_view()[k].node_id != entry@.node_id by {
                        let id = kept.deep_view()[k].node_id;
                        assert(has_peer(self.peers_view().take(i as int), id));
                        let m = choose|m: int|
                            0 <= m < self.peers_view().take(i as int).len() && self.peers_view().take(
                                i as int,
                            )[m].node_id == id;
                        assert(self.peers_view()[m].node_id == id);
                        assert(self.peers_view()[i as int].node_id == entry@.node_id);
                    }
                }
                kept.push(entry.clone());
                proof {
                    assert(kept@.len() == kept_prevraw.len() + 1);
                    assert(kept_prev.len() == kept_prevraw.len());
                    assert(kept.deep_view().len() == kept@.len());
                    assert(forall|k: int|
                        0 <= k < kept_prevraw.len() ==> kept.deep_view()[k] == kept_prev[k]);
                    assert(kept.deep_view()[kept_prevraw.len() as int] == kept@[
                        kept_prevraw.len() as int]@);
                }
            }
            proof {
                reveal(Seq::filter);
                let prefix = self.peers_view().take(i as int);
                let next = self.peers_view().take(i as int + 1);
                assert(next.drop_last() =~= prefix);
                assert(next.last() == self.peers_view()[i as int]);
                assert(kept.deep_view() =~= next.filter(keep));
                assert forall|k: int| 0 <= k < kept.deep_view().len() implies has_peer(
                    next,
                    #[trigger] kept.deep_view()[k].node_id,
                ) by {
                    let id = kept.deep_view()[k].node_id;
                    if has_peer(prefix, id) {
                        let m = choose|m: int|
                            0 <= m < prefix.len() && prefix[m].node_id == id;
                        assert(next[m].node_id == id);
                    } else {
                        assert(id == self.peers_view()[i as int].node_id);
                        assert(next[i as int].node_id == id);
                    }
                }
            }
            i += 1;
        }
        proof {
            assert(self.peers_view().take(self.peers_view().len() as int) =~= self.peers_view());
        }
        self.peers = kept;
        let remaining = self.peer_list();
        let mut actions: Vec<NetAction> = Vec::new();
        actions.push(NetAction::Broadcast(P2PMessage::PeerList { peers: remaining }));
        actions
    }

    /// The template a miner would fill in: the current tip, up to ten
    /// pending transactions listed by signature, the configured difficulty,
    /// and the next block number.
    pub fn create_block_template(&self) -> (t: BlockTemplate)
        requires
            self.wf(),
        ensures
            t@.previous_hash == self.blockchain.blocks().last().hash,
            t@.difficulty == self.blockchain.difficulty,
            t@.block_number == self.blockchain.blocks().len(),
            t@.transactions == self.mempool@.take(
                if 10 <= self.mempool@.len() {
                    10
                } else {
                    self.mempool@.len() as int
                },
            ).map_values(tx_signature_fn()),
    {
        let txs = self.mempool.get_transactions(10);
        let mut listed: Vec<String> = Vec::new();
        let mut i: usize = 0;
        while i < txs.len()
            invariant
                i <= txs.len(),
                txs.deep_view().len() == txs@.len(),
                listed.deep_view() =~= txs.deep_view().take(i as int).map_values(
                    tx_signature_fn(),
                ),
            decreases txs.len() - i,
        {
            let ghost prevraw = listed@;
            let ghost prev = listed.deep_view();
            listed.push(txs[i].signature.clone());
            proof {
                assert(listed@.len() == prevraw.len() + 1);
                assert(prev.len() == prevraw.len());
                assert(listed.deep_view().len() == listed@.len());
                assert(forall|k: int| 0 <= k < prevraw.len() ==> listed.deep_view()[k] == prev[k]);
                assert(listed.deep_view()[i as int] == listed@[i as int]@);
                assert(txs.deep_view()[i as int] == txs@[i as int]@);
                assert(listed.deep_view() =~= prev.push(txs.deep_view()[i as int].signature));
                txs.deep_view().take(i as int).lemma_push_map_commute(
                    tx_signature_fn(),
                    txs.deep_view()[i as int],
                );
                assert(tx_signature_fn()(txs.deep_view()[i as int]) == txs.deep_view()[
                    i as int].signature);
                assert(txs.deep_view().take(i as int).push(txs.deep_view()[i as int]) =~= txs.deep_view().take(
                    i as int + 1,
                ));
                assert(listed.deep_view() == txs.deep_view().take(i as int + 1).map_values(
                    tx_signature_fn(),
                ));
            }
            i += 1;
        }
        proof {
            assert(txs.deep_view().take(txs.deep_view().len() as int) =~= txs.deep_view());
        }
        let last_hash = self.blockchain.last_block().hash.clone();
        BlockTemplate::new(last_hash, listed, self.blockchain.difficulty, self.blockchain.chain.len())
    }
}

/// Where a connection stands in its lifecycle: before or after its Join.
pub enum ConnectionState {
    AwaitingJoin,
    Registered { peer_id: String },
}

impl Coordinator {
    /// One step of the per-connection state machine. Before registration
    /// only a Join is accepted; it moves the connection to Registered under
    /// the declared id. Afterwards every message goes through the
    /// Registered-phase dispatch.
    pub fn connection_step(&mut self, state: ConnectionState, msg: &P2PMessage, now: u64) -> (r: (
        ConnectionState,
        Result<Vec<NetAction>, NetworkError>,
    ))
        requires
            old(self).wf(),
        ensures
            final(self).wf(),
            match state {
                ConnectionState::AwaitingJoin => match msg@ {
                    MessageView::Join { node_id, address, timestamp } => {
                        &&& (r.0 matches ConnectionState::Registered { peer_id } && peer_id@
                            == node_id)
                        &&& (r.1 matches Ok(actions) && join_effect(
                            *old(self),
                            *final(self),
                            node_id,
                            address,
                            now,
                            actions@,
                        ))
                    },
                    _ => {
                        &&& r.0 is AwaitingJoin
                        &&& (r.1 matches Err(e) && e matches NetworkError::InvalidMessage(_))
                        &&& *final(self) == *old(self)
                    },
                },
                ConnectionState::Registered { peer_id } => {
                    &&& r.0 == state
                    &&& (r.1 matches Ok(actions) && dispatch_effect(
                        *old(self),
                        *final(self),
                        msg@,
                        actions@,
                    ))
                },
            },
    {
        match state {
            ConnectionState::AwaitingJoin => match self.handle_join(msg, now) {
                Ok((peer_id, actions)) => (
                    ConnectionState::Registered { peer_id },
                    Ok(actions),
                ),
                Err(e) => (ConnectionState::AwaitingJoin, Err(e)),
            },
            ConnectionState::Registered { peer_id } => {
                let actions = self.handle_message(peer_id.as_str(), msg);
                (ConnectionState::Registered { peer_id }, Ok(actions))
            },
        }
    }
}

} // verus!
