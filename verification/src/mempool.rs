//! The pending-transaction pool: a capacity-bounded, insertion-ordered list
//! deduplicated by signature. Capacity is checked before duplication, and a
//! duplicate is rejected even when there is room.

use vstd::prelude::*;
use vstd::assert_seqs_equal;
use crate::strutil::str_eq;
use crate::transaction::{Transaction, TxView};

verus! {

pub struct TransactionPool {
    pending: Vec<Transaction>,
    capacity: usize,
}

/// Whether a signature already occurs among pending transactions.
pub open spec fn has_signature(pool: Seq<TxView>, sig: Seq<char>) -> bool {
    exists|i: int| 0 <= i < pool.len() && pool[i].signature == sig
}

/// Signatures are pairwise distinct.
pub open spec fn unique_signatures(pool: Seq<TxView>) -> bool {
    forall|i: int, j: int|
        0 <= i < j < pool.len() ==> #[trigger] pool[i].signature != #[trigger] pool[j].signature
}

/// The predicate kept by `remove_transactions`: the transaction's signature
/// does not occur in the removal set.
pub open spec fn keep_pred(removed: Seq<TxView>) -> spec_fn(TxView) -> bool {
    |t: TxView| !has_signature(removed, t.signature)
}

impl View for TransactionPool {
    type V = Seq<TxView>;

    closed spec fn view(&self) -> Seq<TxView> {
        self.pending.deep_view()
    }
}

impl TransactionPool {
    /// The configured capacity.
    pub closed spec fn spec_capacity(&self) -> usize {
        self.capacity
    }

    /// The pool never holds two transactions with the same signature.
    pub open spec fn wf(&self) -> bool {
        unique_signatures(self@)
    }

    pub fn new(capacity: usize) -> (pool: TransactionPool)
        ensures
            pool@ == Seq::<TxView>::empty(),
            pool.spec_capacity() == capacity,
            pool.wf(),
    {
        let pool = TransactionPool { pending: Vec::new(), capacity };
        proof {
            assert(pool@ =~= Seq::<TxView>::empty());
        }
        pool
    }

    /// Whether some pending transaction already carries this signature.
    fn contains_signature(&self, sig: &str) -> (r: bool)
        ensures
            r == has_signature(self@, sig@),
    {
        let mut i: usize = 0;
        while i < self.pending.len()
            invariant
                i <= self.pending.len(),
                self@.len() == self.pending.len(),
                forall|j: int| 0 <= j < i ==> self@[j].signature != sig@,
            decreases self.pending.len() - i,
        {
            if str_eq(self.pending[i].signature.as_str(), sig) {
                proof {
                    assert(self@[i as int].signature == sig@);
                }
                return true;
            }
            i += 1;
        }
        false
    }

    /// Rejects when the pool is at capacity, then when the signature was
    /// already seen; otherwise appends, preserving insertion order.
    pub fn add_transaction(&mut self, tx: Transaction) -> (r: Result<(), String>)
        requires
            old(self).wf(),
        ensures
            final(self).wf(),
            final(self).spec_capacity() == old(self).spec_capacity(),
            old(self)@.len() >= old(self).spec_capacity() ==> {
                &&& r matches Err(m) && m@ == "Transaction pool is full"@
                &&& final(self)@ == old(self)@
            },
            old(self)@.len() < old(self).spec_capacity() && has_signature(old(self)@, tx@.signature)
                ==> {
                &&& r matches Err(m) && m@ == "Duplicate transaction"@
                &&& final(self)@ == old(self)@
            },
            old(self)@.len() < old(self).spec_capacity() && !has_signature(
                old(self)@,
                tx@.signature,
            ) ==> {
                &&& r is Ok
                &&& final(self)@ == old(self)@.push(tx@)
            },
    {
        if self.pending.len() >= self.capacity {
            return Err("Transaction pool is full".to_owned());
        }
        if self.contains_signature(tx.signature.as_str()) {
            return Err("Duplicate transaction".to_owned());
        }
        self.pending.push(tx);
        proof {
            assert(self@ =~= old(self)@.push(self.pending@.last()@));
        }
        Ok(())
    }

    /// Up to `count` of the oldest pending transactions, without removal.
    pub fn get_transactions(&self, count: usize) -> (r: Vec<Transaction>)
        ensures
            r.deep_view() == self@.take(if count <= self@.len() {
                count as int
            } else {
                self@.len() as int
            }),
    {
        let n = if count <= self.pending.len() {
            count
        } else {
            self.pending.len()
        };
        let mut out: Vec<Transaction> = Vec::new();
        let mut i: usize = 0;
        while i < n
            invariant
                i <= n <= self.pending.len(),
                self@.len() == self.pending.len(),
                out.deep_view() =~= self@.take(i as int),
            decreases n - i,
        {
            let ghost prevraw = out@;
            let ghost prev = out.deep_view();
            out.push(self.pending[i].clone());
            proof {
                assert(out@.len() == prevraw.len() + 1);
                assert(prev.len() == prevraw.len());
                assert(prev.len() == i as int);
                assert(out.deep_view().len() == out@.len());
                assert(self@.take(i as int + 1).len() == i as int + 1);
                assert_seqs_equal!(out.deep_view() == self@.take(i as int + 1), k => {
                    if k < prevraw.len() {
                        assert(out@[k] == prevraw[k]);
                        assert(out.deep_view()[k] == prev[k]);
                    } else {
                        assert(out@[k] == self.pending@[i as int]);
                    }
                });
            }
            i += 1;
        }
        proof {
            assert(out.deep_view() =~= self@.take(n as int));
        }
        out
    }

    /// Deletes every pending transaction whose signature occurs in `txs`.
    pub fn remove_transactions(&mut self, txs: &Vec<Transaction>)
        requires
            old(self).wf(),
        ensures
            final(self).wf(),
            final(self).spec_capacity() == old(self).spec_capacity(),
            final(self)@ == old(self)@.filter(keep_pred(txs.deep_view())),
    {
        let ghost keep = keep_pred(txs.deep_view());
        let mut kept: Vec<Transaction> = Vec::new();
        let mut i: usize = 0;
        proof {
            reveal(Seq::filter);
            assert(kept.deep_view() =~= self@.take(0).filter(keep));
        }
        while i < self.pending.len()
            invariant
                i <= self.pending.len(),
                self@.len() == self.pending.len(),
                unique_signatures(self@),
                kept.deep_view() == self@.take(i as int).filter(keep_pred(txs.deep_view())),
                forall|k: int|
                    0 <= k < kept.deep_view().len() ==> has_signature(
                        self@.take(i as int),
                        #[trigger] kept.deep_view()[k].signature,
                    ),
                unique_signatures(kept.deep_view()),
            decreases self.pending.len() - i,
        {
            let ghost keep = keep_pred(txs.deep_view());
            let tx = &self.pending[i];
            let mut seen = false;
            let mut j: usize = 0;
            while j < txs.len()
                invariant
                    j <= txs.len(),
                    seen ==> has_signature(txs.deep_view(), tx@.signature),
                    !seen ==> forall|k: int|
                        0 <= k < j ==> txs.deep_view()[k].signature != tx@.signature,
                decreases txs.len() - j,
            {
                if str_eq(txs[j].signature.as_str(), tx.signature.as_str()) {
                    proof {
                        assert(txs.deep_view()[j as int].signature == tx@.signature);
                    }
                    seen = true;
                }
                j += 1;
            }
            proof {
                assert(seen == has_signature(txs.deep_view(), tx@.signature));
            }
            if !seen {
                proof {
                    assert forall|k: int| 0 <= k < kept.deep_view().len() implies
                        kept.deep_view()[k].signature != tx@.signature by {
                        let sig = kept.deep_view()[k].signature;
                        assert(has_signature(self@.take(i as int), sig));
                        let m = choose|m: int|
                            0 <= m < self@.take(i as int).len() && self@.take(i as int)[m].signature
                                == sig;
                        assert(self@[m].signature == sig);
                        assert(self@[i as int].signature == tx@.signature);
                    }
                }
                kept.push(tx.clone());
            }
            proof {
                reveal(Seq::filter);
                let prefix = self@.take(i as int);
                let next = self@.take(i as int + 1);
                assert(next.drop_last() =~= prefix);
                assert(next.last() == self@[i as int]);
                assert(kept.deep_view() =~= next.filter(keep));
                assert forall|k: int| 0 <= k < kept.deep_view().len() implies has_signature(
                    next,
                    #[trigger] kept.deep_view()[k].signature,
                ) by {
                    let sig = kept.deep_view()[k].signature;
                    if has_signature(prefix, sig) {
                        let m = choose|m: int|
                            0 <= m < prefix.len() && prefix[m].signature == sig;
                        assert(next[m].signature == sig);
                    } else {
                        assert(sig == tx@.signature);
                        assert(next[i as int].signature == sig);
                    }
                }
            }
            i += 1;
        }
        proof {
            assert(self@.take(self@.len() as int) =~= self@);
        }
        self.pending = kept;
    }

    /// The number of pending transactions.
    pub fn size(&self) -> (r: usize)
        ensures
            r == self@.len(),
    {
        self.pending.len()
    }

    /// Empties the pool.
    pub fn clear(&mut self)
        ensures
            final(self)@ == Seq::<TxView>::empty(),
            final(self).wf(),
            final(self).spec_capacity() == old(self).spec_capacity(),
    {
        self.pending.clear();
        proof {
            assert(self@ =~= Seq::<TxView>::empty());
        }
    }

    /// A copy of every pending transaction, in insertion order.
    pub fn get_all(&self) -> (r: Vec<Transaction>)
        ensures
            r.deep_view() == self@,
    {
        let mut out: Vec<Transaction> = Vec::new();
        let mut i: usize = 0;
        while i < self.pending.len()
            invariant
                i <= self.pending.len(),
                self@.len() == self.pending.len(),
                out.deep_view() =~= self@.take(i as int),
            decreases self.pending.len() - i,
        {
            let ghost prevraw = out@;
            let ghost prev = out.deep_view();
            out.push(self.pending[i].clone());
            proof {
                assert(out@.len() == prevraw.len() + 1);
                assert(prev.len() == prevraw.len());
                assert(out.deep_view().len() == out@.len());
                assert_seqs_equal!(out.deep_view() == self@.take(i as int + 1), k => {
                    if k < prevraw.len() {
                        assert(out@[k] == prevraw[k]);
                        assert(out.deep_view()[k] == prev[k]);
                    } else {
                        assert(out@[k] == self.pending@[i as int]);
                    }
                });
            }
            i += 1;
        }
        proof {
            assert(self@.take(self@.len() as int) =~= self@);
        }
        out
    }
}

} // verus!
