//! Transactions with placeholder signatures. A signature is derived
//! deterministically from the other fields; verification is simulated (a
//! randomized amount of hashing stands in for real signature-checking cost)
//! and accepts any non-empty signature.

use vstd::prelude::*;
use vstd::string::StrSliceExecFns;
use vstd::string::StringExecFns;
use crate::hash::sha256_hex;
use crate::strutil::{dec_nat, u64_to_string};
use crate::sys::random_below;

verus! {

#[derive(Debug, PartialEq, Eq)]
pub struct Transaction {
    pub from: String,
    pub to: String,
    pub amount: u64,
    pub signature: String,
}

/// The mathematical image of a transaction.
pub ghost struct TxView {
    pub from: Seq<char>,
    pub to: Seq<char>,
    pub amount: u64,
    pub signature: Seq<char>,
}

impl View for Transaction {
    type V = TxView;

    open spec fn view(&self) -> TxView {
        TxView { from: self.from@, to: self.to@, amount: self.amount, signature: self.signature@ }
    }
}

impl DeepView for Transaction {
    type V = TxView;

    open spec fn deep_view(&self) -> TxView {
        self.view()
    }
}

impl Clone for Transaction {
    fn clone(&self) -> (r: Self)
        ensures
            r == *self,
    {
        Transaction {
            from: self.from.clone(),
            to: self.to.clone(),
            amount: self.amount,
            signature: self.signature.clone(),
        }
    }
}

/// The placeholder signature for a transaction's fields:
/// `sig_<from>_<to>_<amount>`.
pub open spec fn sig_of(from: Seq<char>, to: Seq<char>, amount: u64) -> Seq<char> {
    seq!['s', 'i', 'g', '_'] + from + seq!['_'] + to + seq!['_'] + dec_nat(amount as nat)
}

impl Transaction {
    /// Builds a transaction and derives its signature from the other fields.
    pub fn new(from: String, to: String, amount: u64) -> (tx: Transaction)
        ensures
            tx@.from == from@,
            tx@.to == to@,
            tx@.amount == amount,
            tx@.signature == sig_of(from@, to@, amount),
    {
        proof {
            reveal_strlit("sig_");
            reveal_strlit("_");
        }
        let mut signature = "sig_".to_owned();
        signature.append(from.as_str());
        signature.append("_");
        signature.append(to.as_str());
        signature.append("_");
        let amount_str = u64_to_string(amount);
        signature.append(amount_str.as_str());
        proof {
            assert(signature@ =~= sig_of(from@, to@, amount));
        }
        Transaction { from, to, amount, signature }
    }

    /// Simulated signature verification: a randomized number of hash rounds
    /// stands in for the cost, and any non-empty signature passes.
    pub fn verify_signature(&self) -> (r: bool)
        ensures
            r == (self@.signature.len() != 0),
    {
        let iterations = 1000 + random_below(500);
        let mut data = self.from.clone();
        data.append(self.to.as_str());
        let amount_str = u64_to_string(self.amount);
        data.append(amount_str.as_str());
        let mut i: u64 = 0;
        while i < iterations
            decreases iterations - i,
        {
            data = sha256_hex(data.as_str());
            i += 1;
        }
        !self.signature.as_str().is_empty()
    }

    /// Balance checking is mocked: every transaction is covered.
    pub fn check_balance(&self) -> (r: bool)
        ensures
            r,
    {
        true
    }

    /// A transaction is accepted when its signature verifies and its balance
    /// check passes.
    pub fn validate(&self) -> (r: bool)
        ensures
            r == (self@.signature.len() != 0),
    {
        self.verify_signature() && self.check_balance()
    }
}

} // verus!
