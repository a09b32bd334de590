//! A verified core for a small blockchain consensus demonstrator: an
//! append-only chain with a proof-of-work difficulty rule, a deduplicating
//! transaction pool, stake-weighted validator selection, partitioned
//! nonce-search races, and a length-prefixed wire protocol for a
//! star-topology peer network.

pub mod block;
pub mod codec;
pub mod coordinator;
pub mod error;
pub mod hash;
pub mod mempool;
pub mod network;
pub mod node;
pub mod pos;
pub mod pow;
pub mod protocol;
pub mod strutil;
pub mod sys;
pub mod transaction;
pub mod util;
