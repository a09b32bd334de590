//! The two calls whose results depend on the environment: the wall clock and
//! the thread-local random number generator. Everything built on them states
//! only what holds of every possible outcome.

use vstd::prelude::*;

verus! {

/// Relies on chrono's `Utc::now().timestamp()`: the current UTC time in whole
/// seconds. Nothing is assumed of the value.
#[verifier::external_body]
pub fn now_timestamp() -> i64 {
    chrono::Utc::now().timestamp()
}

/// Relies on rand's `Rng::gen_range` over `0..bound`: a draw from the
/// thread-local generator that lies below the bound. Only the range is
/// assumed, nothing of the distribution; the bound must be positive because
/// `gen_range` panics on an empty range.
#[verifier::external_body]
pub fn random_below(bound: u64) -> (r: u64)
    requires
        bound > 0,
    ensures
        r < bound,
{
    rand::Rng::gen_range(&mut rand::thread_rng(), 0..bound)
}

} // verus!
