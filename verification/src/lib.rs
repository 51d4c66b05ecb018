//! A fixed-size worker pool, verified: a single queue carries jobs and
//! shutdown signals, a fixed set of long-lived workers race to receive from
//! it, and teardown stops every worker deterministically after every
//! accepted job has run exactly once.
//!
//! Around the pool stand the smaller verified pieces of the same code base:
//! the 2-opt tour optimiser with an exact, rounding-free edge comparison,
//! and the request classification of the demonstration web server that
//! feeds the pool.

use vstd::prelude::*;

pub mod algorithms;
pub mod pool;
pub mod queue;
pub mod route;
pub mod utils;
pub mod web_server;

verus! {

/// A pool configuration is valid when it asks for at least one worker.
pub open spec fn valid_pool_size(size: usize) -> bool {
    size >= 1
}

} // verus!
