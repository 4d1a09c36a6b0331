//! A parallel-execution toolkit: a virtual-thread scheduler model, a parallel
//! combinator kernel (map / starmap / filter / reduce), and a fault-tolerance
//! layer (retry with backoff, circuit breaker, persistent checkpointing),
//! together with the shared containers and cluster bookkeeping around them.

pub mod callable;
pub mod checkpoint;
pub mod cluster;
pub mod chunking;
pub mod combinators;
pub mod concurrent_map;
pub mod dist_executor;
pub mod dist_ops;
pub mod error;
pub mod executor;
pub mod shared;
pub mod profiler;
pub mod retry;
pub mod text;
pub mod vthread;

use vstd::prelude::*;

verus! {

} // verus!
