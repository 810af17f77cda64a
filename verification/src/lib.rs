//! Deterministic state-transition engine of a replicated ledger that tracks
//! ownership and trading of generated digital assets ("owls") and user
//! balances. Every node that applies the same ordered commands to the same
//! prior state computes the identical new state: randomness is drawn from a
//! seed the nodes already agree on, and time is a single agreed reading per
//! block, passed in by the caller.

use vstd::prelude::*;

pub mod data_layout;
pub mod laws;
pub mod model;
pub mod rng;
pub mod schema;
pub mod service;
pub mod transactions;

verus! {

/// Unique service identifier.
pub const CRYPTOOWLS_SERVICE_ID: u16 = 521;

/// Sum to be issued each time.
pub const ISSUE_AMOUNT: u64 = 100;

/// Timeout (seconds) before a user is able to issue funds again.
pub const ISSUE_TIMEOUT: u64 = 60;

/// Timeout (seconds) before an owl is able to breed again.
pub const BREEDING_TIMEOUT: u64 = 60;

/// Breeding price.
pub const BREEDING_PRICE: u64 = 42;

/// Cap on how many genomes one breeding command may draw while it looks for
/// a free identity. The construction redraws from the same stream on a
/// collision; a bound this size is never reached in practice, and it keeps
/// every handler terminating.
pub const DNA_DRAW_LIMIT: u64 = 100000;

} // verus!
