//! Read-side indexing and ranking library for an era-based staking chain.
//!
//! The crate models the cached state of the service — eras, validators,
//! per-era snapshots, leaderboards — as typed in-memory data, and verifies
//! the logic that maintains and queries it: the synchronisation passes, the
//! statistics over reward points, the typed keyspace, and the weighted
//! scoring engine.  All fractional quantities (inclusion rate, normalised
//! scores, user-supplied interval bounds) are held in fixed point with nine
//! decimal places, so that every computation is exact integer arithmetic.

pub mod api;
pub mod board;
pub mod cache;
pub mod fields;
pub mod identity;
pub mod indexer;
pub mod keys;
pub mod kv;
pub mod laws;
pub mod num;
pub mod params;
pub mod score;
pub mod stats;
pub mod types;
pub mod wide;

use vstd::prelude::*;

verus! {

} // verus!
