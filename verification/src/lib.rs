//! Consolidates live order-book updates from two independent market-data
//! sources into a single top-of-book view and fans that view out to a dynamic
//! set of subscribers.
//!
//! The engine works on fixed-point integer prices and amounts: the connector
//! that feeds it chooses the scale, and the engine copies both fields verbatim
//! without recomputing them.

use vstd::prelude::*;

pub mod aggregator;
pub mod book;
pub mod distributor;
pub mod merge;

verus! {

/// Number of price levels retained per side per source.
pub const DEPTH: usize = 10;

/// How many consecutive updates one source may produce with no interleaving
/// update from the other before a staleness warning is raised.
pub const LEAD_TOLERANCE: u64 = 3;

} // verus!
