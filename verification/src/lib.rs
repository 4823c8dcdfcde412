//! Verified core of a deterministic block-processing pipeline for a tracked
//! token contract: an additive per-address balance ledger, a whale-transfer
//! filter, and a reconciler that turns ledger deltas and whale transfers into
//! an ordered list of entity mutations for a downstream sink.

use vstd::prelude::*;

pub mod numeric;
pub mod records;
pub mod ledger;
pub mod whale;
pub mod reconcile;
pub mod pipeline;

verus! {

} // verus!
