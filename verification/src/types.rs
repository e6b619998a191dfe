//! Decisions and statistics of the thought-signature engine.

use vstd::prelude::*;

verus! {

/// What the engine decided for one patch site.
#[derive(Debug)]
pub enum FillAction {
    /// Leave the part as it is.
    Keep,
    /// Write this cached signature.
    UseCached(String),
    /// Write the sentinel dummy signature.
    UseDummy,
}

/// One patch-site decision together with the site's fingerprint.
#[derive(Debug)]
pub struct FillDecision {
    pub action: FillAction,
    pub key: Option<u64>,
}

/// Counts of decisions over one request.
#[derive(Debug, Clone, Copy, PartialEq, Eq, Structural)]
pub struct FillStats {
    pub total_considered: usize,
    pub kept_existing: usize,
    pub cache_hits: usize,
    pub dummy_filled: usize,
}

impl Default for FillStats {
    /// All counters start at zero.
    fn default() -> (r: Self)
        ensures
            r == FillStats::zero(),
    {
        FillStats { total_considered: 0, kept_existing: 0, cache_hits: 0, dummy_filled: 0 }
    }
}

impl FillStats {
    pub open spec fn zero() -> FillStats {
        FillStats { total_considered: 0, kept_existing: 0, cache_hits: 0, dummy_filled: 0 }
    }
}

} // verus!
