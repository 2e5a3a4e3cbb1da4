//! Portfolio status command arguments.

use vstd::prelude::*;

verus! {

#[derive(Debug)]
pub struct PortfolioStatusArgs {
    /// Show cache statistics
    pub cache_stats: bool,
    /// Show detailed portfolio dashboard
    pub dashboard: bool,
    /// Clear cache
    pub clear_cache: bool,
    /// Create manual snapshot
    pub snapshot: bool,
    /// Snapshot reason (used with --snapshot)
    pub reason: String,
}

} // verus!
