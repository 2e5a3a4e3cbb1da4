//! Market enrichment command arguments.

use vstd::prelude::*;

verus! {

#[derive(Debug)]
pub struct EnrichArgs {
    /// Name of the source dataset to enrich
    pub source_dataset: String,
    /// Name for the enriched dataset
    pub output_dataset: String,
    /// Include orderbook data (best bid/ask, spread, depth)
    pub include_orderbook: bool,
    /// Include liquidity metrics (total bid/ask size)
    pub include_liquidity: bool,
    /// Include volume data from Gamma API
    pub include_volume: bool,
    /// Maximum orderbook depth to fetch (levels on each side)
    pub max_depth: usize,
    /// Number of markets to process in parallel
    pub parallel: usize,
    /// Delay between API calls in milliseconds
    pub delay_ms: u64,
    /// Show progress while enriching
    pub progress: bool,
    /// Continue from a specific market index (for resuming)
    pub start_from: Option<usize>,
}

} // verus!
