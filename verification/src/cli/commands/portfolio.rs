//! Portfolio command arguments.

use vstd::prelude::*;

verus! {

#[derive(Debug)]
pub struct PortfolioArgs {
    /// Show only orders for specific market
    pub market: Option<String>,
    /// Show only orders for specific asset
    pub asset: Option<String>,
    /// Use simple text output instead of interactive TUI
    pub text: bool,
}

} // verus!
