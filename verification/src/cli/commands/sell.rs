//! Sell order command arguments.

use vstd::prelude::*;
use crate::address_book::types::Amount;

verus! {

#[derive(Debug)]
pub struct SellArgs {
    /// Token ID
    pub token_id: String,
    /// Price in USDC (e.g., 0.52)
    pub price: Amount,
    /// Size in USDC
    pub size: Amount,
    /// Market ID (optional, will use token_id if not provided)
    pub market_id: Option<String>,
    /// Confirm order placement (required unless RUST_ENV=production)
    pub yes: bool,
}

pub struct SellCommand {
    args: SellArgs,
}

impl View for SellCommand {
    type V = SellArgs;

    closed spec fn view(&self) -> SellArgs {
        self.args
    }
}

impl SellCommand {
    pub fn new(args: SellArgs) -> (r: Self)
        ensures
            r@ == args,
    {
        SellCommand { args: args }
    }

    /// The arguments the command was made with.
    pub fn args(&self) -> (r: &SellArgs)
        ensures
            *r == self@,
    {
        &self.args
    }
}

} // verus!
