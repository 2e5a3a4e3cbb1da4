//! Order cancellation command arguments and its confirmation rule.

use vstd::prelude::*;
use crate::address_book::types::str_eq;

verus! {

#[derive(Debug)]
pub struct CancelArgs {
    /// Order ID
    pub order_id: String,
    /// Confirm cancellation (required unless RUST_ENV=production)
    pub yes: bool,
}

pub struct CancelCommand {
    args: CancelArgs,
}

impl View for CancelCommand {
    type V = CancelArgs;

    closed spec fn view(&self) -> CancelArgs {
        self.args
    }
}

impl CancelCommand {
    pub fn new(args: CancelArgs) -> (r: Self)
        ensures
            r@ == args,
    {
        CancelCommand { args: args }
    }

    /// The arguments the command was made with.
    pub fn args(&self) -> (r: &CancelArgs)
        ensures
            *r == self@,
    {
        &self.args
    }
}

/// A cancellation goes ahead when confirmed, or in production.
pub open spec fn cancel_allowed(yes: bool, rust_env: Seq<char>) -> bool {
    yes || rust_env == "production"@
}

/// Whether a cancellation goes ahead, given the value of `RUST_ENV` (empty
/// where it is not set).
pub fn cancellation_allowed(yes: bool, rust_env: &str) -> (r: bool)
    ensures
        r == cancel_allowed(yes, rust_env@),
{
    yes || str_eq(rust_env, "production")
}

} // verus!
