//! The command-line interface: the arguments of each command and the
//! decisions the commands make before and between their calls to services.

use vstd::prelude::*;

pub mod commands;

verus! {

/// The CLOB host for the sandbox (Mumbai testnet) or for production.
pub open spec fn host_text(sandbox: bool) -> Seq<char> {
    if sandbox {
        "https://clob-mumbai.polymarket.com"@
    } else {
        "https://clob.polymarket.com"@
    }
}

/// The host URL that the sandbox flag selects.
pub fn get_host(sandbox: bool) -> (r: &'static str)
    ensures
        r@ == host_text(sandbox),
{
    if sandbox {
        "https://clob-mumbai.polymarket.com"
    } else {
        "https://clob.polymarket.com"
    }
}

} // verus!
