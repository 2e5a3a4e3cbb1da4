//! Authentication initialisation command arguments.

use vstd::prelude::*;

verus! {

#[derive(Debug)]
pub struct InitArgs {
    /// Private key in hex format (without 0x prefix)
    pub private_key: String,
    /// Nonce for API key derivation (default: 0)
    pub nonce: u64,
}

pub struct InitCommand {
    args: InitArgs,
}

impl View for InitCommand {
    type V = InitArgs;

    closed spec fn view(&self) -> InitArgs {
        self.args
    }
}

impl InitCommand {
    pub fn new(args: InitArgs) -> (r: Self)
        ensures
            r@ == args,
    {
        InitCommand { args: args }
    }

    /// The arguments the command was made with.
    pub fn args(&self) -> (r: &InitArgs)
        ensures
            *r == self@,
    {
        &self.args
    }
}

} // verus!
