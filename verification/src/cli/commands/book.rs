//! Order book command arguments.

use vstd::prelude::*;

verus! {

#[derive(Debug)]
pub struct BookArgs {
    /// Token ID
    pub token_id: String,
    /// Number of levels to show
    pub depth: usize,
}

pub struct BookCommand {
    args: BookArgs,
}

impl View for BookCommand {
    type V = BookArgs;

    closed spec fn view(&self) -> BookArgs {
        self.args
    }
}

impl BookCommand {
    pub fn new(args: BookArgs) -> (r: Self)
        ensures
            r@ == args,
    {
        BookCommand { args }
    }

    /// The arguments the command was made with.
    pub fn args(&self) -> (r: &BookArgs)
        ensures
            *r == self@,
    {
        &self.args
    }
}

} // verus!
