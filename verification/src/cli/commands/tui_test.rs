//! Terminal interface diagnostic command arguments.

use vstd::prelude::*;

verus! {

#[derive(Debug)]
pub struct TuiTestArgs {
    /// Test duration in seconds
    pub duration: u64,
}

pub struct TuiTestCommand {
    args: TuiTestArgs,
}

impl View for TuiTestCommand {
    type V = TuiTestArgs;

    closed spec fn view(&self) -> TuiTestArgs {
        self.args
    }
}

impl TuiTestCommand {
    pub fn new(args: TuiTestArgs) -> (r: Self)
        ensures
            r@ == args,
    {
        TuiTestCommand { args: args }
    }

    /// The arguments the command was made with.
    pub fn args(&self) -> (r: &TuiTestArgs)
        ensures
            *r == self@,
    {
        &self.args
    }
}

} // verus!
