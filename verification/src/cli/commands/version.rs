//! Version command arguments.

use vstd::prelude::*;

verus! {

#[derive(Debug)]
pub struct VersionArgs {

}

pub struct VersionCommand {
    _args: VersionArgs,
}

impl View for VersionCommand {
    type V = VersionArgs;

    closed spec fn view(&self) -> VersionArgs {
        self._args
    }
}

impl VersionCommand {
    pub fn new(args: VersionArgs) -> (r: Self)
        ensures
            r@ == args,
    {
        VersionCommand { _args: args }
    }

    /// The arguments the command was made with.
    pub fn args(&self) -> (r: &VersionArgs)
        ensures
            *r == self@,
    {
        &self._args
    }
}

} // verus!
