//! Trading canvas command arguments.

use vstd::prelude::*;

verus! {

#[derive(Debug)]
pub struct CanvasArgs {
    /// Window width
    pub width: u32,
    /// Window height
    pub height: u32,
    /// Enable dark mode
    pub dark_mode: bool,
    /// Window title
    pub title: String,
}

pub struct CanvasCommand {
    args: CanvasArgs,
}

impl View for CanvasCommand {
    type V = CanvasArgs;

    closed spec fn view(&self) -> CanvasArgs {
        self.args
    }
}

impl CanvasCommand {
    pub fn new(args: CanvasArgs) -> (r: Self)
        ensures
            r@ == args,
    {
        CanvasCommand { args: args }
    }

    /// The arguments the command was made with.
    pub fn args(&self) -> (r: &CanvasArgs)
        ensures
            *r == self@,
    {
        &self.args
    }
}

} // verus!
