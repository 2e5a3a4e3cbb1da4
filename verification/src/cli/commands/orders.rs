//! Open orders command arguments and its token filter.

use vstd::prelude::*;
use crate::text::{contains_seq, str_contains};

verus! {

#[derive(Debug)]
pub struct OrdersArgs {
    /// Filter by token ID
    pub token_id: Option<String>,
    /// Show dashboard view with portfolio stats
    pub dashboard: bool,
}

pub struct OrdersCommand {
    args: OrdersArgs,
}

impl View for OrdersCommand {
    type V = OrdersArgs;

    closed spec fn view(&self) -> OrdersArgs {
        self.args
    }
}

impl OrdersCommand {
    pub fn new(args: OrdersArgs) -> (r: Self)
        ensures
            r@ == args,
    {
        OrdersCommand { args: args }
    }

    /// The arguments the command was made with.
    pub fn args(&self) -> (r: &OrdersArgs)
        ensures
            *r == self@,
    {
        &self.args
    }
}

/// An order with token id `id` passes the filter: it contains the filter,
/// or there is none.
pub open spec fn token_kept(id: Seq<char>, filter: Option<Seq<char>>) -> bool {
    match filter {
        Some(f) => contains_seq(id, f),
        None => true,
    }
}

/// For each order's token id, whether the token filter keeps that order.
pub fn token_filter_mask(ids: &Vec<String>, filter: Option<&str>) -> (r: Vec<bool>)
    ensures
        r@.len() == ids@.len(),
        forall|i: int|
            0 <= i < ids@.len() ==> r@[i] == token_kept(
                ids@[i]@,
                match filter {
                    Some(f) => Some(f@),
                    None => None,
                },
            ),
{
    let mut r: Vec<bool> = Vec::new();
    let mut i: usize = 0;
    while i < ids.len()
        invariant
            i <= ids.len(),
            r@.len() == i,
            forall|j: int|
                0 <= j < i ==> r@[j] == token_kept(
                    ids@[j]@,
                    match filter {
                        Some(f) => Some(f@),
                        None => None,
                    },
                ),
        decreases ids.len() - i,
    {
        let keep = match filter {
            Some(f) => str_contains(ids[i].as_str(), f),
            None => true,
        };
        r.push(keep);
        i = i + 1;
    }
    r
}

} // verus!
