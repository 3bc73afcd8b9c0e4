//! Customization points of condition parsing and validation. Plain consensus
//! validation uses the policy that does nothing; the mempool hooks in to
//! record more than consensus needs.
use vstd::prelude::*;
use clvmr::allocator::Allocator;

verus! {

/// Hooks called by a spend-processing pipeline, over its spend type `S` and
/// condition type `C`.
pub trait ConditionPolicy<S, C> {
    /// Called once when a new spend begins.
    fn new_spend(&mut self, spend: &mut S);

    /// Called once for each parsed condition of the current spend, before it
    /// is handled.
    fn condition(&mut self, spend: &mut S, c: &C);

    /// Called once after all conditions of a spend, with read access to the
    /// allocator that holds its nodes.
    fn post_spend(&mut self, a: &Allocator, spend: &mut S);
}

/// The consensus-only policy: every hook does nothing.
#[derive(Debug, Clone, Copy, PartialEq, Eq, Default)]
pub struct NoPolicy;

impl<S, C> ConditionPolicy<S, C> for NoPolicy {
    fn new_spend(&mut self, spend: &mut S) {
    }

    fn condition(&mut self, spend: &mut S, c: &C) {
    }

    fn post_spend(&mut self, a: &Allocator, spend: &mut S) {
    }
}

} // verus!
