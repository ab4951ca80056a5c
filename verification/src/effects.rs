//! Actor-relative player references used by effects and targets.
use vstd::prelude::*;

use crate::types::PlayerId;

verus! {

/// `Actor` is the controller of the spell or ability; `Opp` their opponent.
#[derive(Clone, Copy, Debug, PartialEq, Eq, Structural)]
pub enum Who {
    Actor,
    Opp,
}

impl Who {
    /// The player this reference names when `actor` acts.
    pub fn resolve(&self, actor: PlayerId) -> (r: PlayerId)
        ensures
            r == (match *self {
                Who::Actor => actor,
                Who::Opp => actor.spec_opp(),
            }),
    {
        match self {
            Who::Actor => actor,
            Who::Opp => actor.opp(),
        }
    }
}

} // verus!
