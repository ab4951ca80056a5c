//! The decisions a cost asks for before it is paid.
use vstd::prelude::*;

use crate::types::ObjId;

verus! {

/// The decisions of a cost, in the order they are asked.
pub struct CostSchema {
    pub decisions: Vec<Decision>,
}

impl CostSchema {
    /// A cost that asks for nothing.
    pub fn empty() -> (r: Self)
        ensures
            r.decisions@.len() == 0,
    {
        CostSchema { decisions: Vec::new() }
    }
}

/// One decision, answered under the name `binding`.
pub struct Decision {
    pub binding: &'static str,
    pub kind: DecisionKind,
}

pub enum DecisionKind {
    /// Choose `count` of the candidate objects.
    Objects { candidates: Vec<ObjId>, count: u32 },
    /// Choose one of the labelled branches; `payable` lists the indices that
    /// can be paid, and each branch has decisions of its own.
    Branch { labels: Vec<&'static str>, payable: Vec<usize>, branches: Vec<CostSchema> },
    /// Choose a number up to `max`.
    Number { kind: NumberKind, max: u32 },
}

/// What a chosen number pays for.
#[derive(Clone, Copy, Debug, PartialEq, Eq, Structural)]
pub enum NumberKind {
    /// X life.
    XLife,
    /// X mana.
    XMana,
    /// Extra copies of a replicate cost.
    Replicate,
}

} // verus!
