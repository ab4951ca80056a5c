//! What a player can do right now: cast a card or activate an ability.
use vstd::prelude::*;

use crate::ir::cost::CostSchema;
use crate::types::ObjId;

verus! {

/// Cast the card, or activate one of its abilities.
#[derive(Clone, Debug)]
pub enum PlayableKind {
    Cast,
    Activate { ability_index: usize },
}

/// One thing a player can do, with the decisions its cost asks for when
/// they are known.
pub struct PlayableAction {
    pub source: ObjId,
    pub kind: PlayableKind,
    pub schema: Option<CostSchema>,
}

} // verus!
