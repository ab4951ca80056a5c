//! Trigger specifications: which events and steps an ability responds to.
use vstd::prelude::*;

use super::expr::{Expr, Filter, ZoneKindSel};
use crate::types::StepKind;

verus! {

/// What event or step fires a triggered ability.
pub enum TriggerSpec {
    /// An event pattern, with an optional extra condition.
    When { pattern: EventPattern, condition: Option<Expr> },
    /// The beginning of a step ("at the beginning of your upkeep").
    AtStep { step: StepKind, who: StepScope },
}

/// Whose step triggers.
#[derive(Debug, Clone, Copy, PartialEq, Eq, Structural)]
pub enum StepScope {
    You,
    EachOpponent,
    EachPlayer,
    ActivePlayer,
}

/// A pattern over game events.
pub enum EventPattern {
    /// Any event.
    Any,
    /// An object enters a zone.
    EntersZone { obj_filter: Filter, zone_kind: ZoneKindSel },
    /// An object leaves a zone.
    LeavesZone { obj_filter: Filter, zone_kind: ZoneKindSel },
    /// An object moves from one zone to another, optionally by a given player.
    ZoneChange {
        obj_filter: Filter,
        from: ZoneKindSel,
        to: ZoneKindSel,
        actor_filter: Option<Filter>,
    },
    /// A creature dies.
    Dies { obj_filter: Filter },
    /// A spell is cast.
    SpellCast { spell_filter: Filter },
    /// A player draws.
    Draw { who: Filter },
    /// A player plays a land.
    LandPlayed { who: Filter, land_filter: Filter },
    /// Damage is dealt.
    DamageDealt { source_filter: Filter, target_filter: Filter, is_combat: Option<bool> },
    /// A creature attacks.
    Attacks { attacker_filter: Filter },
    /// A creature blocks.
    Blocks { blocker_filter: Filter },
    /// All of these patterns at once.
    And(Vec<EventPattern>),
}

} // verus!
