//! Context pointers: the "who / what event / what cast" an ability or
//! action runs in the scope of.
use vstd::prelude::*;

verus! {

/// Runtime-bound pointers, evaluated against the current binding environment.
#[derive(Debug, Clone, Copy)]
pub enum Ctx {
    /// The source object of the ability or spell.
    Source,
    /// "You": the controller of the source.
    Controller,
    /// "It": the most recent binding, or the candidate under test in a filter.
    It,
    /// A named binding.
    Var(&'static str),
    /// A property of the event that triggered this ability.
    Triggering(EventField),
    /// A property of this spell's own cast event.
    ThisCast(EventField),
}

/// Field projections off a logged game event.
#[derive(Debug, Clone, Copy, PartialEq, Eq, Structural)]
pub enum EventField {
    // spell-cast properties
    ManaSpent,
    AltCost,
    DelvedExiled,
    SacrificedToCast,
    TappedToCast,
    DiscardedToCast,
    X,
    ModesChosen,
    TargetsDeclared,
    // damage event
    DamageAmount,
    DamageSource,
    DamagedObject,
    DamageIsCombat,
    // draw / turn event
    DrawIndexInDrawStep,
    // zone-change event
    ZoneFrom,
    ZoneTo,
    ObjMoved,
    // death trigger
    DyingCreature,
    // ETB
    EtbChoice,
}

/// Game-level designations and flags.
#[derive(Debug, Clone, Copy, PartialEq, Eq, Structural)]
pub enum GameCtx {
    Monarch,
    Initiative,
    DayNight,
    CityBlessing,
    RingTempted,
    /// The spell currently being cast, as an object.
    CastingSpell,
}

} // verus!
