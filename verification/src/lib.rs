pub mod cast;
pub mod combat;
pub mod combat_pass;
pub mod deck;
pub mod display;
pub mod effects;
pub mod event_pipeline;
pub mod game;
pub mod ir;
pub mod layers;
pub mod mana;
pub mod planner;
pub mod potential;
pub mod playable;
pub mod predicates;
pub mod priority;
pub mod result;
pub mod snapshot;
pub mod steps;
pub mod strategy;
pub mod tap_plan;
pub mod turn;
pub mod types;

pub use game::{
    AnnounceChoice, BattlefieldState, ChoiceResult, CostsPaidCtx, GameEvent, LegalAction,
    ManaAbilityOption, ManaActivation, UnimplementedCard, UnimplementedKind,
};
pub use mana::{ManaCost, ManaPool};
pub use result::{CardResult, PermanentResult, PlayerResult, ScenarioResult};
pub use types::{
    ActivationTiming, BasicLandType, CardType, CeReads, CeWrites, Color, ContinuousLayer,
    CounterType, Expiry, Keyword, ObjId, PhaseKind, PlayerId, SourceZone, SpellFace, StepKind,
    Supertype, TurnPosition, Zone, ZoneId,
};
