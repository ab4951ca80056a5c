//! Game events, as emitted by the engine and recorded in the event log.
use vstd::prelude::*;

use crate::types::{Color, ObjId, PhaseKind, PlayerId, SpellFace, StepKind, ZoneId};

verus! {

/// A game event emitted at key moments; handlers inspect it to decide
/// whether a trigger fires.
#[derive(Clone)]
pub enum GameEvent {
    /// A card moved from one zone to another (not a draw).
    ZoneChange { id: ObjId, actor: PlayerId, from: ZoneId, to: ZoneId, controller: PlayerId },
    /// A player draws a card; `draw_index` counts draws this turn from 1.
    Draw { controller: PlayerId, draw_index: u8, is_natural: bool },
    /// A named step with a priority round began.
    EnteredStep { step: StepKind, active_player: PlayerId },
    /// A main phase's priority window began.
    EnteredPhase { phase: PhaseKind },
    /// Mana was added to a player's pool.
    ManaProduced { who: PlayerId, spec: String },
    /// A creature was declared as an attacker.
    CreatureAttacked { attacker_id: ObjId, attacker_controller: PlayerId },
    /// A spell is about to be cast (before costs are paid).
    SpellBeingCast { caster: PlayerId, card_id: ObjId, mana_value: i32, is_noncreature: bool },
    /// A spell was cast: costs paid, object on the stack.
    SpellCast { caster: PlayerId, card_id: ObjId, mana_spent: bool },
    /// A spell finished resolving.
    SpellResolved { controller: PlayerId, card_id: ObjId },
    /// A spell is about to be countered.
    SpellBeingCountered { caster: PlayerId, card_id: ObjId },
    /// A land was played from hand.
    LandPlayed { id: ObjId, controller: PlayerId },
    /// A permanent transformed in place.
    Transformed { id: ObjId, controller: PlayerId },
    /// An Equipment or Aura became attached to a permanent.
    BecameAttached { attachment: ObjId, target: ObjId, controller: PlayerId },
}

/// Which objects moved while costs were paid, and the choices made then.
pub struct CostsPaidCtx {
    /// Objects moved as a cost (exiled, discarded, sacrificed, returned).
    pub objects_moved: Vec<ObjId>,
    /// For each permanent returned as a cost, what it was attacking.
    pub returned_attack_targets: Vec<Option<ObjId>>,
    /// How many times a replicate cost was paid.
    pub replicate_count: u32,
    /// The X paid as an additional life cost.
    pub chosen_x: u32,
    /// The chosen mode of a modal spell.
    pub chosen_mode: usize,
    /// The alternate cost used, if any.
    pub alt_cost_index: Option<usize>,
}

/// The in-play state of a permanent.
pub struct BattlefieldState {
    pub tapped: bool,
    pub damage: i32,
    pub entered_this_turn: bool,
    /// +1/+1 counters.
    pub counters: i32,
    pub power_mod: i32,
    pub toughness_mod: i32,
    /// Planeswalker loyalty.
    pub loyalty: i32,
    pub pw_activated_this_turn: bool,
    pub attacking: bool,
    pub unblocked: bool,
    /// `None`: attacking the player; otherwise the planeswalker attacked.
    pub attack_target: Option<ObjId>,
    /// Active face of a double-faced card (0 front, 1 back).
    pub active_face: u8,
    /// The choice made as it entered the battlefield.
    pub etb_choice: Option<ChoiceResult>,
    /// The creature an Equipment is attached to.
    pub attached_to: Option<ObjId>,
    /// Stun counters.
    pub stun_counters: u32,
}

impl BattlefieldState {
    /// A permanent that just entered: untapped, undamaged, no counters, not
    /// in combat, front face up.
    pub fn new() -> (r: Self)
        ensures
            !r.tapped,
            r.damage == 0,
            r.entered_this_turn,
            r.counters == 0,
            r.power_mod == 0,
            r.toughness_mod == 0,
            r.loyalty == 0,
            !r.pw_activated_this_turn,
            !r.attacking,
            !r.unblocked,
            r.attack_target is None,
            r.active_face == 0,
            r.etb_choice is None,
            r.attached_to is None,
            r.stun_counters == 0,
    {
        BattlefieldState {
            tapped: false,
            damage: 0,
            entered_this_turn: true,
            counters: 0,
            power_mod: 0,
            toughness_mod: 0,
            loyalty: 0,
            pw_activated_this_turn: false,
            attacking: false,
            unblocked: false,
            attack_target: None,
            active_face: 0,
            etb_choice: None,
            attached_to: None,
            stun_counters: 0,
        }
    }
}

/// The answer to a choice over typed values.
pub enum ChoiceResult {
    Color(Color),
    CreatureType(String),
    CardName(String),
    Mode(usize),
    /// Pay (true) or decline (false).
    Bool(bool),
    /// The object chosen, or none.
    OptionalObject(Option<ObjId>),
}

/// An action the engine offers at priority.
#[derive(Clone, Copy, PartialEq, Structural)]
pub enum LegalAction {
    Pass,
    LandDrop(ObjId),
    /// Cast from hand, the back face of an adventure, or free from exile.
    CastSpell { card_id: ObjId, face: SpellFace },
    /// Activate a non-mana ability of a permanent.
    ActivateAbility { source_id: ObjId, ability_index: usize },
    /// Activate a mana ability that may only be used at priority.
    ActivateManaAbility { source_id: ObjId, ability_index: usize },
}

/// The choices made when a spell is announced.
pub struct AnnounceChoice {
    pub chosen_mode: usize,
    /// The alternate cost used; `None` pays the mana cost.
    pub alt_cost_index: Option<usize>,
    pub chosen_x: u32,
}

/// A mana ability that can be activated.
pub struct ManaAbilityOption {
    pub source_id: ObjId,
    pub ability_index: usize,
    pub produces: Vec<Color>,
    pub produces_count: usize,
}

/// A decision to activate a mana ability.
pub struct ManaActivation {
    pub source_id: ObjId,
    pub ability_index: usize,
    /// The color to produce; `None` for colorless or any.
    pub color_choice: Option<Color>,
}

/// Why a deck card cannot be simulated.
#[derive(Debug, Clone, Copy, PartialEq, Eq, Structural)]
pub enum UnimplementedKind {
    /// Not in the catalog.
    Missing,
    /// In the catalog, but with nothing to do.
    Inert,
}

/// A deck card the engine cannot simulate, and why.
pub struct UnimplementedCard {
    pub name: String,
    pub qty: i32,
    /// `"main"` or `"side"`.
    pub board: String,
    pub kind: UnimplementedKind,
}

} // verus!
