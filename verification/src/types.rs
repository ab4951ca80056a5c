//! Core game vocabulary: object and player identity, zones, colors, card
//! types, turn structure and continuous-effect categories.
use vstd::prelude::*;

verus! {

/// Opaque game object identifier. Every player, card, token, and stack ability
/// gets one at construction time and keeps it through all zone changes.
/// Identifier 0 is reserved for "unset".
#[derive(Copy, Clone, PartialEq, Eq, Hash, Debug, Default, Structural)]
pub struct ObjId(pub u64);

impl ObjId {
    /// The reserved "no object" identifier.
    pub fn unset() -> (r: ObjId)
        ensures
            r.0 == 0,
    {
        ObjId(0)
    }
}

/// Type of a counter placed on a game object.
#[derive(Clone, Copy, PartialEq, Eq, Hash, Debug, Structural)]
pub enum CounterType {
    /// Placed on cards exiled by a "void" replacement effect.
    Void,
    /// Placed via sunburst on entry.
    Charge,
    /// +1/+1 counter.
    PlusOnePlusOne,
}

/// Typed player identifier.
#[derive(Clone, Copy, PartialEq, Eq, Hash, Debug, Structural)]
pub enum PlayerId {
    Us,
    Opp,
}

impl PlayerId {
    pub open spec fn spec_opp(self) -> PlayerId {
        match self {
            PlayerId::Us => PlayerId::Opp,
            PlayerId::Opp => PlayerId::Us,
        }
    }

    /// The other player.
    pub fn opp(self) -> (r: PlayerId)
        ensures
            r == self.spec_opp(),
            r != self,
    {
        match self {
            PlayerId::Us => PlayerId::Opp,
            PlayerId::Opp => PlayerId::Us,
        }
    }

    /// The display string of a player ("us"/"opp").
    pub fn label(self) -> (r: &'static str)
        ensures
            r@ == (match self {
                PlayerId::Us => "us"@,
                PlayerId::Opp => "opp"@,
            }),
    {
        match self {
            PlayerId::Us => "us",
            PlayerId::Opp => "opp",
        }
    }
}

/// Taking the opponent twice gives back the same player, and the two players
/// are each other's opponents.
pub proof fn lemma_opp_involution(p: PlayerId)
    ensures
        p.spec_opp().spec_opp() == p,
        p.spec_opp() != p,
{
}

/// Zone a card currently occupies.
#[derive(Clone, Copy, PartialEq, Debug, Structural)]
pub enum Zone {
    Library,
    /// `known` = identity visible to the opponent.
    Hand { known: bool },
    Stack,
    Battlefield,
    Graveyard,
    Exile { on_adventure: bool },
}

/// Zones a card or permanent can occupy, without per-zone payload.
#[derive(Clone, Copy, PartialEq, Debug, Structural)]
pub enum ZoneId {
    Hand,
    Library,
    Battlefield,
    Graveyard,
    Exile,
    Stack,
}

pub open spec fn spec_card_zone_to_id(zone: Zone) -> ZoneId {
    match zone {
        Zone::Library => ZoneId::Library,
        Zone::Hand { .. } => ZoneId::Hand,
        Zone::Stack => ZoneId::Stack,
        Zone::Battlefield => ZoneId::Battlefield,
        Zone::Graveyard => ZoneId::Graveyard,
        Zone::Exile { .. } => ZoneId::Exile,
    }
}

/// Forget the payload of a zone (hand visibility, adventure status).
pub fn card_zone_to_id(zone: &Zone) -> (r: ZoneId)
    ensures
        r == spec_card_zone_to_id(*zone),
{
    match zone {
        Zone::Library => ZoneId::Library,
        Zone::Hand { .. } => ZoneId::Hand,
        Zone::Stack => ZoneId::Stack,
        Zone::Battlefield => ZoneId::Battlefield,
        Zone::Graveyard => ZoneId::Graveyard,
        Zone::Exile { .. } => ZoneId::Exile,
    }
}

/// The five colors of Magic.
#[derive(Clone, Copy, PartialEq, Eq, Hash, Debug, Structural)]
pub enum Color {
    White,
    Blue,
    Black,
    Red,
    Green,
}

/// Card supertypes.
#[derive(Clone, Copy, PartialEq, Eq, Hash, Debug, Structural)]
pub enum Supertype {
    Legendary,
    Basic,
    Snow,
}

/// Card types.
#[derive(Clone, Copy, PartialEq, Eq, Hash, Debug, Structural)]
pub enum CardType {
    Land,
    Creature,
    Artifact,
    Enchantment,
    Planeswalker,
    Instant,
    Sorcery,
}

/// Keyword abilities.
#[derive(Clone, Copy, PartialEq, Eq, Hash, Debug, Structural)]
pub enum Keyword {
    Flying,
    Reach,
    Haste,
    Vigilance,
    Trample,
    Lifelink,
    Deathtouch,
    FirstStrike,
    DoubleStrike,
    Hexproof,
    Flash,
    Shadow,
    Annihilator,
}

/// The five basic land types.
#[derive(Clone, Copy, PartialEq, Eq, Hash, Debug, Structural)]
pub enum BasicLandType {
    Plains,
    Island,
    Swamp,
    Mountain,
    Forest,
}

/// When an activated ability may be activated.
#[derive(Clone, Copy, PartialEq, Eq, Debug, Structural)]
pub enum ActivationTiming {
    /// Instant speed, allowed inside the mana sub-loop for mana abilities.
    Default,
    /// Instant speed, excluded from the mana sub-loop.
    Instant,
    /// Main phase, empty stack only.
    Sorcery,
}

/// Where the source of an ability must be to activate it.
#[derive(Clone, Copy, PartialEq, Eq, Debug, Structural)]
pub enum SourceZone {
    Battlefield,
    Hand,
}

/// The seven layers in which continuous effects are applied (rule 613).
#[derive(Clone, Copy, PartialEq, Eq, Debug, Structural)]
pub enum ContinuousLayer {
    L1CopyEffects,
    L2ControlEffects,
    L3TextEffects,
    L4TypeEffects,
    L5ColorEffects,
    L6AbilityEffects,
    L7PowerToughness,
}

impl ContinuousLayer {
    /// The layer number, 1 through 7.
    pub fn number(self) -> (r: u8)
        ensures
            1 <= r <= 7,
            r == self.spec_number(),
    {
        match self {
            ContinuousLayer::L1CopyEffects => 1,
            ContinuousLayer::L2ControlEffects => 2,
            ContinuousLayer::L3TextEffects => 3,
            ContinuousLayer::L4TypeEffects => 4,
            ContinuousLayer::L5ColorEffects => 5,
            ContinuousLayer::L6AbilityEffects => 6,
            ContinuousLayer::L7PowerToughness => 7,
        }
    }

    pub open spec fn spec_number(self) -> u8 {
        match self {
            ContinuousLayer::L1CopyEffects => 1,
            ContinuousLayer::L2ControlEffects => 2,
            ContinuousLayer::L3TextEffects => 3,
            ContinuousLayer::L4TypeEffects => 4,
            ContinuousLayer::L5ColorEffects => 5,
            ContinuousLayer::L6AbilityEffects => 6,
            ContinuousLayer::L7PowerToughness => 7,
        }
    }
}

/// What characteristics a continuous effect reads (for dependency analysis).
#[derive(Clone, Copy, PartialEq, Eq, Debug, Structural)]
pub enum CeReads {
    LandTypes,
    Supertypes,
    Abilities,
    Color,
    PowerToughness,
    CardTypes,
}

/// What characteristics a continuous effect writes.
#[derive(Clone, Copy, PartialEq, Eq, Debug, Structural)]
pub enum CeWrites {
    LandTypes,
    Supertypes,
    Abilities,
    Color,
    PowerToughness,
    CardTypes,
}

/// The characteristic category shared by a read and a write, by position.
pub open spec fn ce_read_category(r: CeReads) -> int {
    match r {
        CeReads::LandTypes => 0,
        CeReads::Supertypes => 1,
        CeReads::Abilities => 2,
        CeReads::Color => 3,
        CeReads::PowerToughness => 4,
        CeReads::CardTypes => 5,
    }
}

pub open spec fn ce_write_category(w: CeWrites) -> int {
    match w {
        CeWrites::LandTypes => 0,
        CeWrites::Supertypes => 1,
        CeWrites::Abilities => 2,
        CeWrites::Color => 3,
        CeWrites::PowerToughness => 4,
        CeWrites::CardTypes => 5,
    }
}

/// Rule 613.7: an effect that reads a category depends on an effect that
/// writes the same category.
pub fn ce_categories_match(r: CeReads, w: CeWrites) -> (m: bool)
    ensures
        m == (ce_read_category(r) == ce_write_category(w)),
{
    match (r, w) {
        (CeReads::LandTypes, CeWrites::LandTypes)
        | (CeReads::Supertypes, CeWrites::Supertypes)
        | (CeReads::Abilities, CeWrites::Abilities)
        | (CeReads::Color, CeWrites::Color)
        | (CeReads::PowerToughness, CeWrites::PowerToughness)
        | (CeReads::CardTypes, CeWrites::CardTypes) => true,
        _ => false,
    }
}

/// When a continuous-effect instance expires.
#[derive(Clone, Copy, PartialEq, Debug, Structural)]
pub enum Expiry {
    /// Removed during the Cleanup step of the current turn.
    EndOfTurn,
    /// Removed at the start of the controlling player's next Untap step.
    StartOfControllerNextTurn,
    /// Tied to a permanent being on the battlefield.
    WhileSourceOnBattlefield,
    /// Fires once, then self-removes.
    OneShot,
    /// Never expires.
    Never,
}

#[derive(Clone, Copy, PartialEq, Debug, Structural)]
pub enum PhaseKind {
    Beginning,
    PreCombatMain,
    Combat,
    PostCombatMain,
    End,
}

#[derive(Clone, Copy, PartialEq, Debug, Structural)]
pub enum StepKind {
    Untap,
    Upkeep,
    Draw,
    BeginCombat,
    DeclareAttackers,
    DeclareBlockers,
    FirstStrikeCombatDamage,
    CombatDamage,
    EndCombat,
    End,
    Cleanup,
}

#[derive(Clone, Copy, Debug)]
pub enum TurnPosition {
    Step(StepKind),
    Phase(PhaseKind),
}

/// Which face of a card to cast. `Back` = adventure/split second half.
#[derive(Clone, Copy, PartialEq, Debug, Structural)]
pub enum SpellFace {
    Main,
    Back,
}

} // verus!
