//! Continuous-effect modifications, and the alternative costs they grant.
use vstd::prelude::*;

use super::expr::{Expr, Filter, ZoneKindSel};
use crate::types::{BasicLandType, CardType, Color, Keyword, StepKind};

verus! {

/// Alternative cost: what is paid instead of the card's mana cost.
pub enum CostSpec {
    Free,
    /// A mana cost in text form, such as `"{2}{U}"`.
    Mana(&'static str),
    ExileFromGraveyard { n: Expr, filter: Filter },
    Delve,
    /// A named cost paid by the engine.
    Other(&'static str),
}

/// Continuous-effect modification. Each variant belongs to one layer, or
/// (for permissions and costs) to the cast and rule overrides.
pub enum CEMod {
    // layer 1 (copy)
    CopyOf(Expr),
    // layer 4 (type)
    OverrideTypes(Vec<CardType>),
    AddType(CardType),
    AddSubtype(String),
    RemoveSubtype(String),
    /// Set a land's subtype to a basic land type; also strips its
    /// rules-text abilities.
    SetBasicLandType(BasicLandType),
    /// A basic land type in addition to the land's other types.
    AddBasicLandType(BasicLandType),
    // layer 5 (color)
    SetColors(Vec<Color>),
    AddColor(Color),
    // layer 6 (abilities)
    AddKeyword(Keyword),
    RemoveKeyword(Keyword),
    /// "Can't be countered".
    Uncounterable,
    // layer 7 (P/T)
    PumpPT(Expr, Expr),
    SetPT(Expr, Expr),
    SetPower(Expr),
    SetToughness(Expr),
    // protection / prohibitions
    SetProtection(Expr),
    CantAttack,
    CantBlock,
    CantBeTargeted(Filter),
    // rule modifiers
    AllowLoss(Expr),
    MaxHandSize(Expr),
    ExtraLandDrops(Expr),
    SkipStep(StepKind),
    // permissions / cost overrides
    CastableFrom(ZoneKindSel),
    AltCost(CostSpec),
    AnyColorMana,
    GrantFlash,
    /// After resolution, exile this spell.
    OnResolveExile,
    /// +N generic to the cast cost.
    CastingCostPlus(Expr),
    // cost-to-play modifiers
    SpellsCostMore { filter: Filter, amount: Expr },
    SpellsCostLess { filter: Filter, amount: Expr },
}

} // verus!
