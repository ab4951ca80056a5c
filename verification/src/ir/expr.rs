//! Pure queries over game state. Expressions never change state.
//!
//! A `Filter` is an `Expr` that evaluates to `Bool`.
use vstd::prelude::*;

use super::context::{Ctx, GameCtx};
use super::event_log::Window;
use crate::types::{CardType, Color, CounterType, Keyword, ObjId, PlayerId, Supertype, ZoneId};

verus! {

/// Pure queries over game state.
#[derive(Debug)]
pub enum Expr {
    // literals / context
    Num(i64),
    Bool(bool),
    /// The ability's source, its controller, the triggering event or a
    /// named binding.
    Ctx(Ctx),
    /// A game-level designation (monarch, day/night, ...).
    GameCtx(GameCtx),
    // property projections (object -> value)
    Types(Box<Expr>),
    Supertypes(Box<Expr>),
    Subtypes(Box<Expr>),
    Colors(Box<Expr>),
    Keywords(Box<Expr>),
    Power(Box<Expr>),
    Toughness(Box<Expr>),
    Mv(Box<Expr>),
    Controller(Box<Expr>),
    Owner(Box<Expr>),
    ZoneOf(Box<Expr>),
    ZoneLit(ZoneId),
    ObjLit(ObjId),
    IsToken(Box<Expr>),
    IsAbility(Box<Expr>),
    AbilityIsTriggered(Box<Expr>),
    CountersOn(Box<Expr>, CounterType),
    Name(Box<Expr>),
    // battlefield-state projections
    Attacking(Box<Expr>),
    Unblocked(Box<Expr>),
    // player projections
    Life(Box<Expr>),
    HandSize(Box<Expr>),
    Opponents(Box<Expr>),
    // zone projections
    /// Top N cards of a zone.
    Top { zone: ZoneSel, n: Box<Expr> },
    // boolean / arithmetic
    And(Box<Expr>, Box<Expr>),
    Or(Box<Expr>, Box<Expr>),
    Not(Box<Expr>),
    Eq(Box<Expr>, Box<Expr>),
    Lt(Box<Expr>, Box<Expr>),
    Le(Box<Expr>, Box<Expr>),
    Gt(Box<Expr>, Box<Expr>),
    Ge(Box<Expr>, Box<Expr>),
    /// Set membership: does lhs (scalar) appear in rhs (set)?
    Contains(Box<Expr>, Box<Expr>),
    Add(Box<Expr>, Box<Expr>),
    Sub(Box<Expr>, Box<Expr>),
    Mul(Box<Expr>, Box<Expr>),
    Neg(Box<Expr>),
    Min(Box<Expr>, Box<Expr>),
    Max(Box<Expr>, Box<Expr>),
    // set-builder and folds
    /// The players, as objects.
    Players,
    /// All objects in a zone matching a filter, with `bind` naming the
    /// candidate in the filter.
    AllObjects { zone: ZoneSel, bind: &'static str, filter: Box<Expr> },
    /// |set|
    Count(Box<Expr>),
    /// Some element of `set` satisfies `body`.
    Any { set: Box<Expr>, bind: &'static str, body: Box<Expr> },
    /// Every element of `set` satisfies `body`.
    All { set: Box<Expr>, bind: &'static str, body: Box<Expr> },
    // literal collections
    TypeLit(CardType),
    SupertypeLit(Supertype),
    SubtypeLit(String),
    ColorLit(Color),
    KeywordLit(Keyword),
    NameLit(String),
    // binding
    Let { name: &'static str, value: Box<Expr>, body: Box<Expr> },
    /// True iff `name` is bound to a non-unit value.
    Bound(&'static str),
    /// How many logged events in `window` satisfy `filter`.
    EventCount { window: Window, filter: Box<EventFilter> },
}

/// Predicate over logged events.
#[derive(Debug)]
pub enum EventFilter {
    /// A spell was cast, optionally by a given player.
    SpellCast { caster: Option<Box<Expr>> },
}

/// Which zone to scan, possibly controller-scoped.
#[derive(Debug)]
pub enum ZoneSel {
    /// An absolute zone.
    Id(ZoneId),
    /// "Your graveyard", "an opponent's library", ...
    Scoped { zone_kind: ZoneKindSel, owner: Box<Expr> },
    /// All zones of a kind across players.
    Global(ZoneKindSel),
}

/// Zone kinds as a selector.
#[derive(Debug, Clone, Copy, PartialEq, Eq, Structural)]
pub enum ZoneKindSel {
    Library,
    Hand,
    Battlefield,
    Graveyard,
    Exile,
    Stack,
    Command,
}

/// The kinds of values an `Expr` produces.
#[derive(Debug, Clone)]
pub enum Value {
    Num(i64),
    Bool(bool),
    Obj(ObjId),
    Player(PlayerId),
    Zone(ZoneId),
    Type(CardType),
    Supertype(Supertype),
    Subtype(String),
    Color(Color),
    Keyword(Keyword),
    Counter(CounterType),
    Name(String),
    ObjSet(Vec<ObjId>),
    PlayerSet(Vec<PlayerId>),
    TypeSet(Vec<CardType>),
    SupertypeSet(Vec<Supertype>),
    ColorSet(Vec<Color>),
    KeywordSet(Vec<Keyword>),
    SubtypeSet(Vec<String>),
    Unit,
}

/// A predicate: an expression that evaluates to `Bool`.
#[derive(Debug)]
pub struct Filter(pub Expr);


/// A copy of an expression.
pub fn clone_expr(e: &Expr) -> (r: Expr)
    ensures
        r == *e,
    decreases e,
{
    match e {
        Expr::Num(a) => Expr::Num(*a),
        Expr::Bool(a) => Expr::Bool(*a),
        Expr::Ctx(a) => Expr::Ctx(*a),
        Expr::GameCtx(a) => Expr::GameCtx(*a),
        Expr::Types(a) => Expr::Types(Box::new(clone_expr(a))),
        Expr::Supertypes(a) => Expr::Supertypes(Box::new(clone_expr(a))),
        Expr::Subtypes(a) => Expr::Subtypes(Box::new(clone_expr(a))),
        Expr::Colors(a) => Expr::Colors(Box::new(clone_expr(a))),
        Expr::Keywords(a) => Expr::Keywords(Box::new(clone_expr(a))),
        Expr::Power(a) => Expr::Power(Box::new(clone_expr(a))),
        Expr::Toughness(a) => Expr::Toughness(Box::new(clone_expr(a))),
        Expr::Mv(a) => Expr::Mv(Box::new(clone_expr(a))),
        Expr::Controller(a) => Expr::Controller(Box::new(clone_expr(a))),
        Expr::Owner(a) => Expr::Owner(Box::new(clone_expr(a))),
        Expr::ZoneOf(a) => Expr::ZoneOf(Box::new(clone_expr(a))),
        Expr::ZoneLit(a) => Expr::ZoneLit(*a),
        Expr::ObjLit(a) => Expr::ObjLit(*a),
        Expr::IsToken(a) => Expr::IsToken(Box::new(clone_expr(a))),
        Expr::IsAbility(a) => Expr::IsAbility(Box::new(clone_expr(a))),
        Expr::AbilityIsTriggered(a) => Expr::AbilityIsTriggered(Box::new(clone_expr(a))),
        Expr::CountersOn(a, b) => Expr::CountersOn(Box::new(clone_expr(a)), *b),
        Expr::Name(a) => Expr::Name(Box::new(clone_expr(a))),
        Expr::Attacking(a) => Expr::Attacking(Box::new(clone_expr(a))),
        Expr::Unblocked(a) => Expr::Unblocked(Box::new(clone_expr(a))),
        Expr::Life(a) => Expr::Life(Box::new(clone_expr(a))),
        Expr::HandSize(a) => Expr::HandSize(Box::new(clone_expr(a))),
        Expr::Opponents(a) => Expr::Opponents(Box::new(clone_expr(a))),
        Expr::Top { zone, n } => Expr::Top { zone: clone_zone_sel(zone), n: Box::new(clone_expr(n)) },
        Expr::And(a, b) => Expr::And(Box::new(clone_expr(a)), Box::new(clone_expr(b))),
        Expr::Or(a, b) => Expr::Or(Box::new(clone_expr(a)), Box::new(clone_expr(b))),
        Expr::Not(a) => Expr::Not(Box::new(clone_expr(a))),
        Expr::Eq(a, b) => Expr::Eq(Box::new(clone_expr(a)), Box::new(clone_expr(b))),
        Expr::Lt(a, b) => Expr::Lt(Box::new(clone_expr(a)), Box::new(clone_expr(b))),
        Expr::Le(a, b) => Expr::Le(Box::new(clone_expr(a)), Box::new(clone_expr(b))),
        Expr::Gt(a, b) => Expr::Gt(Box::new(clone_expr(a)), Box::new(clone_expr(b))),
        Expr::Ge(a, b) => Expr::Ge(Box::new(clone_expr(a)), Box::new(clone_expr(b))),
        Expr::Contains(a, b) => Expr::Contains(Box::new(clone_expr(a)), Box::new(clone_expr(b))),
        Expr::Add(a, b) => Expr::Add(Box::new(clone_expr(a)), Box::new(clone_expr(b))),
        Expr::Sub(a, b) => Expr::Sub(Box::new(clone_expr(a)), Box::new(clone_expr(b))),
        Expr::Mul(a, b) => Expr::Mul(Box::new(clone_expr(a)), Box::new(clone_expr(b))),
        Expr::Neg(a) => Expr::Neg(Box::new(clone_expr(a))),
        Expr::Min(a, b) => Expr::Min(Box::new(clone_expr(a)), Box::new(clone_expr(b))),
        Expr::Max(a, b) => Expr::Max(Box::new(clone_expr(a)), Box::new(clone_expr(b))),
        Expr::Players => Expr::Players,
        Expr::AllObjects { zone, bind, filter } => Expr::AllObjects { zone: clone_zone_sel(zone), bind: *bind, filter: Box::new(clone_expr(filter)) },
        Expr::Count(a) => Expr::Count(Box::new(clone_expr(a))),
        Expr::Any { set, bind, body } => Expr::Any { set: Box::new(clone_expr(set)), bind: *bind, body: Box::new(clone_expr(body)) },
        Expr::All { set, bind, body } => Expr::All { set: Box::new(clone_expr(set)), bind: *bind, body: Box::new(clone_expr(body)) },
        Expr::TypeLit(a) => Expr::TypeLit(*a),
        Expr::SupertypeLit(a) => Expr::SupertypeLit(*a),
        Expr::SubtypeLit(a) => Expr::SubtypeLit(a.clone()),
        Expr::ColorLit(a) => Expr::ColorLit(*a),
        Expr::KeywordLit(a) => Expr::KeywordLit(*a),
        Expr::NameLit(a) => Expr::NameLit(a.clone()),
        Expr::Let { name, value, body } => Expr::Let { name: *name, value: Box::new(clone_expr(value)), body: Box::new(clone_expr(body)) },
        Expr::Bound(a) => Expr::Bound(*a),
        Expr::EventCount { window, filter } => Expr::EventCount { window: *window, filter: Box::new(clone_event_filter(filter)) },
    }
}

/// A copy of an event filter.
pub fn clone_event_filter(f: &EventFilter) -> (r: EventFilter)
    ensures
        r == *f,
    decreases f,
{
    match f {
        EventFilter::SpellCast { caster } => EventFilter::SpellCast {
            caster: match caster {
                Some(e) => Some(Box::new(clone_expr(e))),
                None => None,
            },
        },
    }
}

/// A copy of a zone selector.
pub fn clone_zone_sel(z: &ZoneSel) -> (r: ZoneSel)
    ensures
        r == *z,
    decreases z,
{
    match z {
        ZoneSel::Id(id) => ZoneSel::Id(*id),
        ZoneSel::Scoped { zone_kind, owner } => ZoneSel::Scoped {
            zone_kind: *zone_kind,
            owner: Box::new(clone_expr(owner)),
        },
        ZoneSel::Global(k) => ZoneSel::Global(*k),
    }
}

/// A copy of a filter.
pub fn clone_filter(f: &Filter) -> (r: Filter)
    ensures
        r == *f,
{
    Filter(clone_expr(&f.0))
}

} // verus!
