//! Object filters built from expressions, and target specifications.
//!
//! A filter is an expression over the candidate object `It`; the builders
//! here compose the common ones, and `exclude_from_target_spec` narrows a
//! target specification to leave one object out.
use vstd::prelude::*;

use crate::effects::Who;
use crate::ir::context::Ctx;
use crate::ir::expr::{clone_filter, Expr, Filter};
use crate::types::{CardType, Color, CounterType, Keyword, ObjId, Supertype, ZoneId};

verus! {

/// The candidate object.
pub open spec fn spec_it() -> Expr {
    Expr::Ctx(Ctx::It)
}

pub fn it() -> (r: Expr)
    ensures
        r == spec_it(),
{
    Expr::Ctx(Ctx::It)
}

/// `a && b`.
pub open spec fn spec_and(a: Filter, b: Filter) -> Filter {
    Filter(Expr::And(Box::new(a.0), Box::new(b.0)))
}

/// `a || b`.
pub open spec fn spec_or(a: Filter, b: Filter) -> Filter {
    Filter(Expr::Or(Box::new(a.0), Box::new(b.0)))
}

/// `!a`.
pub open spec fn spec_not(a: Filter) -> Filter {
    Filter(Expr::Not(Box::new(a.0)))
}

/// Matches everything.
pub fn ir_any() -> (f: Filter)
    ensures
        f == Filter(Expr::Bool(true)),
{
    Filter(Expr::Bool(true))
}

/// `t ∈ Types(It)`.
pub fn ir_type(t: CardType) -> (f: Filter)
    ensures
        f == Filter(Expr::Contains(Box::new(Expr::TypeLit(t)), Box::new(Expr::Types(Box::new(spec_it()))))),
{
    Filter(Expr::Contains(Box::new(Expr::TypeLit(t)), Box::new(Expr::Types(Box::new(it())))))
}

/// `s ∈ Supertypes(It)`.
pub fn ir_supertype(s: Supertype) -> (f: Filter)
    ensures
        f == Filter(
            Expr::Contains(Box::new(Expr::SupertypeLit(s)), Box::new(Expr::Supertypes(Box::new(spec_it())))),
        ),
{
    Filter(Expr::Contains(Box::new(Expr::SupertypeLit(s)), Box::new(Expr::Supertypes(Box::new(it())))))
}

/// `s ∈ Subtypes(It)`.
pub fn ir_subtype(s: &str) -> (f: Filter)
    ensures
        ({
            &&& f matches Filter(Expr::Contains(lit, set))
            &&& *set == Expr::Subtypes(Box::new(spec_it()))
            &&& *lit matches Expr::SubtypeLit(t)
            &&& t@ == s@
        }),
{
    Filter(Expr::Contains(Box::new(Expr::SubtypeLit(s.to_owned())), Box::new(Expr::Subtypes(Box::new(it())))))
}

/// A token.
pub fn ir_token() -> (f: Filter)
    ensures
        f == Filter(Expr::IsToken(Box::new(spec_it()))),
{
    Filter(Expr::IsToken(Box::new(it())))
}

/// Exactly the object `id`.
pub fn ir_obj(id: ObjId) -> (f: Filter)
    ensures
        f == Filter(Expr::Eq(Box::new(spec_it()), Box::new(Expr::ObjLit(id)))),
{
    Filter(Expr::Eq(Box::new(it()), Box::new(Expr::ObjLit(id))))
}

/// `c ∈ Colors(It)`.
pub fn ir_color(c: Color) -> (f: Filter)
    ensures
        f == Filter(Expr::Contains(Box::new(Expr::ColorLit(c)), Box::new(Expr::Colors(Box::new(spec_it()))))),
{
    Filter(Expr::Contains(Box::new(Expr::ColorLit(c)), Box::new(Expr::Colors(Box::new(it())))))
}

/// `ZoneOf(It) == z`.
pub fn ir_zone(z: ZoneId) -> (f: Filter)
    ensures
        f == Filter(Expr::Eq(Box::new(Expr::ZoneOf(Box::new(spec_it()))), Box::new(Expr::ZoneLit(z)))),
{
    Filter(Expr::Eq(Box::new(Expr::ZoneOf(Box::new(it()))), Box::new(Expr::ZoneLit(z))))
}

/// Colorless: `|Colors(It)| == 0`.
pub fn ir_colorless() -> (f: Filter)
    ensures
        f == Filter(
            Expr::Eq(Box::new(Expr::Count(Box::new(Expr::Colors(Box::new(spec_it()))))), Box::new(Expr::Num(0))),
        ),
{
    Filter(Expr::Eq(Box::new(Expr::Count(Box::new(Expr::Colors(Box::new(it()))))), Box::new(Expr::Num(0))))
}

/// `kw ∈ Keywords(It)`.
pub fn ir_keyword(kw: Keyword) -> (f: Filter)
    ensures
        f == Filter(Expr::Contains(Box::new(Expr::KeywordLit(kw)), Box::new(Expr::Keywords(Box::new(spec_it()))))),
{
    Filter(Expr::Contains(Box::new(Expr::KeywordLit(kw)), Box::new(Expr::Keywords(Box::new(it())))))
}

/// `Mv(It) <= n`.
pub fn ir_mv_le(n: i32) -> (f: Filter)
    ensures
        f == Filter(Expr::Le(Box::new(Expr::Mv(Box::new(spec_it()))), Box::new(Expr::Num(n as i64)))),
{
    ir_mv_le_expr(Expr::Num(n as i64))
}

/// `Mv(It) <= e`.
pub fn ir_mv_le_expr(e: Expr) -> (f: Filter)
    ensures
        f == Filter(Expr::Le(Box::new(Expr::Mv(Box::new(spec_it()))), Box::new(e))),
{
    Filter(Expr::Le(Box::new(Expr::Mv(Box::new(it()))), Box::new(e)))
}

/// `Mv(It) == e`.
pub fn ir_mv_eq_expr(e: Expr) -> (f: Filter)
    ensures
        f == Filter(Expr::Eq(Box::new(Expr::Mv(Box::new(spec_it()))), Box::new(e))),
{
    Filter(Expr::Eq(Box::new(Expr::Mv(Box::new(it()))), Box::new(e)))
}

/// A creature with `Toughness(It) <= n`.
pub fn ir_toughness_le(n: i32) -> (f: Filter)
    ensures
        f == spec_and(
            Filter(Expr::Contains(Box::new(Expr::TypeLit(CardType::Creature)), Box::new(Expr::Types(Box::new(spec_it()))))),
            Filter(Expr::Le(Box::new(Expr::Toughness(Box::new(spec_it()))), Box::new(Expr::Num(n as i64)))),
        ),
{
    ir_and(
        ir_type(CardType::Creature),
        Filter(Expr::Le(Box::new(Expr::Toughness(Box::new(it()))), Box::new(Expr::Num(n as i64)))),
    )
}

/// At least one counter of type `ct`.
pub fn ir_has_counter(ct: CounterType) -> (f: Filter)
    ensures
        f == Filter(Expr::Gt(Box::new(Expr::CountersOn(Box::new(spec_it()), ct)), Box::new(Expr::Num(0)))),
{
    Filter(Expr::Gt(Box::new(Expr::CountersOn(Box::new(it()), ct)), Box::new(Expr::Num(0))))
}

/// An ability (not a card) on the stack.
pub fn ir_ability() -> (f: Filter)
    ensures
        f == Filter(Expr::IsAbility(Box::new(spec_it()))),
{
    Filter(Expr::IsAbility(Box::new(it())))
}

/// A triggered ability.
pub fn ir_triggered_ability() -> (f: Filter)
    ensures
        f == Filter(Expr::AbilityIsTriggered(Box::new(spec_it()))),
{
    Filter(Expr::AbilityIsTriggered(Box::new(it())))
}

/// A spell: on the stack and not an ability.
pub fn ir_spell() -> (f: Filter)
    ensures
        f == spec_and(
            Filter(Expr::Eq(Box::new(Expr::ZoneOf(Box::new(spec_it()))), Box::new(Expr::ZoneLit(ZoneId::Stack)))),
            spec_not(Filter(Expr::IsAbility(Box::new(spec_it())))),
        ),
{
    ir_and(ir_zone(ZoneId::Stack), ir_not(ir_ability()))
}

/// A colored spell on the stack.
pub fn ir_colored_spell() -> (f: Filter)
    ensures
        f == spec_and(
            spec_and(
                Filter(Expr::Eq(Box::new(Expr::ZoneOf(Box::new(spec_it()))), Box::new(Expr::ZoneLit(ZoneId::Stack)))),
                spec_not(Filter(Expr::IsAbility(Box::new(spec_it())))),
            ),
            spec_not(
                Filter(Expr::Eq(Box::new(Expr::Count(Box::new(Expr::Colors(Box::new(spec_it()))))), Box::new(Expr::Num(0)))),
            ),
        ),
{
    ir_and(ir_spell(), ir_not(ir_colorless()))
}

/// Conjunction.
pub fn ir_and(a: Filter, b: Filter) -> (f: Filter)
    ensures
        f == spec_and(a, b),
{
    Filter(Expr::And(Box::new(a.0), Box::new(b.0)))
}

/// Disjunction.
pub fn ir_or(a: Filter, b: Filter) -> (f: Filter)
    ensures
        f == spec_or(a, b),
{
    Filter(Expr::Or(Box::new(a.0), Box::new(b.0)))
}

/// Negation.
pub fn ir_not(a: Filter) -> (f: Filter)
    ensures
        f == spec_not(a),
{
    Filter(Expr::Not(Box::new(a.0)))
}

// ── Target specifications ────────────────────────────────────────────────────

/// What targets a spell or ability may choose from.
pub enum TargetSpec {
    /// No target.
    NoTarget,
    /// A player, relative to the acting controller.
    Player(Who),
    /// An object in `zone` controlled by `controller` matching `filter`.
    ObjectInZone { controller: Who, zone: ZoneId, filter: Filter },
    /// Any one of several specifications.
    Union(Vec<TargetSpec>),
}

impl TargetSpec {
    /// No target is needed.
    pub fn is_none(&self) -> (r: bool)
        ensures
            r == (*self is NoTarget),
    {
        match self {
            TargetSpec::NoTarget => true,
            _ => false,
        }
    }
}

/// The filter "not the object `id`".
pub open spec fn not_obj(id: ObjId) -> Filter {
    spec_not(Filter(Expr::Eq(Box::new(spec_it()), Box::new(Expr::ObjLit(id)))))
}

/// `r` is `spec` with every object filter narrowed to leave `id` out.
pub open spec fn excludes(r: TargetSpec, spec: TargetSpec, id: ObjId) -> bool
    decreases spec,
{
    match spec {
        TargetSpec::NoTarget => r is NoTarget,
        TargetSpec::Player(w) => r == TargetSpec::Player(w),
        TargetSpec::ObjectInZone { controller, zone, filter } => r == TargetSpec::ObjectInZone {
            controller,
            zone,
            filter: spec_and(filter, not_obj(id)),
        },
        TargetSpec::Union(specs) => match r {
            TargetSpec::Union(rs) => rs@.len() == specs@.len() && forall|i: int|
                0 <= i < specs@.len() ==> excludes(#[trigger] rs@[i], specs@[i], id),
            _ => false,
        },
    }
}

/// `spec`, with "another": every object filter also requires the object not
/// to be `exclude_id`.
pub fn exclude_from_target_spec(spec: &TargetSpec, exclude_id: ObjId) -> (r: TargetSpec)
    ensures
        excludes(r, *spec, exclude_id),
    decreases spec,
{
    match spec {
        TargetSpec::NoTarget => TargetSpec::NoTarget,
        TargetSpec::Player(w) => TargetSpec::Player(*w),
        TargetSpec::ObjectInZone { controller, zone, filter } => {
            let not_excluded = ir_not(Filter(Expr::Eq(Box::new(it()), Box::new(Expr::ObjLit(exclude_id)))));
            TargetSpec::ObjectInZone {
                controller: *controller,
                zone: *zone,
                filter: ir_and(clone_filter(filter), not_excluded),
            }
        },
        TargetSpec::Union(specs) => {
            let mut out: Vec<TargetSpec> = Vec::new();
            for i in 0..specs.len()
                invariant
                    *spec == TargetSpec::Union(*specs),
                    out@.len() == i,
                    forall|k: int| 0 <= k < i ==> excludes(#[trigger] out@[k], specs@[k], exclude_id),
            {
                proof {
                    assert((*spec)->Union_0 == *specs);
                    assert(decreases_to!(*spec => (*spec)->Union_0));
                    assert(decreases_to!(*specs => specs@));
                    assert(decreases_to!(specs@ => specs@[i as int]));
                }
                out.push(exclude_from_target_spec(&specs[i], exclude_id));
            }
            TargetSpec::Union(out)
        },
    }
}

} // verus!
