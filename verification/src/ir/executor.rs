//! The binding environment, and the dependency analysis between continuous
//! effects.
//!
//! Reads and writes of continuous effects share one vocabulary, `Axis`: an
//! effect that reads an axis another one writes must be applied after it.
//! `deps_of` walks an expression and lists the axes it reads, each once, in
//! the order the walk first meets them; `writes_of` lists the axes a
//! modification writes.
use vstd::prelude::*;

use super::ce::CEMod;
use super::context::Ctx;
use super::expr::{EventFilter, Expr, Value, ZoneKindSel};
use crate::mana::{ManaCost, ManaPool};
use crate::snapshot::registry::text_eq;
use crate::types::{CardType, CeWrites, Color, Keyword, ObjId, PlayerId, Supertype, ZoneId};

verus! {

// ── Binding environment ──────────────────────────────────────────────────────

/// Values an action or expression runs with: its source, controller,
/// subject, named bindings (a later binding of a name hides an earlier one)
/// and a chosen color.
pub struct BindEnv {
    pub source: Option<ObjId>,
    pub controller: Option<PlayerId>,
    pub subj: Option<Value>,
    pub bindings: Vec<(&'static str, Value)>,
    pub chosen_color: Option<Color>,
}

/// The value bound last to `name`.
pub open spec fn last_binding(bs: Seq<(&'static str, Value)>, name: Seq<char>) -> Option<Value>
    decreases bs.len(),
{
    if bs.len() == 0 {
        None
    } else if bs.last().0@ == name {
        Some(bs.last().1)
    } else {
        last_binding(bs.drop_last(), name)
    }
}

impl BindEnv {
    /// An environment with nothing bound.
    pub fn new() -> (r: Self)
        ensures
            r.source is None,
            r.controller is None,
            r.subj is None,
            r.bindings@.len() == 0,
            r.chosen_color is None,
    {
        BindEnv { source: None, controller: None, subj: None, bindings: Vec::new(), chosen_color: None }
    }

    pub fn with_source(self, id: ObjId) -> (r: Self)
        ensures
            r == (BindEnv { source: Some(id), ..self }),
    {
        BindEnv { source: Some(id), ..self }
    }

    pub fn with_controller(self, p: PlayerId) -> (r: Self)
        ensures
            r == (BindEnv { controller: Some(p), ..self }),
    {
        BindEnv { controller: Some(p), ..self }
    }

    /// Bind `name` to `value`.
    pub fn with_var(self, name: &'static str, value: Value) -> (r: Self)
        ensures
            r.bindings@ == self.bindings@.push((name, value)),
            r.source == self.source,
            r.controller == self.controller,
            r.subj == self.subj,
            r.chosen_color == self.chosen_color,
    {
        let mut s = self;
        s.bindings.push((name, value));
        s
    }

    pub fn with_subj(self, value: Value) -> (r: Self)
        ensures
            r == (BindEnv { subj: Some(value), ..self }),
    {
        BindEnv { subj: Some(value), ..self }
    }

    pub fn with_chosen_color(self, c: Option<Color>) -> (r: Self)
        ensures
            r == (BindEnv { chosen_color: c, ..self }),
    {
        BindEnv { chosen_color: c, ..self }
    }

    /// The value bound to `name`.
    pub fn get(&self, name: &str) -> (r: Option<&Value>)
        ensures
            match r {
                Some(v) => last_binding(self.bindings@, name@) == Some(*v),
                None => last_binding(self.bindings@, name@) is None,
            },
    {
        let ghost bs = self.bindings@;
        let mut k: usize = self.bindings.len();
        proof {
            assert(bs.subrange(0, k as int) =~= bs);
        }
        while k > 0
            invariant
                k <= bs.len(),
                bs == self.bindings@,
                last_binding(bs, name@) == last_binding(bs.subrange(0, k as int), name@),
            decreases k,
        {
            proof {
                assert(bs.subrange(0, k as int).drop_last() =~= bs.subrange(0, k - 1));
            }
            if text_eq(self.bindings[k - 1].0, name) {
                return Some(&self.bindings[k - 1].1);
            }
            k = k - 1;
        }
        None
    }
}

/// The outcome of running an action.
pub enum ExecResult {
    /// The action ran.
    Done,
    /// The action has no implementation yet.
    Unimplemented(&'static str),
    /// Mana was to be paid from a pool that was short by this much.
    ManaShortage(ManaCost),
}

// ── Dependency axes ──────────────────────────────────────────────────────────

/// One vocabulary for what continuous effects read and write.
#[derive(Debug, Clone, Copy, PartialEq, Eq, Hash, Structural)]
pub enum Axis {
    /// Layer 1: copy effects.
    Copy,
    /// Layer 2: controller.
    Control,
    /// Layer 3: text-changing effects.
    Text,
    /// Layer 4: card types, supertypes, subtypes.
    Type,
    /// Layer 5: colors.
    Color,
    /// Layer 6: abilities.
    Abilities,
    /// Layer 7: power / toughness.
    PT,
    /// Zone membership.
    Zone,
    /// Counters on objects.
    Counters,
    /// Player life totals.
    Life,
    /// Player hand sizes.
    HandSize,
    /// Game-level designations.
    GameCtx,
    /// The game-event history.
    EventLog,
    /// What can be cast, and from where.
    CastPermission,
    /// Cost-to-cast modifiers.
    CostMod,
    /// Rule-level overrides.
    RuleMod,
}

#[derive(Debug, Clone)]
pub struct CeDeps {
    pub reads: Vec<Axis>,
    pub writes: Vec<Axis>,
}

/// The axes an expression reads, in walk order, with repeats: each
/// projection contributes its axis before the axes of its operand.
pub open spec fn reads_seq(e: Expr) -> Seq<Axis>
    decreases e,
{
    match e {
        Expr::Num(_) => Seq::empty(),
        Expr::Bool(_) => Seq::empty(),
        Expr::TypeLit(_) => Seq::empty(),
        Expr::SupertypeLit(_) => Seq::empty(),
        Expr::SubtypeLit(_) => Seq::empty(),
        Expr::ColorLit(_) => Seq::empty(),
        Expr::KeywordLit(_) => Seq::empty(),
        Expr::NameLit(_) => Seq::empty(),
        Expr::Ctx(c) => match c {
            Ctx::Triggering(_) => seq![Axis::EventLog],
            Ctx::ThisCast(_) => seq![Axis::EventLog],
            _ => Seq::empty(),
        },
        Expr::GameCtx(_) => seq![Axis::GameCtx],
        Expr::Types(x) => seq![Axis::Type] + reads_seq(*x),
        Expr::Supertypes(x) => seq![Axis::Type] + reads_seq(*x),
        Expr::Subtypes(x) => seq![Axis::Type] + reads_seq(*x),
        Expr::Colors(x) => seq![Axis::Color] + reads_seq(*x),
        Expr::Keywords(x) => seq![Axis::Abilities] + reads_seq(*x),
        Expr::Power(x) => seq![Axis::PT] + reads_seq(*x),
        Expr::Toughness(x) => seq![Axis::PT] + reads_seq(*x),
        Expr::Attacking(x) => reads_seq(*x),
        Expr::Unblocked(x) => reads_seq(*x),
        Expr::Mv(x) => seq![Axis::Copy] + reads_seq(*x),
        Expr::Name(x) => seq![Axis::Copy] + reads_seq(*x),
        Expr::Controller(x) => seq![Axis::Control] + reads_seq(*x),
        Expr::Owner(x) => reads_seq(*x),
        Expr::ZoneOf(x) => seq![Axis::Zone] + reads_seq(*x),
        Expr::ZoneLit(_) => Seq::empty(),
        Expr::ObjLit(_) => Seq::empty(),
        Expr::IsToken(x) => reads_seq(*x),
        Expr::IsAbility(x) => reads_seq(*x),
        Expr::AbilityIsTriggered(x) => reads_seq(*x),
        Expr::CountersOn(x, _) => seq![Axis::Counters] + reads_seq(*x),
        Expr::Life(x) => seq![Axis::Life] + reads_seq(*x),
        Expr::HandSize(x) => seq![Axis::HandSize] + reads_seq(*x),
        Expr::Opponents(x) => reads_seq(*x),
        Expr::Top { zone: _, n } => seq![Axis::Zone] + reads_seq(*n),
        Expr::AllObjects { zone: _, bind: _, filter } => seq![Axis::Zone] + reads_seq(*filter),
        Expr::And(a, b) => reads_seq(*a) + reads_seq(*b),
        Expr::Or(a, b) => reads_seq(*a) + reads_seq(*b),
        Expr::Eq(a, b) => reads_seq(*a) + reads_seq(*b),
        Expr::Lt(a, b) => reads_seq(*a) + reads_seq(*b),
        Expr::Le(a, b) => reads_seq(*a) + reads_seq(*b),
        Expr::Gt(a, b) => reads_seq(*a) + reads_seq(*b),
        Expr::Ge(a, b) => reads_seq(*a) + reads_seq(*b),
        Expr::Contains(a, b) => reads_seq(*a) + reads_seq(*b),
        Expr::Add(a, b) => reads_seq(*a) + reads_seq(*b),
        Expr::Sub(a, b) => reads_seq(*a) + reads_seq(*b),
        Expr::Mul(a, b) => reads_seq(*a) + reads_seq(*b),
        Expr::Min(a, b) => reads_seq(*a) + reads_seq(*b),
        Expr::Max(a, b) => reads_seq(*a) + reads_seq(*b),
        Expr::Not(a) => reads_seq(*a),
        Expr::Neg(a) => reads_seq(*a),
        Expr::Players => Seq::empty(),
        Expr::Count(a) => reads_seq(*a),
        Expr::Any { set, bind: _, body } => reads_seq(*set) + reads_seq(*body),
        Expr::All { set, bind: _, body } => reads_seq(*set) + reads_seq(*body),
        Expr::Let { name: _, value, body } => reads_seq(*value) + reads_seq(*body),
        Expr::Bound(_) => Seq::empty(),
        Expr::EventCount { window: _, filter } => seq![Axis::EventLog] + filter_reads_seq(*filter),
    }
}

/// The axes the sub-expressions of an event filter read.
pub open spec fn filter_reads_seq(f: EventFilter) -> Seq<Axis>
    decreases f,
{
    match f {
        EventFilter::SpellCast { caster } => match caster {
            Some(e) => reads_seq(*e),
            None => Seq::empty(),
        },
    }
}

/// The sequence without repeats: each element kept at its first occurrence.
pub open spec fn dedup_seq(s: Seq<Axis>) -> Seq<Axis>
    decreases s.len(),
{
    if s.len() == 0 {
        Seq::empty()
    } else {
        let d = dedup_seq(s.drop_last());
        if d.contains(s.last()) {
            d
        } else {
            d.push(s.last())
        }
    }
}

/// The axes a modification writes. A copy effect writes every
/// characteristic a later layer reads.
pub open spec fn writes_seq(m: CEMod) -> Seq<Axis> {
    match m {
        CEMod::CopyOf(_) => seq![Axis::Copy, Axis::Type, Axis::Color, Axis::Abilities, Axis::PT],
        CEMod::OverrideTypes(_) => seq![Axis::Type],
        CEMod::AddType(_) => seq![Axis::Type],
        CEMod::AddSubtype(_) => seq![Axis::Type],
        CEMod::RemoveSubtype(_) => seq![Axis::Type],
        CEMod::SetBasicLandType(_) => seq![Axis::Type, Axis::Abilities],
        CEMod::AddBasicLandType(_) => seq![Axis::Type],
        CEMod::SetColors(_) => seq![Axis::Color],
        CEMod::AddColor(_) => seq![Axis::Color],
        CEMod::AddKeyword(_) => seq![Axis::Abilities],
        CEMod::RemoveKeyword(_) => seq![Axis::Abilities],
        CEMod::Uncounterable => seq![Axis::Abilities],
        CEMod::SetProtection(_) => seq![Axis::Abilities],
        CEMod::CantAttack => seq![Axis::Abilities],
        CEMod::CantBlock => seq![Axis::Abilities],
        CEMod::CantBeTargeted(_) => seq![Axis::Abilities],
        CEMod::PumpPT(_, _) => seq![Axis::PT],
        CEMod::SetPT(_, _) => seq![Axis::PT],
        CEMod::SetPower(_) => seq![Axis::PT],
        CEMod::SetToughness(_) => seq![Axis::PT],
        CEMod::AllowLoss(_) => seq![Axis::RuleMod],
        CEMod::MaxHandSize(_) => seq![Axis::RuleMod],
        CEMod::ExtraLandDrops(_) => seq![Axis::RuleMod],
        CEMod::SkipStep(_) => seq![Axis::RuleMod],
        CEMod::CastableFrom(_) => seq![Axis::CastPermission],
        CEMod::AltCost(_) => seq![Axis::CastPermission],
        CEMod::AnyColorMana => seq![Axis::CastPermission],
        CEMod::GrantFlash => seq![Axis::CastPermission],
        CEMod::OnResolveExile => seq![Axis::CastPermission],
        CEMod::CastingCostPlus(_) => seq![Axis::CostMod],
        CEMod::SpellsCostMore { .. } => seq![Axis::CostMod],
        CEMod::SpellsCostLess { .. } => seq![Axis::CostMod],
    }
}

fn push_axis(out: &mut Vec<Axis>, a: Axis)
    ensures
        final(out)@ == old(out)@ + seq![a],
{
    out.push(a);
    proof {
        assert(old(out)@.push(a) =~= old(out)@ + seq![a]);
    }
}

fn walk_reads(expr: &Expr, out: &mut Vec<Axis>)
    ensures
        final(out)@ == old(out)@ + reads_seq(*expr),
    decreases expr,
{
    let ghost start = out@;
    match expr {
        Expr::Num(_) | Expr::Bool(_) => {},
        Expr::TypeLit(_) | Expr::SupertypeLit(_) | Expr::SubtypeLit(_) | Expr::ColorLit(_)
        | Expr::KeywordLit(_) | Expr::NameLit(_) => {},
        Expr::Ctx(c) => match c {
            Ctx::Triggering(_) | Ctx::ThisCast(_) => push_axis(out, Axis::EventLog),
            _ => {},
        },
        Expr::GameCtx(_) => push_axis(out, Axis::GameCtx),
        Expr::Types(e) | Expr::Supertypes(e) | Expr::Subtypes(e) => {
            push_axis(out, Axis::Type);
            walk_reads(e, out);
        },
        Expr::Colors(e) => {
            push_axis(out, Axis::Color);
            walk_reads(e, out);
        },
        Expr::Keywords(e) => {
            push_axis(out, Axis::Abilities);
            walk_reads(e, out);
        },
        Expr::Power(e) | Expr::Toughness(e) => {
            push_axis(out, Axis::PT);
            walk_reads(e, out);
        },
        Expr::Attacking(e) | Expr::Unblocked(e) => {
            walk_reads(e, out);
        },
        Expr::Mv(e) => {
            push_axis(out, Axis::Copy);
            walk_reads(e, out);
        },
        Expr::Name(e) => {
            push_axis(out, Axis::Copy);
            walk_reads(e, out);
        },
        Expr::Controller(e) => {
            push_axis(out, Axis::Control);
            walk_reads(e, out);
        },
        Expr::Owner(e) => walk_reads(e, out),
        Expr::ZoneOf(e) => {
            push_axis(out, Axis::Zone);
            walk_reads(e, out);
        },
        Expr::ZoneLit(_) => {},
        Expr::ObjLit(_) => {},
        Expr::IsToken(e) => walk_reads(e, out),
        Expr::IsAbility(e) => walk_reads(e, out),
        Expr::AbilityIsTriggered(e) => walk_reads(e, out),
        Expr::CountersOn(e, _) => {
            push_axis(out, Axis::Counters);
            walk_reads(e, out);
        },
        Expr::Life(e) => {
            push_axis(out, Axis::Life);
            walk_reads(e, out);
        },
        Expr::HandSize(e) => {
            push_axis(out, Axis::HandSize);
            walk_reads(e, out);
        },
        Expr::Opponents(e) => walk_reads(e, out),
        Expr::Top { zone: _, n } => {
            push_axis(out, Axis::Zone);
            walk_reads(n, out);
        },
        Expr::AllObjects { zone: _, bind: _, filter } => {
            push_axis(out, Axis::Zone);
            walk_reads(filter, out);
        },
        Expr::And(a, b) | Expr::Or(a, b) | Expr::Eq(a, b) | Expr::Lt(a, b) | Expr::Le(a, b)
        | Expr::Gt(a, b) | Expr::Ge(a, b) | Expr::Contains(a, b) | Expr::Add(a, b) | Expr::Sub(
            a,
            b,
        ) | Expr::Mul(a, b) | Expr::Min(a, b) | Expr::Max(a, b) => {
            walk_reads(a, out);
            walk_reads(b, out);
        },
        Expr::Not(a) | Expr::Neg(a) => walk_reads(a, out),
        Expr::Players => {},
        Expr::Count(a) => walk_reads(a, out),
        Expr::Any { set, bind: _, body } | Expr::All { set, bind: _, body } => {
            walk_reads(set, out);
            walk_reads(body, out);
        },
        Expr::Let { name: _, value, body } => {
            walk_reads(value, out);
            walk_reads(body, out);
        },
        Expr::Bound(_) => {},
        Expr::EventCount { window: _, filter } => {
            push_axis(out, Axis::EventLog);
            walk_event_filter(filter, out);
        },
    }
    proof {
        assert(out@ =~= start + reads_seq(*expr));
    }
}

fn walk_event_filter(filter: &EventFilter, out: &mut Vec<Axis>)
    ensures
        final(out)@ == old(out)@ + filter_reads_seq(*filter),
    decreases filter,
{
    match filter {
        EventFilter::SpellCast { caster } => {
            match caster {
                Some(e) => walk_reads(e, out),
                None => {
                    proof {
                        assert(out@ =~= out@ + Seq::<Axis>::empty());
                    }
                },
            }
        },
    }
}

fn contains_axis(v: &Vec<Axis>, a: Axis) -> (r: bool)
    ensures
        r == v@.contains(a),
{
    for i in 0..v.len()
        invariant
            forall|k: int| 0 <= k < i ==> v@[k] != a,
    {
        if v[i] == a {
            return true;
        }
    }
    false
}

fn dedup(v: &mut Vec<Axis>)
    ensures
        final(v)@ == dedup_seq(old(v)@),
{
    let mut kept: Vec<Axis> = Vec::new();
    for i in 0..v.len()
        invariant
            kept@ == dedup_seq(v@.take(i as int)),
    {
        let a = v[i];
        if !contains_axis(&kept, a) {
            kept.push(a);
        }
        proof {
            assert(v@.take(i + 1).drop_last() =~= v@.take(i as int));
        }
    }
    proof {
        assert(v@.take(v@.len() as int) =~= v@);
    }
    *v = kept;
}

/// The axes an expression reads, each once, in the order the walk first
/// meets them.
pub fn deps_of(expr: &Expr) -> (r: CeDeps)
    ensures
        r.reads@ == dedup_seq(reads_seq(*expr)),
        r.writes@.len() == 0,
{
    let mut reads: Vec<Axis> = Vec::new();
    walk_reads(expr, &mut reads);
    proof {
        assert(Seq::<Axis>::empty() + reads_seq(*expr) =~= reads_seq(*expr));
    }
    dedup(&mut reads);
    CeDeps { reads, writes: Vec::new() }
}

/// The axes a modification writes.
pub fn writes_of(cemod: &CEMod) -> (r: Vec<Axis>)
    ensures
        r@ == writes_seq(*cemod),
{
    let r = match cemod {
        CEMod::CopyOf(_) => vec![Axis::Copy, Axis::Type, Axis::Color, Axis::Abilities, Axis::PT],
        CEMod::OverrideTypes(_) | CEMod::AddType(_) | CEMod::AddSubtype(_) | CEMod::RemoveSubtype(
            _,
        ) => vec![Axis::Type],
        CEMod::SetBasicLandType(_) => vec![Axis::Type, Axis::Abilities],
        CEMod::AddBasicLandType(_) => vec![Axis::Type],
        CEMod::SetColors(_) | CEMod::AddColor(_) => vec![Axis::Color],
        CEMod::AddKeyword(_) | CEMod::RemoveKeyword(_) | CEMod::Uncounterable
        | CEMod::SetProtection(_) | CEMod::CantAttack | CEMod::CantBlock | CEMod::CantBeTargeted(
            _,
        ) => vec![Axis::Abilities],
        CEMod::PumpPT(_, _) | CEMod::SetPT(_, _) | CEMod::SetPower(_) | CEMod::SetToughness(_) => vec![
            Axis::PT,
        ],
        CEMod::AllowLoss(_) | CEMod::MaxHandSize(_) | CEMod::ExtraLandDrops(_) | CEMod::SkipStep(
            _,
        ) => vec![Axis::RuleMod],
        CEMod::CastableFrom(_) | CEMod::AltCost(_) | CEMod::AnyColorMana | CEMod::GrantFlash
        | CEMod::OnResolveExile => vec![Axis::CastPermission],
        CEMod::CastingCostPlus(_) | CEMod::SpellsCostMore { .. } | CEMod::SpellsCostLess { .. } => vec![
            Axis::CostMod,
        ],
    };
    proof {
        assert(r@ =~= writes_seq(*cemod));
    }
    r
}

// ── Value helpers ────────────────────────────────────────────────────────────

/// The engine's characteristic write category of an axis, if it has one.
pub open spec fn spec_axis_to_cewrites(axis: Axis) -> Option<CeWrites> {
    match axis {
        Axis::Type => Some(CeWrites::CardTypes),
        Axis::Color => Some(CeWrites::Color),
        Axis::Abilities => Some(CeWrites::Abilities),
        Axis::PT => Some(CeWrites::PowerToughness),
        _ => None,
    }
}

pub fn axis_to_cewrites(axis: Axis) -> (r: Option<CeWrites>)
    ensures
        r == spec_axis_to_cewrites(axis),
{
    match axis {
        Axis::Type => Some(CeWrites::CardTypes),
        Axis::Color => Some(CeWrites::Color),
        Axis::Abilities => Some(CeWrites::Abilities),
        Axis::PT => Some(CeWrites::PowerToughness),
        _ => None,
    }
}

/// The zone of a zone kind; the command zone, which has no model, maps to
/// the library.
pub open spec fn spec_zone_id_from_kind(k: ZoneKindSel) -> ZoneId {
    match k {
        ZoneKindSel::Library => ZoneId::Library,
        ZoneKindSel::Hand => ZoneId::Hand,
        ZoneKindSel::Battlefield => ZoneId::Battlefield,
        ZoneKindSel::Graveyard => ZoneId::Graveyard,
        ZoneKindSel::Exile => ZoneId::Exile,
        ZoneKindSel::Stack => ZoneId::Stack,
        ZoneKindSel::Command => ZoneId::Library,
    }
}

pub fn zone_id_from_kind(k: ZoneKindSel) -> (r: ZoneId)
    ensures
        r == spec_zone_id_from_kind(k),
{
    match k {
        ZoneKindSel::Library => ZoneId::Library,
        ZoneKindSel::Hand => ZoneId::Hand,
        ZoneKindSel::Battlefield => ZoneId::Battlefield,
        ZoneKindSel::Graveyard => ZoneId::Graveyard,
        ZoneKindSel::Exile => ZoneId::Exile,
        ZoneKindSel::Stack => ZoneId::Stack,
        ZoneKindSel::Command => ZoneId::Library,
    }
}

/// An object value's id; the unset id for anything else.
pub fn expect_obj(v: Value) -> (r: ObjId)
    ensures
        r == (match v {
            Value::Obj(o) => o,
            _ => ObjId(0),
        }),
{
    if let Value::Obj(o) = v {
        o
    } else {
        ObjId(0)
    }
}

/// The object ids of a single object or an object set; none for anything
/// else.
pub fn obj_ids_of(v: Value) -> (r: Vec<ObjId>)
    ensures
        r@ == (match v {
            Value::Obj(id) => seq![id],
            Value::ObjSet(ids) => ids@,
            _ => Seq::<ObjId>::empty(),
        }),
{
    match v {
        Value::Obj(id) => {
            let r = vec![id];
            proof {
                assert(r@ =~= seq![id]);
            }
            r
        },
        Value::ObjSet(ids) => ids,
        _ => Vec::new(),
    }
}

/// A player value's player; `Us` for anything else.
pub fn expect_player(v: Value) -> (r: PlayerId)
    ensures
        r == (match v {
            Value::Player(p) => p,
            _ => PlayerId::Us,
        }),
{
    if let Value::Player(p) = v {
        p
    } else {
        PlayerId::Us
    }
}

/// A number value; booleans count as 1 and 0, anything else as 0.
pub fn expect_num(v: Value) -> (r: i64)
    ensures
        r == (match v {
            Value::Num(n) => n,
            Value::Bool(b) => if b { 1i64 } else { 0i64 },
            _ => 0i64,
        }),
{
    match v {
        Value::Num(n) => n,
        Value::Bool(true) => 1,
        Value::Bool(false) => 0,
        _ => 0,
    }
}

/// A boolean value; a number is true when nonzero, anything else false.
pub fn expect_bool(v: Value) -> (r: bool)
    ensures
        r == (match v {
            Value::Bool(b) => b,
            Value::Num(n) => n != 0,
            _ => false,
        }),
{
    match v {
        Value::Bool(b) => b,
        Value::Num(n) => n != 0,
        _ => false,
    }
}

/// Equality of two scalar values of the same kind; sets and values of
/// different kinds are never equal.
pub open spec fn spec_values_eq(a: Value, b: Value) -> bool {
    match (a, b) {
        (Value::Num(x), Value::Num(y)) => x == y,
        (Value::Bool(x), Value::Bool(y)) => x == y,
        (Value::Obj(x), Value::Obj(y)) => x == y,
        (Value::Player(x), Value::Player(y)) => x == y,
        (Value::Zone(x), Value::Zone(y)) => x == y,
        (Value::Type(x), Value::Type(y)) => x == y,
        (Value::Supertype(x), Value::Supertype(y)) => x == y,
        (Value::Color(x), Value::Color(y)) => x == y,
        (Value::Keyword(x), Value::Keyword(y)) => x == y,
        (Value::Counter(x), Value::Counter(y)) => x == y,
        (Value::Name(x), Value::Name(y)) => x@ == y@,
        (Value::Subtype(x), Value::Subtype(y)) => x@ == y@,
        _ => false,
    }
}

pub fn values_eq(a: &Value, b: &Value) -> (r: bool)
    ensures
        r == spec_values_eq(*a, *b),
{
    match (a, b) {
        (Value::Num(x), Value::Num(y)) => *x == *y,
        (Value::Bool(x), Value::Bool(y)) => *x == *y,
        (Value::Obj(x), Value::Obj(y)) => *x == *y,
        (Value::Player(x), Value::Player(y)) => *x == *y,
        (Value::Zone(x), Value::Zone(y)) => *x == *y,
        (Value::Type(x), Value::Type(y)) => *x == *y,
        (Value::Supertype(x), Value::Supertype(y)) => *x == *y,
        (Value::Color(x), Value::Color(y)) => *x == *y,
        (Value::Keyword(x), Value::Keyword(y)) => *x == *y,
        (Value::Counter(x), Value::Counter(y)) => *x == *y,
        (Value::Name(x), Value::Name(y)) => text_eq(x.as_str(), y.as_str()),
        (Value::Subtype(x), Value::Subtype(y)) => text_eq(x.as_str(), y.as_str()),
        _ => false,
    }
}

fn has_type(s: &Vec<CardType>, x: CardType) -> (r: bool)
    ensures
        r == s@.contains(x),
{
    for i in 0..s.len()
        invariant
            forall|k: int| 0 <= k < i ==> s@[k] != x,
    {
        if s[i] == x {
            return true;
        }
    }
    false
}

fn has_color(s: &Vec<Color>, x: Color) -> (r: bool)
    ensures
        r == s@.contains(x),
{
    for i in 0..s.len()
        invariant
            forall|k: int| 0 <= k < i ==> s@[k] != x,
    {
        if s[i] == x {
            return true;
        }
    }
    false
}

fn has_keyword(s: &Vec<Keyword>, x: Keyword) -> (r: bool)
    ensures
        r == s@.contains(x),
{
    for i in 0..s.len()
        invariant
            forall|k: int| 0 <= k < i ==> s@[k] != x,
    {
        if s[i] == x {
            return true;
        }
    }
    false
}

fn has_supertype(s: &Vec<Supertype>, x: Supertype) -> (r: bool)
    ensures
        r == s@.contains(x),
{
    for i in 0..s.len()
        invariant
            forall|k: int| 0 <= k < i ==> s@[k] != x,
    {
        if s[i] == x {
            return true;
        }
    }
    false
}

fn has_obj(s: &Vec<ObjId>, x: ObjId) -> (r: bool)
    ensures
        r == s@.contains(x),
{
    for i in 0..s.len()
        invariant
            forall|k: int| 0 <= k < i ==> s@[k] != x,
    {
        if s[i] == x {
            return true;
        }
    }
    false
}

fn has_player(s: &Vec<PlayerId>, x: PlayerId) -> (r: bool)
    ensures
        r == s@.contains(x),
{
    for i in 0..s.len()
        invariant
            forall|k: int| 0 <= k < i ==> s@[k] != x,
    {
        if s[i] == x {
            return true;
        }
    }
    false
}

fn has_text(s: &Vec<String>, x: &String) -> (r: bool)
    ensures
        r == exists|k: int| 0 <= k < s@.len() && s@[k]@ == x@,
{
    for i in 0..s.len()
        invariant
            forall|k: int| 0 <= k < i ==> s@[k]@ != x@,
    {
        if text_eq(s[i].as_str(), x.as_str()) {
            return true;
        }
    }
    false
}

/// Membership of a scalar in a set of the matching kind; subtypes compare
/// as text. Any other pair is not a member.
pub open spec fn spec_contains(needle: Value, set: Value) -> bool {
    match (needle, set) {
        (Value::Type(t), Value::TypeSet(s)) => s@.contains(t),
        (Value::Color(c), Value::ColorSet(s)) => s@.contains(c),
        (Value::Keyword(k), Value::KeywordSet(s)) => s@.contains(k),
        (Value::Subtype(t), Value::SubtypeSet(s)) => exists|k: int|
            0 <= k < s@.len() && s@[k]@ == t@,
        (Value::Supertype(st), Value::SupertypeSet(s)) => s@.contains(st),
        (Value::Obj(o), Value::ObjSet(s)) => s@.contains(o),
        (Value::Player(p), Value::PlayerSet(s)) => s@.contains(p),
        _ => false,
    }
}

pub fn contains(needle: &Value, set: &Value) -> (r: bool)
    ensures
        r == spec_contains(*needle, *set),
{
    match (needle, set) {
        (Value::Type(t), Value::TypeSet(s)) => has_type(s, *t),
        (Value::Color(c), Value::ColorSet(s)) => has_color(s, *c),
        (Value::Keyword(k), Value::KeywordSet(s)) => has_keyword(s, *k),
        (Value::Subtype(t), Value::SubtypeSet(s)) => has_text(s, t),
        (Value::Supertype(st), Value::SupertypeSet(s)) => has_supertype(s, *st),
        (Value::Obj(o), Value::ObjSet(s)) => has_obj(s, *o),
        (Value::Player(p), Value::PlayerSet(s)) => has_player(s, *p),
        _ => false,
    }
}

/// The letter of a color in mana spec strings.
pub open spec fn spec_color_char(c: Color) -> char {
    match c {
        Color::White => 'W',
        Color::Blue => 'U',
        Color::Black => 'B',
        Color::Red => 'R',
        Color::Green => 'G',
    }
}

pub fn color_char(c: Color) -> (r: char)
    ensures
        r == spec_color_char(c),
{
    match c {
        Color::White => 'W',
        Color::Blue => 'U',
        Color::Black => 'B',
        Color::Red => 'R',
        Color::Green => 'G',
    }
}

// ── Mana shortfall ───────────────────────────────────────────────────────────

pub open spec fn max0(x: int) -> int {
    if x > 0 {
        x
    } else {
        0
    }
}

pub open spec fn min2(a: int, b: int) -> int {
    if a <= b {
        a
    } else {
        b
    }
}

/// Pool mana left for the generic part once every pip took what it could
/// from its own counter.
pub open spec fn left_for_generic(pool: ManaPool, cost: ManaCost) -> int {
    pool.total - (min2(cost.w as int, pool.w as int) + min2(cost.u as int, pool.u as int) + min2(
        cost.b as int,
        pool.b as int,
    ) + min2(cost.r as int, pool.r as int) + min2(cost.g as int, pool.g as int) + min2(
        cost.c as int,
        pool.c as int,
    ))
}

/// What of `cost` the pool cannot pay: each pip beyond its counter, and the
/// generic part beyond what is left of the total.
pub open spec fn spec_remaining_mana(pool: ManaPool, cost: ManaCost) -> ManaCost {
    ManaCost {
        w: max0(cost.w - pool.w) as i32,
        u: max0(cost.u - pool.u) as i32,
        b: max0(cost.b - pool.b) as i32,
        r: max0(cost.r - pool.r) as i32,
        g: max0(cost.g - pool.g) as i32,
        c: max0(cost.c - pool.c) as i32,
        generic: max0(cost.generic - left_for_generic(pool, cost)) as i32,
    }
}

/// Every intermediate value of `remaining_mana` stays in `i32`.
pub open spec fn remaining_fits(pool: ManaPool, cost: ManaCost) -> bool {
    let m = seq![
        min2(cost.w as int, pool.w as int),
        min2(cost.u as int, pool.u as int),
        min2(cost.b as int, pool.b as int),
        min2(cost.r as int, pool.r as int),
        min2(cost.g as int, pool.g as int),
        min2(cost.c as int, pool.c as int),
    ];
    &&& crate::mana::fits_i32(cost.w - pool.w)
    &&& crate::mana::fits_i32(cost.u - pool.u)
    &&& crate::mana::fits_i32(cost.b - pool.b)
    &&& crate::mana::fits_i32(cost.r - pool.r)
    &&& crate::mana::fits_i32(cost.g - pool.g)
    &&& crate::mana::fits_i32(cost.c - pool.c)
    &&& crate::mana::fits_i32(m[0] + m[1])
    &&& crate::mana::fits_i32(m[0] + m[1] + m[2])
    &&& crate::mana::fits_i32(m[0] + m[1] + m[2] + m[3])
    &&& crate::mana::fits_i32(m[0] + m[1] + m[2] + m[3] + m[4])
    &&& crate::mana::fits_i32(m[0] + m[1] + m[2] + m[3] + m[4] + m[5])
    &&& crate::mana::fits_i32(left_for_generic(pool, cost))
    &&& crate::mana::fits_i32(cost.generic - left_for_generic(pool, cost))
}

fn min_i32(a: i32, b: i32) -> (r: i32)
    ensures
        r == min2(a as int, b as int),
{
    if a <= b {
        a
    } else {
        b
    }
}

fn max0_i32(x: i32) -> (r: i32)
    ensures
        r == max0(x as int),
{
    if x > 0 {
        x
    } else {
        0
    }
}

/// The part of `cost` that `pool` cannot pay.
pub fn remaining_mana(pool: &ManaPool, cost: &ManaCost) -> (r: ManaCost)
    requires
        remaining_fits(*pool, *cost),
    ensures
        r == spec_remaining_mana(*pool, *cost),
{
    let w = max0_i32(cost.w - pool.w);
    let u = max0_i32(cost.u - pool.u);
    let b = max0_i32(cost.b - pool.b);
    let r = max0_i32(cost.r - pool.r);
    let g = max0_i32(cost.g - pool.g);
    let c = max0_i32(cost.c - pool.c);
    let pool_after_specifics = pool.total - (min_i32(cost.w, pool.w) + min_i32(cost.u, pool.u)
        + min_i32(cost.b, pool.b) + min_i32(cost.r, pool.r) + min_i32(cost.g, pool.g) + min_i32(
        cost.c,
        pool.c,
    ));
    let generic = max0_i32(cost.generic - pool_after_specifics);
    ManaCost { w, u, b, r, g, c, generic }
}

/// A cost the pool can pay leaves nothing remaining.
pub proof fn lemma_payable_leaves_nothing(pool: ManaPool, cost: ManaCost)
    requires
        crate::mana::can_pay_spec(pool, cost),
    ensures
        spec_remaining_mana(pool, cost) == (ManaCost { w: 0, u: 0, b: 0, r: 0, g: 0, c: 0, generic: 0 }),
{
}

// ── Laws of the analysis ─────────────────────────────────────────────────────

proof fn lemma_dedup(s: Seq<Axis>)
    ensures
        dedup_seq(s).no_duplicates(),
        forall|a: Axis| dedup_seq(s).contains(a) <==> s.contains(a),
    decreases s.len(),
{
    if s.len() > 0 {
        let init = s.drop_last();
        lemma_dedup(init);
        let d = dedup_seq(init);
        assert forall|a: Axis| dedup_seq(s).contains(a) <==> s.contains(a) by {
            if s.contains(a) && a != s.last() {
                let k = choose|k: int| 0 <= k < s.len() && s[k] == a;
                assert(init[k] == a);
            }
            if init.contains(a) {
                let k = choose|k: int| 0 <= k < init.len() && init[k] == a;
                assert(s[k] == a);
            }
            if d.contains(s.last()) {
            } else {
                if d.push(s.last()).contains(a) {
                    let k = choose|k: int| 0 <= k < d.len() + 1 && d.push(s.last())[k] == a;
                    if k < d.len() {
                        assert(d[k] == a);
                    }
                }
                if d.contains(a) {
                    let k = choose|k: int| 0 <= k < d.len() && d[k] == a;
                    assert(d.push(s.last())[k] == a);
                }
                assert(d.push(s.last())[d.len() as int] == s.last());
            }
            assert(s[s.len() - 1] == s.last());
        }
    }
}

/// What `deps_of` reports: every axis the expression reads, and nothing
/// else, with no axis twice.
pub proof fn lemma_deps_exact(e: Expr)
    ensures
        dedup_seq(reads_seq(e)).no_duplicates(),
        forall|a: Axis| dedup_seq(reads_seq(e)).contains(a) <==> reads_seq(e).contains(a),
{
    lemma_dedup(reads_seq(e));
}

/// Nothing of a cost remains exactly when the pool can pay it.
pub proof fn lemma_nothing_remains_iff_payable(pool: ManaPool, cost: ManaCost)
    requires
        remaining_fits(pool, cost),
    ensures
        (spec_remaining_mana(pool, cost) == (ManaCost { w: 0, u: 0, b: 0, r: 0, g: 0, c: 0, generic: 0 }))
            <==> crate::mana::can_pay_spec(pool, cost),
{
}

/// The two operands of a boolean, comparison or arithmetic combinator.
pub open spec fn binary_operands(e: Expr) -> Option<(Expr, Expr)> {
    match e {
        Expr::And(a, b) => Some((*a, *b)),
        Expr::Or(a, b) => Some((*a, *b)),
        Expr::Eq(a, b) => Some((*a, *b)),
        Expr::Lt(a, b) => Some((*a, *b)),
        Expr::Le(a, b) => Some((*a, *b)),
        Expr::Gt(a, b) => Some((*a, *b)),
        Expr::Ge(a, b) => Some((*a, *b)),
        Expr::Contains(a, b) => Some((*a, *b)),
        Expr::Add(a, b) => Some((*a, *b)),
        Expr::Sub(a, b) => Some((*a, *b)),
        Expr::Mul(a, b) => Some((*a, *b)),
        Expr::Min(a, b) => Some((*a, *b)),
        Expr::Max(a, b) => Some((*a, *b)),
        _ => None,
    }
}

proof fn lemma_concat_contains(s: Seq<Axis>, t: Seq<Axis>, x: Axis)
    ensures
        (s + t).contains(x) == (s.contains(x) || t.contains(x)),
{
    if s.contains(x) {
        let k = choose|k: int| 0 <= k < s.len() && s[k] == x;
        assert((s + t)[k] == x);
    }
    if t.contains(x) {
        let k = choose|k: int| 0 <= k < t.len() && t[k] == x;
        assert((s + t)[s.len() + k] == x);
    }
    if (s + t).contains(x) {
        let k = choose|k: int| 0 <= k < (s + t).len() && (s + t)[k] == x;
        if k < s.len() {
            assert(s[k] == x);
        } else {
            assert(t[k - s.len()] == x);
        }
    }
}

/// The reads `deps_of` reports for a combinator of two expressions are the
/// union of the reads reported for each.
pub proof fn lemma_deps_of_pair(e: Expr, x: Axis)
    requires
        binary_operands(e) is Some,
    ensures
        ({
            let (a, b) = binary_operands(e)->0;
            dedup_seq(reads_seq(e)).contains(x) == (dedup_seq(reads_seq(a)).contains(x)
                || dedup_seq(reads_seq(b)).contains(x))
        }),
{
    let (a, b) = binary_operands(e)->0;
    assert(reads_seq(e) == reads_seq(a) + reads_seq(b));
    lemma_dedup(reads_seq(e));
    lemma_dedup(reads_seq(a));
    lemma_dedup(reads_seq(b));
    lemma_concat_contains(reads_seq(a), reads_seq(b), x);
}


/// Reading a binding gives back what was written last: after binding
/// `name` to `v`, `name` reads `v` and every other name reads what it read
/// before; a name never bound reads nothing.
pub proof fn lemma_binding_read_after_write(
    bs: Seq<(&'static str, Value)>,
    name: &'static str,
    v: Value,
    other: Seq<char>,
)
    ensures
        last_binding(bs.push((name, v)), name@) == Some(v),
        other != name@ ==> last_binding(bs.push((name, v)), other) == last_binding(bs, other),
        (forall|i: int| 0 <= i < bs.len() ==> (#[trigger] bs[i]).0@ != other) ==> last_binding(bs, other) is None,
    decreases bs.len(),
{
    assert(bs.push((name, v)).drop_last() =~= bs);
    if bs.len() > 0 {
        lemma_binding_read_after_write(bs.drop_last(), name, v, other);
        if forall|i: int| 0 <= i < bs.len() ==> (#[trigger] bs[i]).0@ != other {
            assert(bs.last().0@ != other);
            assert forall|i: int| 0 <= i < bs.drop_last().len() implies (#[trigger] bs.drop_last()[i]).0@
                != other by {
                assert(bs.drop_last()[i] == bs[i]);
            }
        }
    }
}

/// Value equality is symmetric, and each color has its own letter.
pub proof fn lemma_values_eq_symmetric(a: Value, b: Value, c1: Color, c2: Color)
    ensures
        spec_values_eq(a, b) == spec_values_eq(b, a),
        spec_color_char(c1) == spec_color_char(c2) ==> c1 == c2,
{
}

} // verus!
