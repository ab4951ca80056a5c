//! Matching game events against trigger specifications, and logged events
//! against event filters.
//!
//! A pattern either rejects an event or accepts it with the environment
//! extended by what it binds (`triggered_obj`, `triggered_actor`, ...). The
//! filters in a pattern are decided by a filter check that the caller
//! supplies: it answers whether a filter holds of a subject in an
//! environment, and must answer the same for environments with the same
//! contents.
use vstd::prelude::*;

use super::ability::{EventPattern, StepScope, TriggerSpec};
use super::executor::{spec_zone_id_from_kind, zone_id_from_kind, BindEnv};
use super::event_log::LoggedEvent;
use super::expr::{EventFilter, Expr, Filter, Value, ZoneKindSel};
use crate::game::GameEvent;
use crate::types::{Color, ObjId, PlayerId, ZoneId};

verus! {

/// The contents of a binding environment.
pub struct EnvView {
    pub source: Option<ObjId>,
    pub controller: Option<PlayerId>,
    pub subj: Option<Value>,
    pub bindings: Seq<(&'static str, Value)>,
    pub chosen_color: Option<Color>,
}

pub open spec fn env_view(e: BindEnv) -> EnvView {
    EnvView {
        source: e.source,
        controller: e.controller,
        subj: e.subj,
        bindings: e.bindings@,
        chosen_color: e.chosen_color,
    }
}

/// `ev` with `name` bound to `v`.
pub open spec fn bind(ev: EnvView, name: &'static str, v: Value) -> EnvView {
    EnvView { bindings: ev.bindings.push((name, v)), ..ev }
}

/// `check` can be asked about any filter, subject and environment, and
/// gives the same answer for environments with the same contents.
pub open spec fn sound_check<F: Fn(&Filter, Value, &BindEnv) -> bool>(check: F) -> bool {
    &&& forall|fl: &Filter, v: Value, e: &BindEnv| #[trigger] check.requires((fl, v, e))
    &&& forall|fl: &Filter, v: Value, e1: &BindEnv, e2: &BindEnv, r1: bool, r2: bool|
        #![trigger check.ensures((fl, v, e1), r1), check.ensures((fl, v, e2), r2)]
        env_view(*e1) == env_view(*e2) && check.ensures((fl, v, e1), r1) && check.ensures(
            (fl, v, e2),
            r2,
        ) ==> r1 == r2
}

/// `is_creature` can be asked about any object and answers the same each
/// time.
pub open spec fn sound_creature<C: Fn(ObjId) -> bool>(is_creature: C) -> bool {
    &&& forall|id: ObjId| #[trigger] is_creature.requires((id,))
    &&& forall|id: ObjId, r1: bool, r2: bool|
        #![trigger is_creature.ensures((id,), r1), is_creature.ensures((id,), r2)]
        is_creature.ensures((id,), r1) && is_creature.ensures((id,), r2) ==> r1 == r2
}

/// `check` says that filter `fl` holds of subject `v` in an environment
/// with contents `ev`.
pub open spec fn holds<F: Fn(&Filter, Value, &BindEnv) -> bool>(check: F, fl: Filter, v: Value, ev: EnvView) -> bool {
    exists|e: &BindEnv| env_view(*e) == ev && #[trigger] check.ensures((&fl, v, e), true)
}

/// `is_creature` says that `id` is a creature.
pub open spec fn creature<C: Fn(ObjId) -> bool>(is_creature: C, id: ObjId) -> bool {
    is_creature.ensures((id,), true)
}

/// What `p` makes of `event` in an environment with contents `ev`: `None`
/// when it does not match, else the contents of the environment after.
pub open spec fn pattern_match<F: Fn(&Filter, Value, &BindEnv) -> bool, C: Fn(ObjId) -> bool>(
    p: EventPattern,
    event: GameEvent,
    ev: EnvView,
    check: F,
    is_creature: C,
) -> Option<EnvView>
    decreases p, 0int,
{
    match p {
        EventPattern::Any => Some(ev),
        EventPattern::EntersZone { obj_filter, zone_kind } => match event {
            GameEvent::ZoneChange { id, to, .. } => if spec_zone_id_from_kind(zone_kind) == to
                && holds(check, obj_filter, Value::Obj(id), ev) {
                Some(bind(ev, "triggered_obj", Value::Obj(id)))
            } else {
                None
            },
            _ => None,
        },
        EventPattern::LeavesZone { obj_filter, zone_kind } => match event {
            GameEvent::ZoneChange { id, from, .. } => if spec_zone_id_from_kind(zone_kind) == from
                && holds(check, obj_filter, Value::Obj(id), ev) {
                Some(bind(ev, "triggered_obj", Value::Obj(id)))
            } else {
                None
            },
            _ => None,
        },
        EventPattern::ZoneChange { obj_filter, from, to, actor_filter } => match event {
            GameEvent::ZoneChange { id, from: ef, to: et, actor, .. } => if spec_zone_id_from_kind(
                from,
            ) == ef && spec_zone_id_from_kind(to) == et && holds(check, obj_filter, Value::Obj(id), ev)
                && match actor_filter {
                Some(af) => holds(check, af, Value::Player(actor), ev),
                None => true,
            } {
                Some(
                    bind(
                        bind(ev, "triggered_obj", Value::Obj(id)),
                        "triggered_actor",
                        Value::Player(actor),
                    ),
                )
            } else {
                None
            },
            _ => None,
        },
        EventPattern::Dies { obj_filter } => match event {
            GameEvent::ZoneChange { id, from, to, .. } => if from == ZoneId::Battlefield && to
                == ZoneId::Graveyard && creature(is_creature, id) && holds(
                check,
                obj_filter,
                Value::Obj(id),
                ev,
            ) {
                Some(bind(ev, "triggered_obj", Value::Obj(id)))
            } else {
                None
            },
            _ => None,
        },
        EventPattern::SpellCast { spell_filter } => match event {
            GameEvent::SpellCast { card_id, caster, mana_spent } => if holds(
                check,
                spell_filter,
                Value::Obj(card_id),
                ev,
            ) {
                Some(
                    bind(
                        bind(
                            bind(ev, "triggered_obj", Value::Obj(card_id)),
                            "triggered_actor",
                            Value::Player(caster),
                        ),
                        "triggered_mana_spent",
                        Value::Bool(mana_spent),
                    ),
                )
            } else {
                None
            },
            _ => None,
        },
        EventPattern::Draw { who } => match event {
            GameEvent::Draw { controller, is_natural, .. } => if holds(
                check,
                who,
                Value::Player(controller),
                ev,
            ) {
                Some(
                    bind(
                        bind(ev, "triggered_actor", Value::Player(controller)),
                        "triggered_is_natural",
                        Value::Bool(is_natural),
                    ),
                )
            } else {
                None
            },
            _ => None,
        },
        EventPattern::Attacks { attacker_filter } => match event {
            GameEvent::CreatureAttacked { attacker_id, .. } => if holds(
                check,
                attacker_filter,
                Value::Obj(attacker_id),
                ev,
            ) {
                Some(bind(ev, "triggered_obj", Value::Obj(attacker_id)))
            } else {
                None
            },
            _ => None,
        },
        EventPattern::And(ps) => all_match(ps@, 0, event, ev, check, is_creature),
        EventPattern::LandPlayed { .. } => None,
        EventPattern::DamageDealt { .. } => None,
        EventPattern::Blocks { .. } => None,
    }
}

/// The patterns of `ps` from position `i` on, matched in turn, each in the
/// environment the one before left.
pub open spec fn all_match<F: Fn(&Filter, Value, &BindEnv) -> bool, C: Fn(ObjId) -> bool>(
    ps: Seq<EventPattern>,
    i: int,
    event: GameEvent,
    ev: EnvView,
    check: F,
    is_creature: C,
) -> Option<EnvView>
    decreases ps, ps.len() - i,
{
    if i < 0 || i >= ps.len() {
        Some(ev)
    } else {
        match pattern_match(ps[i], event, ev, check, is_creature) {
            Some(ev2) => all_match(ps, i + 1, event, ev2, check, is_creature),
            None => None,
        }
    }
}

/// `cond` can be asked about any condition and environment, and gives the
/// same answer for environments with the same contents.
pub open spec fn sound_cond<K: Fn(&Expr, &BindEnv) -> bool>(cond: K) -> bool {
    &&& forall|c: &Expr, e: &BindEnv| #[trigger] cond.requires((c, e))
    &&& forall|c: &Expr, e1: &BindEnv, e2: &BindEnv, r1: bool, r2: bool|
        #![trigger cond.ensures((c, e1), r1), cond.ensures((c, e2), r2)]
        env_view(*e1) == env_view(*e2) && cond.ensures((c, e1), r1) && cond.ensures((c, e2), r2)
            ==> r1 == r2
}

/// `cond` says that condition `c` holds in an environment with contents
/// `ev`.
pub open spec fn cond_holds<K: Fn(&Expr, &BindEnv) -> bool>(cond: K, c: Expr, ev: EnvView) -> bool {
    exists|e: &BindEnv| env_view(*e) == ev && #[trigger] cond.ensures((&c, e), true)
}

/// The environment a trigger starts from: its source and controller.
pub open spec fn trigger_env(source: ObjId, controller: PlayerId) -> EnvView {
    EnvView {
        source: Some(source),
        controller: Some(controller),
        subj: None,
        bindings: Seq::empty(),
        chosen_color: None,
    }
}

/// What trigger `t` of a source controlled by `controller` makes of
/// `event`: `None` when it does not fire, else the contents of the
/// environment it fires with.
pub open spec fn trigger_match<
    F: Fn(&Filter, Value, &BindEnv) -> bool,
    K: Fn(&Expr, &BindEnv) -> bool,
    C: Fn(ObjId) -> bool,
>(
    t: TriggerSpec,
    event: GameEvent,
    source: ObjId,
    controller: PlayerId,
    check: F,
    cond: K,
    is_creature: C,
) -> Option<EnvView> {
    let base = trigger_env(source, controller);
    match t {
        TriggerSpec::When { pattern, condition } => match pattern_match(
            pattern,
            event,
            base,
            check,
            is_creature,
        ) {
            Some(ev) => match condition {
                Some(c) => if cond_holds(cond, c, ev) {
                    Some(ev)
                } else {
                    None
                },
                None => Some(ev),
            },
            None => None,
        },
        TriggerSpec::AtStep { step, who } => match event {
            GameEvent::EnteredStep { step: s, active_player } => if s == step && match who {
                StepScope::You => active_player == controller,
                StepScope::EachOpponent => active_player != controller,
                StepScope::ActivePlayer => true,
                StepScope::EachPlayer => true,
            } {
                Some(base)
            } else {
                None
            },
            _ => None,
        },
    }
}

/// `player_of` can be asked about any expression and environment, and
/// gives the same answer for environments with the same contents.
pub open spec fn sound_player_of<P: Fn(&Expr, &BindEnv) -> Option<PlayerId>>(player_of: P) -> bool {
    &&& forall|x: &Expr, e: &BindEnv| #[trigger] player_of.requires((x, e))
    &&& forall|x: &Expr, e1: &BindEnv, e2: &BindEnv, r1: Option<PlayerId>, r2: Option<PlayerId>|
        #![trigger player_of.ensures((x, e1), r1), player_of.ensures((x, e2), r2)]
        env_view(*e1) == env_view(*e2) && player_of.ensures((x, e1), r1) && player_of.ensures(
            (x, e2),
            r2,
        ) ==> r1 == r2
}

/// `player_of` says that `x` evaluates to player `p` in an environment with
/// contents `ev`.
pub open spec fn is_player<P: Fn(&Expr, &BindEnv) -> Option<PlayerId>>(player_of: P, x: Expr, ev: EnvView, p: PlayerId) -> bool {
    exists|e: &BindEnv| env_view(*e) == ev && #[trigger] player_of.ensures((&x, e), Some(p))
}

/// A logged event satisfies an event filter: a spell cast, by the given
/// player when the filter names one.
pub open spec fn event_filter_match<P: Fn(&Expr, &BindEnv) -> Option<PlayerId>>(
    filter: EventFilter,
    logged: LoggedEvent,
    ev: EnvView,
    player_of: P,
) -> bool {
    match filter {
        EventFilter::SpellCast { caster } => match logged.event {
            GameEvent::SpellCast { caster: c, .. } => match caster {
                None => true,
                Some(x) => is_player(player_of, *x, ev, c),
            },
            _ => false,
        },
    }
}

/// `b` is `a` with bindings added after its own.
pub open spec fn extends(a: EnvView, b: EnvView) -> bool {
    &&& b.source == a.source
    &&& b.controller == a.controller
    &&& b.subj == a.subj
    &&& b.chosen_color == a.chosen_color
    &&& a.bindings.len() <= b.bindings.len()
    &&& b.bindings.subrange(0, a.bindings.len() as int) == a.bindings
}

proof fn lemma_extends_trans(a: EnvView, b: EnvView, c: EnvView)
    requires
        extends(a, b),
        extends(b, c),
    ensures
        extends(a, c),
{
    assert(c.bindings.subrange(0, a.bindings.len() as int) =~= c.bindings.subrange(
        0,
        b.bindings.len() as int,
    ).subrange(0, a.bindings.len() as int));
}

proof fn lemma_bind_extends(a: EnvView, name: &'static str, v: Value)
    ensures
        extends(a, bind(a, name, v)),
{
    assert(bind(a, name, v).bindings.subrange(0, a.bindings.len() as int) =~= a.bindings);
}

/// A matching pattern keeps the environment and only adds bindings after
/// the ones already there.
pub proof fn lemma_match_extends<F: Fn(&Filter, Value, &BindEnv) -> bool, C: Fn(ObjId) -> bool>(
    p: EventPattern,
    event: GameEvent,
    ev: EnvView,
    check: F,
    is_creature: C,
)
    ensures
        pattern_match(p, event, ev, check, is_creature) matches Some(e2) ==> extends(ev, e2),
    decreases p, 0int,
{
    match p {
        EventPattern::And(ps) => lemma_all_match_extends(ps@, 0, event, ev, check, is_creature),
        _ => {
            assert(extends(ev, ev)) by {
                assert(ev.bindings.subrange(0, ev.bindings.len() as int) =~= ev.bindings);
            }
            assert forall|n1: &'static str, v1: Value| #[trigger] extends(ev, bind(ev, n1, v1)) by {
                lemma_bind_extends(ev, n1, v1);
            }
            assert forall|n1: &'static str, v1: Value, n2: &'static str, v2: Value|
                #[trigger] extends(ev, bind(bind(ev, n1, v1), n2, v2)) by {
                lemma_bind_extends(ev, n1, v1);
                lemma_bind_extends(bind(ev, n1, v1), n2, v2);
                lemma_extends_trans(ev, bind(ev, n1, v1), bind(bind(ev, n1, v1), n2, v2));
            }
            assert forall|n1: &'static str, v1: Value, n2: &'static str, v2: Value, n3: &'static str, v3: Value|
                #[trigger] extends(ev, bind(bind(bind(ev, n1, v1), n2, v2), n3, v3)) by {
                let a1 = bind(ev, n1, v1);
                let a2 = bind(a1, n2, v2);
                lemma_bind_extends(ev, n1, v1);
                lemma_bind_extends(a1, n2, v2);
                lemma_bind_extends(a2, n3, v3);
                lemma_extends_trans(ev, a1, a2);
                lemma_extends_trans(ev, a2, bind(a2, n3, v3));
            }
        },
    }
}

proof fn lemma_all_match_extends<F: Fn(&Filter, Value, &BindEnv) -> bool, C: Fn(ObjId) -> bool>(
    ps: Seq<EventPattern>,
    i: int,
    event: GameEvent,
    ev: EnvView,
    check: F,
    is_creature: C,
)
    ensures
        all_match(ps, i, event, ev, check, is_creature) matches Some(e2) ==> extends(ev, e2),
    decreases ps, ps.len() - i,
{
    if i < 0 || i >= ps.len() {
        assert(ev.bindings.subrange(0, ev.bindings.len() as int) =~= ev.bindings);
    } else {
        lemma_match_extends(ps[i], event, ev, check, is_creature);
        if let Some(ev2) = pattern_match(ps[i], event, ev, check, is_creature) {
            lemma_all_match_extends(ps, i + 1, event, ev2, check, is_creature);
            if let Some(e3) = all_match(ps, i + 1, event, ev2, check, is_creature) {
                lemma_extends_trans(ev, ev2, e3);
            }
        }
    }
}

fn ask<F: Fn(&Filter, Value, &BindEnv) -> bool>(check: &F, fl: &Filter, v: Value, env: &BindEnv) -> (r: bool)
    requires
        sound_check(*check),
    ensures
        r == holds(*check, *fl, v, env_view(*env)),
{
    let r = check(fl, v, env);
    proof {
        if !r && holds(*check, *fl, v, env_view(*env)) {
            let e = choose|e: &BindEnv| env_view(*e) == env_view(*env) && check.ensures((fl, v, e), true);
            assert(check.ensures((fl, v, e), true));
        }
    }
    r
}

fn is_creature_of<C: Fn(ObjId) -> bool>(is_creature: &C, id: ObjId) -> (r: bool)
    requires
        sound_creature(*is_creature),
    ensures
        r == creature(*is_creature, id),
{
    is_creature(id)
}

/// Match `event` against `pattern` in `env`: `None` when it does not match,
/// else `env` with what the pattern binds. `check(filter, subject, env)`
/// says whether a filter holds of the subject (an object or a player) in
/// `env`; `is_creature` whether a dying object is a creature (rule 700.4:
/// only creatures die).
pub fn match_event_pattern<F: Fn(&Filter, Value, &BindEnv) -> bool, C: Fn(ObjId) -> bool>(
    pattern: &EventPattern,
    event: &GameEvent,
    env: BindEnv,
    check: &F,
    is_creature: &C,
) -> (r: Option<BindEnv>)
    requires
        sound_check(*check),
        sound_creature(*is_creature),
    ensures
        match r {
            Some(e) => pattern_match(*pattern, *event, env_view(env), *check, *is_creature) == Some(
                env_view(e),
            ),
            None => pattern_match(*pattern, *event, env_view(env), *check, *is_creature) is None,
        },
    decreases pattern,
{
    let ghost ev = env_view(env);
    match pattern {
        EventPattern::Any => Some(env),
        EventPattern::EntersZone { obj_filter, zone_kind } => {
            if let GameEvent::ZoneChange { id, to, .. } = event {
                if zone_id_from_kind(*zone_kind) != *to {
                    return None;
                }
                if !ask(check, obj_filter, Value::Obj(*id), &env) {
                    return None;
                }
                Some(env.with_var("triggered_obj", Value::Obj(*id)))
            } else {
                None
            }
        },
        EventPattern::LeavesZone { obj_filter, zone_kind } => {
            if let GameEvent::ZoneChange { id, from, .. } = event {
                if zone_id_from_kind(*zone_kind) != *from {
                    return None;
                }
                if !ask(check, obj_filter, Value::Obj(*id), &env) {
                    return None;
                }
                Some(env.with_var("triggered_obj", Value::Obj(*id)))
            } else {
                None
            }
        },
        EventPattern::ZoneChange { obj_filter, from, to, actor_filter } => {
            if let GameEvent::ZoneChange { id, from: ef, to: et, actor, .. } = event {
                if zone_id_from_kind(*from) != *ef {
                    return None;
                }
                if zone_id_from_kind(*to) != *et {
                    return None;
                }
                if !ask(check, obj_filter, Value::Obj(*id), &env) {
                    return None;
                }
                if let Some(af) = actor_filter {
                    if !ask(check, af, Value::Player(*actor), &env) {
                        return None;
                    }
                }
                Some(
                    env.with_var("triggered_obj", Value::Obj(*id)).with_var(
                        "triggered_actor",
                        Value::Player(*actor),
                    ),
                )
            } else {
                None
            }
        },
        EventPattern::Dies { obj_filter } => {
            if let GameEvent::ZoneChange { id, from: ZoneId::Battlefield, to: ZoneId::Graveyard, .. } = event {
                if !is_creature_of(is_creature, *id) {
                    return None;
                }
                if !ask(check, obj_filter, Value::Obj(*id), &env) {
                    return None;
                }
                Some(env.with_var("triggered_obj", Value::Obj(*id)))
            } else {
                None
            }
        },
        EventPattern::SpellCast { spell_filter } => {
            if let GameEvent::SpellCast { card_id, caster, mana_spent } = event {
                if !ask(check, spell_filter, Value::Obj(*card_id), &env) {
                    return None;
                }
                Some(
                    env.with_var("triggered_obj", Value::Obj(*card_id)).with_var(
                        "triggered_actor",
                        Value::Player(*caster),
                    ).with_var("triggered_mana_spent", Value::Bool(*mana_spent)),
                )
            } else {
                None
            }
        },
        EventPattern::Draw { who } => {
            if let GameEvent::Draw { controller: drawer, is_natural, .. } = event {
                if !ask(check, who, Value::Player(*drawer), &env) {
                    return None;
                }
                Some(
                    env.with_var("triggered_actor", Value::Player(*drawer)).with_var(
                        "triggered_is_natural",
                        Value::Bool(*is_natural),
                    ),
                )
            } else {
                None
            }
        },
        EventPattern::Attacks { attacker_filter } => {
            if let GameEvent::CreatureAttacked { attacker_id, .. } = event {
                if !ask(check, attacker_filter, Value::Obj(*attacker_id), &env) {
                    return None;
                }
                Some(env.with_var("triggered_obj", Value::Obj(*attacker_id)))
            } else {
                None
            }
        },
        EventPattern::And(ps) => {
            let mut e = env;
            let mut i: usize = 0;
            while i < ps.len()
                invariant
                    i <= ps@.len(),
                    sound_check(*check),
                    sound_creature(*is_creature),
                    *pattern == EventPattern::And(*ps),
                    ev == env_view(env),
                    all_match(ps@, 0, *event, ev, *check, *is_creature) == all_match(
                        ps@,
                        i as int,
                        *event,
                        env_view(e),
                        *check,
                        *is_creature,
                    ),
                decreases ps@.len() - i,
            {
                match match_event_pattern(&ps[i], event, e, check, is_creature) {
                    Some(e2) => {
                        e = e2;
                    },
                    None => {
                        proof {
                            assert(all_match(ps@, i as int, *event, env_view(e), *check, *is_creature)
                                is None);
                            assert(pattern_match(*pattern, *event, ev, *check, *is_creature)
                                == all_match(ps@, 0, *event, ev, *check, *is_creature));
                        }
                        return None;
                    },
                }
                i = i + 1;
            }
            Some(e)
        },
        EventPattern::LandPlayed { .. } => None,
        EventPattern::DamageDealt { .. } => None,
        EventPattern::Blocks { .. } => None,
    }
}

/// Whether a logged event satisfies an event filter in `env`.
/// `player_of(x, env)` is the player expression `x` evaluates to in `env`,
/// or `None` when it evaluates to something else.
pub fn match_event<P: Fn(&Expr, &BindEnv) -> Option<PlayerId>>(
    filter: &EventFilter,
    logged: &LoggedEvent,
    env: &BindEnv,
    player_of: &P,
) -> (r: bool)
    requires
        sound_player_of(*player_of),
    ensures
        r == event_filter_match(*filter, *logged, env_view(*env), *player_of),
{
    match filter {
        EventFilter::SpellCast { caster } => {
            if let GameEvent::SpellCast { caster: c, .. } = &logged.event {
                match caster {
                    None => true,
                    Some(x) => {
                        let p = player_of(&**x, env);
                        proof {
                            if p != Some(*c) && is_player(*player_of, **x, env_view(*env), *c) {
                                let e = choose|e: &BindEnv|
                                    env_view(*e) == env_view(*env) && player_of.ensures(
                                        (&**x, e),
                                        Some(*c),
                                    );
                                assert(player_of.ensures((&**x, e), Some(*c)));
                            }
                        }
                        match p {
                            Some(q) => q == *c,
                            None => false,
                        }
                    },
                }
            } else {
                false
            }
        },
    }
}

fn ask_cond<K: Fn(&Expr, &BindEnv) -> bool>(cond: &K, c: &Expr, env: &BindEnv) -> (r: bool)
    requires
        sound_cond(*cond),
    ensures
        r == cond_holds(*cond, *c, env_view(*env)),
{
    let r = cond(c, env);
    proof {
        if !r && cond_holds(*cond, *c, env_view(*env)) {
            let e = choose|e: &BindEnv| env_view(*e) == env_view(*env) && cond.ensures((c, e), true);
            assert(cond.ensures((c, e), true));
        }
    }
    r
}

/// Match `event` against trigger `spec` of `source_id`, controlled by
/// `controller`: `None` when it does not fire, else the environment it fires
/// with — the source and controller, and what its event pattern binds.
/// `check` decides filters, `cond` a trigger's extra condition and
/// `is_creature` whether a dying object is a creature.
pub fn match_trigger<
    F: Fn(&Filter, Value, &BindEnv) -> bool,
    K: Fn(&Expr, &BindEnv) -> bool,
    C: Fn(ObjId) -> bool,
>(
    spec: &TriggerSpec,
    event: &GameEvent,
    source_id: ObjId,
    controller: PlayerId,
    check: &F,
    cond: &K,
    is_creature: &C,
) -> (r: Option<BindEnv>)
    requires
        sound_check(*check),
        sound_cond(*cond),
        sound_creature(*is_creature),
    ensures
        match r {
            Some(e) => trigger_match(*spec, *event, source_id, controller, *check, *cond, *is_creature)
                == Some(env_view(e)),
            None => trigger_match(*spec, *event, source_id, controller, *check, *cond, *is_creature) is None,
        },
{
    let env = BindEnv::new().with_source(source_id).with_controller(controller);
    assert(env.bindings@ =~= Seq::<(&'static str, Value)>::empty());
    assert(env_view(env) == trigger_env(source_id, controller));
    match spec {
        TriggerSpec::When { pattern, condition } => {
            let e = match match_event_pattern(pattern, event, env, check, is_creature) {
                Some(e) => e,
                None => {
                    return None;
                },
            };
            if let Some(c) = condition {
                if !ask_cond(cond, c, &e) {
                    return None;
                }
            }
            Some(e)
        },
        TriggerSpec::AtStep { step, who } => {
            if let GameEvent::EnteredStep { step: s, active_player } = event {
                if *s != *step {
                    return None;
                }
                let fires = match who {
                    StepScope::ActivePlayer => true,
                    StepScope::EachPlayer => true,
                    StepScope::You => *active_player == controller,
                    StepScope::EachOpponent => *active_player != controller,
                };
                if fires {
                    Some(env)
                } else {
                    None
                }
            } else {
                None
            }
        },
    }
}


/// Zone patterns look at the right side of a move: a "leaves a zone"
/// pattern matches only a zone change whose from-zone is the pattern's
/// zone, an "enters a zone" pattern only one whose to-zone is; a move out
/// of (or into) any other zone, and any other event, never matches. When
/// they match, the moved object is bound as the triggering object.
pub proof fn lemma_zone_patterns<F: Fn(&Filter, Value, &BindEnv) -> bool, C: Fn(ObjId) -> bool>(
    obj_filter: Filter,
    zone_kind: ZoneKindSel,
    event: GameEvent,
    ev: EnvView,
    check: F,
    is_creature: C,
)
    ensures
        pattern_match(EventPattern::LeavesZone { obj_filter, zone_kind }, event, ev, check, is_creature) is Some
            ==> (event matches GameEvent::ZoneChange { id, from, .. } && from == spec_zone_id_from_kind(zone_kind)
            && pattern_match(EventPattern::LeavesZone { obj_filter, zone_kind }, event, ev, check, is_creature)
            == Some(bind(ev, "triggered_obj", Value::Obj(id)))),
        pattern_match(EventPattern::EntersZone { obj_filter, zone_kind }, event, ev, check, is_creature) is Some
            ==> (event matches GameEvent::ZoneChange { id, to, .. } && to == spec_zone_id_from_kind(zone_kind)
            && pattern_match(EventPattern::EntersZone { obj_filter, zone_kind }, event, ev, check, is_creature)
            == Some(bind(ev, "triggered_obj", Value::Obj(id)))),
{
}

/// A zone-change pattern matches only a move from its from-zone to its
/// to-zone; a "dies" pattern only a creature moving from the battlefield to
/// the graveyard (rule 700.4).
pub proof fn lemma_move_patterns<F: Fn(&Filter, Value, &BindEnv) -> bool, C: Fn(ObjId) -> bool>(
    obj_filter: Filter,
    from: ZoneKindSel,
    to: ZoneKindSel,
    actor_filter: Option<Filter>,
    event: GameEvent,
    ev: EnvView,
    check: F,
    is_creature: C,
)
    ensures
        pattern_match(EventPattern::ZoneChange { obj_filter, from, to, actor_filter }, event, ev, check, is_creature)
            is Some ==> (event matches GameEvent::ZoneChange { from: ef, to: et, .. } && ef == spec_zone_id_from_kind(
            from,
        ) && et == spec_zone_id_from_kind(to)),
        pattern_match(EventPattern::Dies { obj_filter }, event, ev, check, is_creature) is Some ==> (
        event matches GameEvent::ZoneChange { id, from: ef, to: et, .. } && ef == ZoneId::Battlefield && et
            == ZoneId::Graveyard && creature(is_creature, id)),
{
}

/// Each zone a pattern names is that zone: library, hand, battlefield,
/// graveyard, exile and stack each stand for the zone of the same name.
pub proof fn lemma_zone_kinds()
    ensures
        spec_zone_id_from_kind(ZoneKindSel::Library) == ZoneId::Library,
        spec_zone_id_from_kind(ZoneKindSel::Hand) == ZoneId::Hand,
        spec_zone_id_from_kind(ZoneKindSel::Battlefield) == ZoneId::Battlefield,
        spec_zone_id_from_kind(ZoneKindSel::Graveyard) == ZoneId::Graveyard,
        spec_zone_id_from_kind(ZoneKindSel::Exile) == ZoneId::Exile,
        spec_zone_id_from_kind(ZoneKindSel::Stack) == ZoneId::Stack,
{
}

} // verus!
