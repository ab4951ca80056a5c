use mtg_engine::ir::ability::{EventPattern, StepScope, TriggerSpec};
use mtg_engine::ir::executor::BindEnv;
use mtg_engine::ir::context::Ctx;
use mtg_engine::ir::event_log::LoggedEvent;
use mtg_engine::ir::expr::{EventFilter, Expr, Filter, Value, ZoneKindSel};
use mtg_engine::ir::triggers::{match_event, match_event_pattern, match_trigger};
use mtg_engine::{GameEvent, ObjId, PlayerId, StepKind, ZoneId};

// A filter check for the tests: `Bool(b)` is `b`; `ObjLit(id)` holds of
// that object only.
fn check(f: &Filter, v: Value, _e: &BindEnv) -> bool {
    match &f.0 {
        Expr::Bool(b) => *b,
        Expr::ObjLit(id) => matches!(v, Value::Obj(x) if x == *id),
        _ => false,
    }
}

fn creature(id: ObjId) -> bool {
    id.0 < 100
}

fn cond(c: &Expr, _e: &BindEnv) -> bool {
    matches!(c, Expr::Bool(true))
}

fn yes() -> Filter {
    Filter(Expr::Bool(true))
}

fn moved(id: u64, from: ZoneId, to: ZoneId) -> GameEvent {
    GameEvent::ZoneChange { id: ObjId(id), actor: PlayerId::Us, from, to, controller: PlayerId::Opp }
}

fn obj(e: &BindEnv, name: &str) -> Option<ObjId> {
    match e.get(name) {
        Some(Value::Obj(id)) => Some(*id),
        _ => None,
    }
}

#[test]
fn enters_zone_binds_the_object() {
    let p = EventPattern::EntersZone { obj_filter: yes(), zone_kind: ZoneKindSel::Battlefield };
    let e = match_event_pattern(&p, &moved(5, ZoneId::Hand, ZoneId::Battlefield), BindEnv::new(), &check, &creature);
    assert_eq!(obj(&e.unwrap(), "triggered_obj"), Some(ObjId(5)));
    assert!(match_event_pattern(&p, &moved(5, ZoneId::Hand, ZoneId::Graveyard), BindEnv::new(), &check, &creature).is_none());
}

#[test]
fn filter_decides_the_match() {
    let p = EventPattern::LeavesZone { obj_filter: Filter(Expr::ObjLit(ObjId(7))), zone_kind: ZoneKindSel::Hand };
    assert!(match_event_pattern(&p, &moved(7, ZoneId::Hand, ZoneId::Stack), BindEnv::new(), &check, &creature).is_some());
    assert!(match_event_pattern(&p, &moved(8, ZoneId::Hand, ZoneId::Stack), BindEnv::new(), &check, &creature).is_none());
}

#[test]
fn zone_change_binds_object_and_actor_and_checks_the_actor() {
    let p = EventPattern::ZoneChange {
        obj_filter: yes(),
        from: ZoneKindSel::Graveyard,
        to: ZoneKindSel::Exile,
        actor_filter: Some(yes()),
    };
    let e = match_event_pattern(&p, &moved(3, ZoneId::Graveyard, ZoneId::Exile), BindEnv::new(), &check, &creature).unwrap();
    assert_eq!(obj(&e, "triggered_obj"), Some(ObjId(3)));
    assert!(matches!(e.get("triggered_actor"), Some(Value::Player(PlayerId::Us))));
    let q = EventPattern::ZoneChange {
        obj_filter: yes(),
        from: ZoneKindSel::Graveyard,
        to: ZoneKindSel::Exile,
        actor_filter: Some(Filter(Expr::Bool(false))),
    };
    assert!(match_event_pattern(&q, &moved(3, ZoneId::Graveyard, ZoneId::Exile), BindEnv::new(), &check, &creature).is_none());
}

#[test]
fn only_creatures_die() {
    let p = EventPattern::Dies { obj_filter: yes() };
    let dies = moved(4, ZoneId::Battlefield, ZoneId::Graveyard);
    assert!(match_event_pattern(&p, &dies, BindEnv::new(), &check, &creature).is_some());
    let artifact = moved(400, ZoneId::Battlefield, ZoneId::Graveyard);
    assert!(match_event_pattern(&p, &artifact, BindEnv::new(), &check, &creature).is_none());
    let discarded = moved(4, ZoneId::Hand, ZoneId::Graveyard);
    assert!(match_event_pattern(&p, &discarded, BindEnv::new(), &check, &creature).is_none());
}

#[test]
fn spell_cast_binds_spell_caster_and_mana() {
    let p = EventPattern::SpellCast { spell_filter: yes() };
    let ev = GameEvent::SpellCast { caster: PlayerId::Opp, card_id: ObjId(12), mana_spent: true };
    let e = match_event_pattern(&p, &ev, BindEnv::new(), &check, &creature).unwrap();
    assert_eq!(obj(&e, "triggered_obj"), Some(ObjId(12)));
    assert!(matches!(e.get("triggered_actor"), Some(Value::Player(PlayerId::Opp))));
    assert!(matches!(e.get("triggered_mana_spent"), Some(Value::Bool(true))));
    assert_eq!(e.bindings.len(), 3);
}

#[test]
fn draw_binds_the_drawer() {
    let p = EventPattern::Draw { who: yes() };
    let ev = GameEvent::Draw { controller: PlayerId::Us, draw_index: 2, is_natural: false };
    let e = match_event_pattern(&p, &ev, BindEnv::new(), &check, &creature).unwrap();
    assert!(matches!(e.get("triggered_actor"), Some(Value::Player(PlayerId::Us))));
    assert!(matches!(e.get("triggered_is_natural"), Some(Value::Bool(false))));
}

#[test]
fn conjunction_threads_the_bindings() {
    let both = EventPattern::And(vec![
        EventPattern::EntersZone { obj_filter: yes(), zone_kind: ZoneKindSel::Battlefield },
        EventPattern::Any,
        EventPattern::EntersZone { obj_filter: yes(), zone_kind: ZoneKindSel::Battlefield },
    ]);
    let ev = moved(6, ZoneId::Library, ZoneId::Battlefield);
    let e = match_event_pattern(&both, &ev, BindEnv::new(), &check, &creature).unwrap();
    assert_eq!(e.bindings.len(), 2);
    let one_fails = EventPattern::And(vec![EventPattern::Any, EventPattern::Attacks { attacker_filter: yes() }]);
    assert!(match_event_pattern(&one_fails, &ev, BindEnv::new(), &check, &creature).is_none());
}

#[test]
fn unwired_patterns_never_match() {
    let p = EventPattern::LandPlayed { who: yes(), land_filter: yes() };
    let ev = GameEvent::LandPlayed { id: ObjId(1), controller: PlayerId::Us };
    assert!(match_event_pattern(&p, &ev, BindEnv::new(), &check, &creature).is_none());
}

#[test]
fn step_triggers_follow_their_scope() {
    let upkeep = |who| TriggerSpec::AtStep { step: StepKind::Upkeep, who };
    let ours = GameEvent::EnteredStep { step: StepKind::Upkeep, active_player: PlayerId::Us };
    let e = match_trigger(&upkeep(StepScope::You), &ours, ObjId(9), PlayerId::Us, &check, &cond, &creature).unwrap();
    assert_eq!(e.source, Some(ObjId(9)));
    assert_eq!(e.controller, Some(PlayerId::Us));
    assert!(match_trigger(&upkeep(StepScope::EachOpponent), &ours, ObjId(9), PlayerId::Us, &check, &cond, &creature).is_none());
    assert!(match_trigger(&upkeep(StepScope::EachOpponent), &ours, ObjId(9), PlayerId::Opp, &check, &cond, &creature).is_some());
    assert!(match_trigger(&upkeep(StepScope::EachPlayer), &ours, ObjId(9), PlayerId::Opp, &check, &cond, &creature).is_some());
    let draw_step = GameEvent::EnteredStep { step: StepKind::Draw, active_player: PlayerId::Us };
    assert!(match_trigger(&upkeep(StepScope::ActivePlayer), &draw_step, ObjId(9), PlayerId::Us, &check, &cond, &creature).is_none());
}

#[test]
fn event_triggers_check_their_condition() {
    let ev = GameEvent::SpellCast { caster: PlayerId::Opp, card_id: ObjId(12), mana_spent: false };
    let t = |c: Option<Expr>| TriggerSpec::When { pattern: EventPattern::SpellCast { spell_filter: yes() }, condition: c };
    let e = match_trigger(&t(None), &ev, ObjId(2), PlayerId::Us, &check, &cond, &creature).unwrap();
    assert_eq!(e.source, Some(ObjId(2)));
    assert_eq!(obj(&e, "triggered_obj"), Some(ObjId(12)));
    assert!(match_trigger(&t(Some(Expr::Bool(true))), &ev, ObjId(2), PlayerId::Us, &check, &cond, &creature).is_some());
    assert!(match_trigger(&t(Some(Expr::Bool(false))), &ev, ObjId(2), PlayerId::Us, &check, &cond, &creature).is_none());
}

fn player_of(x: &Expr, e: &BindEnv) -> Option<PlayerId> {
    match x {
        Expr::Ctx(_) => e.controller,
        _ => None,
    }
}

#[test]
fn event_filter_matches_spell_casts_by_the_named_player() {
    let cast = LoggedEvent { seq: 1, turn: 1, event: GameEvent::SpellCast { caster: PlayerId::Opp, card_id: ObjId(3), mana_spent: true } };
    let drawn = LoggedEvent { seq: 2, turn: 1, event: GameEvent::Draw { controller: PlayerId::Opp, draw_index: 1, is_natural: true } };
    let any = EventFilter::SpellCast { caster: None };
    let env = BindEnv::new().with_controller(PlayerId::Opp);
    assert!(match_event(&any, &cast, &env, &player_of));
    assert!(!match_event(&any, &drawn, &env, &player_of));
    let by_controller = EventFilter::SpellCast { caster: Some(Box::new(Expr::Ctx(Ctx::Controller))) };
    assert!(match_event(&by_controller, &cast, &env, &player_of));
    let env_us = BindEnv::new().with_controller(PlayerId::Us);
    assert!(!match_event(&by_controller, &cast, &env_us, &player_of));
    let not_a_player = EventFilter::SpellCast { caster: Some(Box::new(Expr::Num(1))) };
    assert!(!match_event(&not_a_player, &cast, &env, &player_of));
}
