use mtg_engine::deck::{card_has_implementation, classify_unimplemented_cards, report_sections, CardFacts, CardKindTag};
use mtg_engine::ir::event_log::{EventLog, Window};
use mtg_engine::ir::executor::BindEnv;
use mtg_engine::strategy::bind_announced_x;
use mtg_engine::{GameEvent, UnimplementedKind};
use mtg_engine::combat::{
    any_combatant_has_first_or_double_strike, source_eligible_for_damage_step, validate_assignment,
    DamageStepKind,
};
use mtg_engine::effects::Who;
use mtg_engine::ir::context::Ctx;
use mtg_engine::ir::executor::{
    axis_to_cewrites, color_char, contains, expect_bool, expect_num, expect_obj, expect_player,
    obj_ids_of, remaining_mana, values_eq, zone_id_from_kind, Axis,
};
use mtg_engine::ir::expr::{Expr, Filter, Value, ZoneKindSel};
use mtg_engine::planner::{spell_mana_production, PlanAction};
use mtg_engine::predicates::{
    exclude_from_target_spec, ir_and, ir_any, ir_colored_spell, ir_not, ir_obj, ir_type, TargetSpec,
};
use mtg_engine::turn::{
    beginning_phase, combat_phase, end_phase, main_phase, post_combat_main_phase, stage_label,
};
use mtg_engine::{
    BattlefieldState, CardType, CeWrites, Color, ManaCost, ManaPool, ObjId, PlayerId, StepKind,
    ZoneId,
};

fn pool(w: i32, u: i32, b: i32, r: i32, g: i32, c: i32, total: i32) -> ManaPool {
    ManaPool { w, u, b, r, g, c, total }
}

fn cost(w: i32, u: i32, b: i32, r: i32, g: i32, c: i32, generic: i32) -> ManaCost {
    ManaCost { w, u, b, r, g, c, generic }
}

#[test]
fn can_pay_checks_pips_and_total() {
    let p = pool(0, 1, 2, 0, 0, 0, 4);
    assert!(p.can_pay(&cost(0, 1, 1, 0, 0, 0, 2)));
    assert!(!p.can_pay(&cost(0, 1, 1, 0, 0, 0, 3)));
    assert!(!p.can_pay(&cost(1, 0, 0, 0, 0, 0, 0)));
}

#[test]
fn spend_drains_colored_mana_used_for_generic() {
    // U, B, B, C in the pool; pay {B}{1}: the total drops to 2 and the
    // counters (U1 B1 C1) exceed it by one, so one black is drained.
    let mut p = pool(0, 1, 2, 0, 0, 1, 4);
    p.spend(&cost(0, 0, 1, 0, 0, 0, 1));
    assert_eq!((p.u, p.b, p.c, p.total), (1, 0, 1, 2));
    // Pay {2}: the total drops to 0 and every counter is drained.
    p.spend(&cost(0, 0, 0, 0, 0, 0, 2));
    assert_eq!((p.w, p.u, p.b, p.r, p.g, p.c, p.total), (0, 0, 0, 0, 0, 0, 0));
}

#[test]
fn spend_drains_black_before_blue() {
    let mut p = pool(0, 2, 2, 0, 0, 0, 4);
    p.spend(&cost(0, 0, 0, 0, 0, 0, 1));
    assert_eq!((p.u, p.b, p.total), (2, 1, 3));
}

#[test]
fn add_and_drain() {
    let mut p = pool(1, 0, 0, 0, 0, 0, 1);
    p.add(&pool(0, 2, 0, 0, 0, 1, 3));
    assert_eq!((p.w, p.u, p.c, p.total), (1, 2, 1, 4));
    p.drain();
    assert_eq!((p.w, p.u, p.b, p.r, p.g, p.c, p.total), (0, 0, 0, 0, 0, 0, 0));
}

#[test]
fn remaining_mana_shortfall() {
    let p = pool(0, 1, 0, 0, 0, 0, 2);
    let rem = remaining_mana(&p, &cost(0, 2, 1, 0, 0, 0, 2));
    assert_eq!((rem.u, rem.b, rem.generic), (1, 1, 1));
    let none = remaining_mana(&p, &cost(0, 1, 0, 0, 0, 0, 1));
    assert_eq!(none, cost(0, 0, 0, 0, 0, 0, 0));
}

#[test]
fn validate_assignment_keeps_legal_assignments() {
    assert_eq!(validate_assignment(&[2, 3], &[2, 2], 5, false), vec![2, 3]);
    assert_eq!(validate_assignment(&[2, 1], &[2, 2], 5, true), vec![2, 1]);
}

#[test]
fn validate_assignment_falls_back_to_default() {
    // Damage past a blocker without lethal on it.
    assert_eq!(validate_assignment(&[1, 4], &[2, 2], 5, false), vec![2, 3]);
    // Wrong length.
    assert_eq!(validate_assignment(&[5], &[2, 2], 5, false), vec![2, 3]);
    // Negative amount.
    assert_eq!(validate_assignment(&[-1, 6], &[2, 2], 5, false), vec![2, 3]);
    // Too much damage.
    assert_eq!(validate_assignment(&[3, 3], &[2, 2], 5, false), vec![2, 3]);
    // With trample, the rest is not put on the last blocker.
    assert_eq!(validate_assignment(&[9, 9], &[2, 2], 5, true), vec![2, 2]);
    // Not enough damage to go around.
    assert_eq!(validate_assignment(&[], &[3, 3], 4, true), vec![3, 1]);
    assert_eq!(validate_assignment(&[], &[], 4, false), Vec::<i32>::new());
}

#[test]
fn phases_and_stages() {
    assert_eq!(beginning_phase().steps.len(), 3);
    assert!(!beginning_phase().steps[0].prio);
    assert!(main_phase().is_main_phase());
    assert!(post_combat_main_phase().is_main_phase());
    assert!(!combat_phase().is_main_phase());
    assert_eq!(combat_phase().steps[3].kind, StepKind::FirstStrikeCombatDamage);
    assert_eq!(end_phase().steps[1].kind, StepKind::Cleanup);
    assert_eq!(stage_label(0), "Early");
    assert_eq!(stage_label(3), "Early");
    assert_eq!(stage_label(4), "Mid");
    assert_eq!(stage_label(5), "Mid");
    assert_eq!(stage_label(6), "Late");
}

#[test]
fn planner_helpers() {
    assert!(PlanAction::TapForMana { source_id: ObjId(1), ability_index: 0, color: None }.is_tap());
    assert!(!PlanAction::LandDrop(ObjId(1)).is_tap());
    let p = spell_mana_production("Dark Ritual").unwrap();
    assert_eq!((p.b, p.total), (3, 3));
    assert!(spell_mana_production("Brainstorm").is_none());
}

#[test]
fn value_helpers() {
    assert_eq!(expect_obj(Value::Obj(ObjId(3))), ObjId(3));
    assert_eq!(expect_obj(Value::Num(3)), ObjId(0));
    assert_eq!(obj_ids_of(Value::ObjSet(vec![ObjId(1), ObjId(2)])), vec![ObjId(1), ObjId(2)]);
    assert_eq!(obj_ids_of(Value::Obj(ObjId(9))), vec![ObjId(9)]);
    assert!(obj_ids_of(Value::Unit).is_empty());
    assert_eq!(expect_player(Value::Player(PlayerId::Opp)), PlayerId::Opp);
    assert_eq!(expect_player(Value::Unit), PlayerId::Us);
    assert_eq!(expect_num(Value::Bool(true)), 1);
    assert_eq!(expect_num(Value::Num(-4)), -4);
    assert!(expect_bool(Value::Num(2)));
    assert!(!expect_bool(Value::Unit));
    assert!(values_eq(&Value::Name("a".into()), &Value::Name("a".into())));
    assert!(!values_eq(&Value::Num(1), &Value::Bool(true)));
    assert!(contains(&Value::Type(CardType::Land), &Value::TypeSet(vec![CardType::Creature, CardType::Land])));
    assert!(contains(&Value::Subtype("Bear".into()), &Value::SubtypeSet(vec!["Bear".into()])));
    assert!(!contains(&Value::Color(Color::Red), &Value::ColorSet(vec![Color::Blue])));
    assert_eq!(color_char(Color::Blue), 'U');
    assert_eq!(zone_id_from_kind(ZoneKindSel::Command), ZoneId::Library);
    assert_eq!(axis_to_cewrites(Axis::PT), Some(CeWrites::PowerToughness));
    assert_eq!(axis_to_cewrites(Axis::Life), None);
}

#[test]
fn filters_and_target_specs() {
    assert!(matches!(ir_any(), Filter(Expr::Bool(true))));
    assert!(matches!(ir_not(ir_type(CardType::Creature)), Filter(Expr::Not(_))));
    assert!(matches!(ir_colored_spell(), Filter(Expr::And(_, _))));
    let spec = TargetSpec::Union(vec![
        TargetSpec::NoTarget,
        TargetSpec::Player(Who::Opp),
        TargetSpec::ObjectInZone {
            controller: Who::Actor,
            zone: ZoneId::Battlefield,
            filter: ir_and(ir_type(CardType::Creature), ir_obj(ObjId(2))),
        },
    ]);
    let out = exclude_from_target_spec(&spec, ObjId(7));
    match out {
        TargetSpec::Union(v) => {
            assert!(v[0].is_none());
            assert!(matches!(v[1], TargetSpec::Player(Who::Opp)));
            match &v[2] {
                TargetSpec::ObjectInZone { filter: Filter(Expr::And(_, rhs)), .. } => match &**rhs {
                    Expr::Not(inner) => match &**inner {
                        Expr::Eq(a, b) => {
                            assert!(matches!(**a, Expr::Ctx(Ctx::It)));
                            assert!(matches!(**b, Expr::ObjLit(ObjId(7))));
                        }
                        _ => panic!("expected It == 7"),
                    },
                    _ => panic!("expected a negation"),
                },
                _ => panic!("expected an object spec"),
            }
        }
        _ => panic!("expected a union"),
    }
    assert_eq!(Who::Opp.resolve(PlayerId::Us), PlayerId::Opp);
    assert_eq!(Who::Actor.resolve(PlayerId::Us), PlayerId::Us);
}

#[test]
fn new_permanent_state() {
    let bf = BattlefieldState::new();
    assert!(!bf.tapped && bf.entered_this_turn && bf.attack_target.is_none());
}

#[test]
fn classify_unimplemented_cards_in_order() {
    let cards = vec![
        ("Doomsday".to_string(), 1, "main".to_string()),
        ("Unknown Card".to_string(), 2, "main".to_string()),
        ("Vanilla".to_string(), 4, "side".to_string()),
    ];
    let catalog = vec![("Doomsday".to_string(), true), ("Vanilla".to_string(), false)];
    let r = classify_unimplemented_cards(&cards, &catalog);
    assert_eq!(r.len(), 2);
    assert_eq!((r[0].name.as_str(), r[0].qty, r[0].board.as_str()), ("Unknown Card", 2, "main"));
    assert_eq!(r[0].kind, UnimplementedKind::Missing);
    assert_eq!((r[1].name.as_str(), r[1].kind), ("Vanilla", UnimplementedKind::Inert));
}

#[test]
fn event_log_filter_and_announced_x() {
    let mut log = EventLog::new();
    for n in 1..=3u8 {
        log.push(1, GameEvent::Draw { controller: PlayerId::Opp, draw_index: n, is_natural: n == 1 });
    }
    let picked = log.filter(Window::ThisGame, |e| e.seq != 1);
    let seqs: Vec<u64> = picked.iter().map(|e| e.seq).collect();
    assert_eq!(seqs, vec![0, 2]);
    let mut env = BindEnv::new();
    bind_announced_x(&mut env, 4);
    assert!(matches!(env.get("$x"), Some(Value::Num(4))));
}

#[test]
fn damage_step_eligibility() {
    let (first_strike, regular) = (DamageStepKind::FirstStrike, DamageStepKind::Regular);
    assert!(!source_eligible_for_damage_step(false, false, first_strike));
    assert!(source_eligible_for_damage_step(false, false, regular));
    assert!(source_eligible_for_damage_step(true, false, first_strike));
    assert!(!source_eligible_for_damage_step(true, false, regular));
    assert!(source_eligible_for_damage_step(false, true, first_strike));
    assert!(source_eligible_for_damage_step(false, true, regular));
}

#[test]
fn first_strike_step_needs_a_first_or_double_striker() {
    assert!(!any_combatant_has_first_or_double_strike(&[]));
    assert!(!any_combatant_has_first_or_double_strike(&[(false, false), (false, false)]));
    assert!(any_combatant_has_first_or_double_strike(&[(false, false), (true, false)]));
    assert!(any_combatant_has_first_or_double_strike(&[(false, true)]));
}

#[test]
fn deck_report_shows_main_missing_then_inert_then_the_sideboard() {
    let cards = vec![
        ("Inert Main".to_string(), 1, "main".to_string()),
        ("Gone Side".to_string(), 1, "side".to_string()),
        ("Gone Main".to_string(), 2, "main".to_string()),
        ("Inert Side".to_string(), 3, "side".to_string()),
    ];
    let catalog = vec![("Inert Main".to_string(), false), ("Inert Side".to_string(), false)];
    let r = classify_unimplemented_cards(&cards, &catalog);
    let (main, side) = report_sections(&r);
    let names = |v: &Vec<usize>| v.iter().map(|&i| r[i].name.clone()).collect::<Vec<_>>();
    assert_eq!(names(&main), vec!["Gone Main", "Inert Main"]);
    assert_eq!(names(&side), vec!["Gone Side", "Inert Side"]);
    let (main_only, no_side) = report_sections(&r[..0]);
    assert!(main_only.is_empty() && no_side.is_empty());
}

#[test]
fn implementation_check() {
    let f = |kind, modes| CardFacts { is_land: false, has_abilities: false, has_target: false, kind, spell_has_modes: modes, has_mode_count: false };
    assert!(card_has_implementation(&f(CardKindTag::Creature, false)));
    assert!(!card_has_implementation(&f(CardKindTag::Sorcery, false)));
    assert!(card_has_implementation(&f(CardKindTag::Instant, true)));
    let mut g = f(CardKindTag::Sorcery, false);
    g.has_target = true;
    assert!(card_has_implementation(&g));
}
