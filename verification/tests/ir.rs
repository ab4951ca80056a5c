use mtg_engine::ir::ability::{EventPattern, StepScope, TriggerSpec};
use std::collections::HashSet;

use mtg_engine::ir::ce::{CEMod, CostSpec};
use mtg_engine::ir::context::{Ctx, EventField, GameCtx};
use mtg_engine::ir::event_log::{EventLog, Window};
use mtg_engine::ir::executor::{deps_of, writes_of, Axis, BindEnv};
use mtg_engine::ir::expr::{Expr, Filter, Value, ZoneKindSel, ZoneSel};
use mtg_engine::{CardType, Color, CounterType, GameEvent, Keyword, ObjId, PlayerId, StepKind};

#[test]
fn expr_construction_smoke() {
    let _ = Expr::Controller(Box::new(Expr::Ctx(Ctx::Source)));
    let _ = Expr::Ge(
        Box::new(Expr::Power(Box::new(Expr::Ctx(Ctx::Source)))),
        Box::new(Expr::Num(3)),
    );
}

#[test]
fn scoped_binder_smoke() {
    let _ = Expr::AllObjects {
        zone: ZoneSel::Global(ZoneKindSel::Battlefield),
        bind: "c",
        filter: Box::new(Expr::And(
            Box::new(Expr::Contains(
                Box::new(Expr::TypeLit(CardType::Creature)),
                Box::new(Expr::Types(Box::new(Expr::Ctx(Ctx::Var("c"))))),
            )),
            Box::new(Expr::Eq(
                Box::new(Expr::Controller(Box::new(Expr::Ctx(Ctx::Var("c"))))),
                Box::new(Expr::Ctx(Ctx::Controller)),
            )),
        )),
    };
}

#[test]
fn event_log_smoke() {
    let log = EventLog::new();
    assert_eq!(log.count(Window::ThisTurn, |_| true), 0);
    assert_eq!(log.count(Window::ThisGame, |_| true), 0);
    assert!(!log.any(Window::ThisTurn, |_| true));
}

#[test]
fn bind_env_smoke() {
    let env = BindEnv::new()
        .with_var("x", Value::Num(5))
        .with_subj(Value::Num(10));
    assert!(matches!(env.get("x"), Some(Value::Num(5))));
    assert!(env.get("missing").is_none());
}

#[test]
fn ce_mod_smoke() {
    let _ = CEMod::PumpPT(Expr::Num(2), Expr::Num(2));
    let _ = CEMod::GrantFlash;
    let _ = CEMod::AltCost(CostSpec::Free);
}

#[test]
fn game_ctx_smoke() {
    let _ = Expr::GameCtx(GameCtx::Monarch);
    let _ = Ctx::Triggering(EventField::DamageAmount);
    let _ = Ctx::ThisCast(EventField::DelvedExiled);
}

#[test]
fn axis_smoke() {
    let reads = vec![Axis::PT, Axis::Type];
    let writes = vec![Axis::PT];
    assert!(reads.contains(&Axis::PT) && writes.contains(&Axis::PT));
}

fn reads_of(e: &Expr) -> HashSet<Axis> {
    deps_of(e).reads.into_iter().collect()
}

#[test]
fn power_reads_pt() {
    let e = Expr::Power(Box::new(Expr::Ctx(Ctx::It)));
    assert_eq!(reads_of(&e), HashSet::from([Axis::PT]));
}

#[test]
fn types_reads_type() {
    let e = Expr::Types(Box::new(Expr::Ctx(Ctx::It)));
    assert_eq!(reads_of(&e), HashSet::from([Axis::Type]));
}

#[test]
fn supertypes_and_subtypes_both_read_type_layer() {
    for e in [
        Expr::Supertypes(Box::new(Expr::Ctx(Ctx::It))),
        Expr::Subtypes(Box::new(Expr::Ctx(Ctx::It))),
    ] {
        assert_eq!(reads_of(&e), HashSet::from([Axis::Type]));
    }
}

#[test]
fn colors_reads_color() {
    let e = Expr::Colors(Box::new(Expr::Ctx(Ctx::It)));
    assert_eq!(reads_of(&e), HashSet::from([Axis::Color]));
}

#[test]
fn keywords_reads_abilities() {
    let e = Expr::Keywords(Box::new(Expr::Ctx(Ctx::It)));
    assert_eq!(reads_of(&e), HashSet::from([Axis::Abilities]));
}

#[test]
fn mv_and_name_read_copy_layer() {
    for e in [
        Expr::Mv(Box::new(Expr::Ctx(Ctx::It))),
        Expr::Name(Box::new(Expr::Ctx(Ctx::It))),
    ] {
        assert_eq!(reads_of(&e), HashSet::from([Axis::Copy]));
    }
}

#[test]
fn controller_reads_control_but_owner_is_free() {
    let ctrl = Expr::Controller(Box::new(Expr::Ctx(Ctx::It)));
    assert_eq!(reads_of(&ctrl), HashSet::from([Axis::Control]));
    let owner = Expr::Owner(Box::new(Expr::Ctx(Ctx::It)));
    assert_eq!(reads_of(&owner), HashSet::new());
}

#[test]
fn zone_and_counters_and_life() {
    let z = Expr::ZoneOf(Box::new(Expr::Ctx(Ctx::It)));
    assert_eq!(reads_of(&z), HashSet::from([Axis::Zone]));
    let c = Expr::CountersOn(Box::new(Expr::Ctx(Ctx::It)), CounterType::Void);
    assert_eq!(reads_of(&c), HashSet::from([Axis::Counters]));
    let l = Expr::Life(Box::new(Expr::Ctx(Ctx::Controller)));
    assert_eq!(reads_of(&l), HashSet::from([Axis::Life]));
    let h = Expr::HandSize(Box::new(Expr::Ctx(Ctx::Controller)));
    assert_eq!(reads_of(&h), HashSet::from([Axis::HandSize]));
}

#[test]
fn game_ctx_and_triggering_event() {
    assert_eq!(
        reads_of(&Expr::GameCtx(GameCtx::Monarch)),
        HashSet::from([Axis::GameCtx]),
    );
    assert_eq!(
        reads_of(&Expr::Ctx(Ctx::Triggering(EventField::DamageAmount))),
        HashSet::from([Axis::EventLog]),
    );
}

#[test]
fn composed_predicate_unions_axes() {
    let e = Expr::And(
        Box::new(Expr::Contains(
            Box::new(Expr::TypeLit(CardType::Creature)),
            Box::new(Expr::Types(Box::new(Expr::Ctx(Ctx::It)))),
        )),
        Box::new(Expr::Ge(
            Box::new(Expr::Power(Box::new(Expr::Ctx(Ctx::It)))),
            Box::new(Expr::Num(3)),
        )),
    );
    assert_eq!(reads_of(&e), HashSet::from([Axis::Type, Axis::PT]));
}

#[test]
fn all_objects_reads_zone_and_filter_axes() {
    let filter = Expr::And(
        Box::new(Expr::Contains(
            Box::new(Expr::TypeLit(CardType::Creature)),
            Box::new(Expr::Types(Box::new(Expr::Ctx(Ctx::Var("c"))))),
        )),
        Box::new(Expr::Contains(
            Box::new(Expr::KeywordLit(Keyword::Flying)),
            Box::new(Expr::Keywords(Box::new(Expr::Ctx(Ctx::Var("c"))))),
        )),
    );
    let e = Expr::Count(Box::new(Expr::AllObjects {
        zone: ZoneSel::Global(ZoneKindSel::Battlefield),
        bind: "c",
        filter: Box::new(filter),
    }));
    assert_eq!(
        reads_of(&e),
        HashSet::from([Axis::Zone, Axis::Type, Axis::Abilities]),
    );
}

#[test]
fn dedup_removes_repeated_axes() {
    let e = Expr::Add(
        Box::new(Expr::Power(Box::new(Expr::Ctx(Ctx::Var("a"))))),
        Box::new(Expr::Power(Box::new(Expr::Ctx(Ctx::Var("b"))))),
    );
    let d = deps_of(&e);
    assert_eq!(d.reads, vec![Axis::PT]);
}

#[test]
fn pt_writers() {
    for m in [
        CEMod::PumpPT(Expr::Num(1), Expr::Num(1)),
        CEMod::SetPT(Expr::Num(2), Expr::Num(2)),
        CEMod::SetPower(Expr::Num(0)),
        CEMod::SetToughness(Expr::Num(0)),
    ] {
        assert_eq!(writes_of(&m), vec![Axis::PT]);
    }
}

#[test]
fn type_writers() {
    for m in [
        CEMod::OverrideTypes(vec![CardType::Creature]),
        CEMod::AddType(CardType::Artifact),
        CEMod::AddSubtype("Bear".into()),
        CEMod::RemoveSubtype("Bear".into()),
    ] {
        assert_eq!(writes_of(&m), vec![Axis::Type]);
    }
}

#[test]
fn color_writers() {
    assert_eq!(writes_of(&CEMod::SetColors(vec![Color::Red])), vec![Axis::Color]);
    assert_eq!(writes_of(&CEMod::AddColor(Color::Blue)), vec![Axis::Color]);
}

#[test]
fn abilities_writers() {
    for m in [
        CEMod::AddKeyword(Keyword::Flying),
        CEMod::RemoveKeyword(Keyword::Flying),
        CEMod::CantAttack,
        CEMod::CantBlock,
        CEMod::SetProtection(Expr::ColorLit(Color::White)),
    ] {
        assert_eq!(writes_of(&m), vec![Axis::Abilities]);
    }
}

#[test]
fn copy_writer_covers_all_characteristic_layers() {
    let w: HashSet<Axis> = writes_of(&CEMod::CopyOf(Expr::Ctx(Ctx::Source)))
        .into_iter()
        .collect();
    assert!(w.contains(&Axis::Copy));
    assert!(w.contains(&Axis::Type));
    assert!(w.contains(&Axis::Color));
    assert!(w.contains(&Axis::Abilities));
    assert!(w.contains(&Axis::PT));
}

#[test]
fn rule_mod_writers() {
    for m in [
        CEMod::AllowLoss(Expr::Bool(true)),
        CEMod::MaxHandSize(Expr::Num(7)),
        CEMod::ExtraLandDrops(Expr::Num(1)),
        CEMod::SkipStep(StepKind::Untap),
    ] {
        assert_eq!(writes_of(&m), vec![Axis::RuleMod]);
    }
}

#[test]
fn cast_permission_writers() {
    for m in [
        CEMod::CastableFrom(ZoneKindSel::Graveyard),
        CEMod::AltCost(CostSpec::Free),
        CEMod::AnyColorMana,
        CEMod::GrantFlash,
        CEMod::OnResolveExile,
    ] {
        assert_eq!(writes_of(&m), vec![Axis::CastPermission]);
    }
}

#[test]
fn cost_mod_writers() {
    for m in [
        CEMod::CastingCostPlus(Expr::Num(2)),
        CEMod::SpellsCostMore {
            filter: Filter(Expr::Bool(true)),
            amount: Expr::Num(1),
        },
        CEMod::SpellsCostLess {
            filter: Filter(Expr::Bool(true)),
            amount: Expr::Num(1),
        },
    ] {
        assert_eq!(writes_of(&m), vec![Axis::CostMod]);
    }
}

#[test]
fn ce_edge_pump_then_read_power() {
    let writer = CEMod::PumpPT(Expr::Num(1), Expr::Num(1));
    let reader = Expr::Power(Box::new(Expr::Ctx(Ctx::It)));
    let w: HashSet<Axis> = writes_of(&writer).into_iter().collect();
    let r: HashSet<Axis> = deps_of(&reader).reads.into_iter().collect();
    assert!(
        !w.is_disjoint(&r),
        "expected overlap between writer {:?} and reader {:?}", w, r
    );
}

#[test]
fn ce_edge_copy_then_read_type() {
    let writer = CEMod::CopyOf(Expr::Ctx(Ctx::Source));
    let reader = Expr::Types(Box::new(Expr::Ctx(Ctx::It)));
    let w: HashSet<Axis> = writes_of(&writer).into_iter().collect();
    let r: HashSet<Axis> = deps_of(&reader).reads.into_iter().collect();
    assert!(w.contains(&Axis::Type));
    assert!(!w.is_disjoint(&r));
}

#[test]
fn ce_edge_no_overlap_is_independent() {
    let writer = CEMod::PumpPT(Expr::Num(1), Expr::Num(1));
    let reader = Expr::Life(Box::new(Expr::Ctx(Ctx::Controller)));
    let w: HashSet<Axis> = writes_of(&writer).into_iter().collect();
    let r: HashSet<Axis> = deps_of(&reader).reads.into_iter().collect();
    assert!(
        w.is_disjoint(&r),
        "expected no overlap; got w={:?} r={:?}", w, r
    );
}

// ── Further cases ────────────────────────────────────────────────────────────

#[test]
fn deps_keep_first_occurrence_order() {
    let e = Expr::And(
        Box::new(Expr::Life(Box::new(Expr::Ctx(Ctx::Controller)))),
        Box::new(Expr::Add(
            Box::new(Expr::Power(Box::new(Expr::Ctx(Ctx::It)))),
            Box::new(Expr::Life(Box::new(Expr::Ctx(Ctx::It)))),
        )),
    );
    assert_eq!(deps_of(&e).reads, vec![Axis::Life, Axis::PT]);
    assert!(deps_of(&e).writes.is_empty());
}

#[test]
fn set_basic_land_type_writes_type_and_abilities() {
    assert_eq!(
        writes_of(&CEMod::SetBasicLandType(mtg_engine::BasicLandType::Island)),
        vec![Axis::Type, Axis::Abilities],
    );
}

#[test]
fn event_log_windows_and_checkpoints() {
    let mut log = EventLog::new();
    let ev = |n: u8| GameEvent::Draw { controller: PlayerId::Us, draw_index: n, is_natural: false };
    log.push(1, ev(1));
    log.push(1, ev(2));
    log.mark_turn_start();
    log.push_checkpoint("cp");
    log.push(2, ev(1));
    assert_eq!(log.count(Window::ThisGame, |_| true), 3);
    assert_eq!(log.count(Window::ThisTurn, |_| true), 1);
    assert_eq!(log.count(Window::SinceCheckpoint("cp"), |_| true), 1);
    assert_eq!(log.count(Window::SinceCheckpoint("none"), |_| true), 3);
    assert!(log.any(Window::ThisGame, |e| e.turn == 2));
    assert!(!log.any(Window::ThisTurn, |e| e.turn == 1));
    log.pop_checkpoint("cp");
    assert_eq!(log.count(Window::SinceCheckpoint("cp"), |_| true), 3);
    log.prune_for_new_turn();
    assert_eq!(log.count(Window::ThisTurn, |_| true), 0);
}

#[test]
fn bind_env_later_binding_wins() {
    let env = BindEnv::new()
        .with_var("x", Value::Num(1))
        .with_var("x", Value::Obj(ObjId(4)))
        .with_source(ObjId(9));
    assert!(matches!(env.get("x"), Some(Value::Obj(ObjId(4)))));
    assert_eq!(env.source, Some(ObjId(9)));
}

#[test]
fn trigger_spec_construction() {
    let _ = TriggerSpec::When {
        pattern: EventPattern::EntersZone {
            obj_filter: Filter(Expr::Eq(
                Box::new(Expr::Ctx(Ctx::It)),
                Box::new(Expr::Ctx(Ctx::Source)),
            )),
            zone_kind: ZoneKindSel::Battlefield,
        },
        condition: None,
    };
    let _ = TriggerSpec::AtStep { step: StepKind::Upkeep, who: StepScope::You };
}

#[test]
fn event_log_turn_and_checkpoint_windows_count_later_events() {
    let mut log = EventLog::new();
    let ev = |n: u8| GameEvent::Draw { controller: PlayerId::Opp, draw_index: n, is_natural: true };
    log.push(1, ev(1));
    log.push(1, ev(2));
    log.mark_turn_start();
    for i in 0..3 {
        log.push(2, ev(i));
    }
    log.push_checkpoint("resolve");
    for i in 0..2 {
        log.push(2, ev(i));
    }
    assert_eq!(log.count(Window::ThisTurn, |_| true), 5);
    assert_eq!(log.count(Window::SinceCheckpoint("resolve"), |_| true), 2);
    assert_eq!(log.count(Window::ThisGame, |_| true), 7);
    assert_eq!(log.filter(Window::ThisTurn, |_| true).len(), 5);
    assert!(log.any(Window::SinceCheckpoint("resolve"), |_| true));
}
