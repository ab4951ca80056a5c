use mtg_engine::planner::{apply_plan_action, PlanAction, TurnPlanState};
use mtg_engine::potential::ManaAbility;
use mtg_engine::{Color, ManaCost, ManaPool, ObjId};

fn plan() -> TurnPlanState {
    TurnPlanState {
        pool: ManaPool::default(),
        tapped: vec![ObjId(9)],
        hand: vec![ObjId(1), ObjId(2), ObjId(1)],
        land_drop_used: false,
        spells_cast: vec![],
        new_battlefield: vec![],
        sacrificed: vec![],
        library: vec![ObjId(20), ObjId(21)],
    }
}

fn pool(p: &ManaPool) -> [i32; 7] {
    [p.w, p.u, p.b, p.r, p.g, p.c, p.total]
}

fn tap_ability(requires_sac: bool, count: usize) -> ManaAbility {
    ManaAbility { requires_tap: true, requires_sac, produces: vec![Color::Black], produces_count: count }
}

#[test]
fn tapping_adds_mana_of_the_chosen_color_and_taps_the_source() {
    let p = plan();
    let a = PlanAction::TapForMana { source_id: ObjId(5), ability_index: 0, color: Some(Color::Black) };
    let ma = tap_ability(false, 1);
    let next = apply_plan_action(&p, &a, Some(&ma), None, "");
    assert_eq!(pool(&next.pool), [0, 0, 1, 0, 0, 0, 1]);
    assert_eq!(next.tapped, vec![ObjId(9), ObjId(5)]);
    assert!(next.sacrificed.is_empty());
}

#[test]
fn tapping_without_color_adds_colorless_and_a_tapped_source_is_listed_once() {
    let p = plan();
    let a = PlanAction::TapForMana { source_id: ObjId(9), ability_index: 0, color: None };
    let ma = tap_ability(true, 2);
    let next = apply_plan_action(&p, &a, Some(&ma), None, "");
    assert_eq!(pool(&next.pool), [0, 0, 0, 0, 0, 2, 2]);
    assert_eq!(next.tapped, vec![ObjId(9)]);
    assert_eq!(next.sacrificed, vec![ObjId(9)]);
}

#[test]
fn tapping_an_unknown_ability_changes_nothing() {
    let p = plan();
    let a = PlanAction::TapForMana { source_id: ObjId(5), ability_index: 3, color: Some(Color::Red) };
    let next = apply_plan_action(&p, &a, None, None, "");
    assert_eq!(pool(&next.pool), [0; 7]);
    assert_eq!(next.tapped, vec![ObjId(9)]);
}

#[test]
fn casting_pays_the_cost_and_leaves_the_hand() {
    let mut p = plan();
    p.pool = ManaPool { w: 0, u: 1, b: 0, r: 0, g: 0, c: 0, total: 2 };
    let cost = ManaCost { w: 0, u: 1, b: 0, r: 0, g: 0, c: 0, generic: 1 };
    let next = apply_plan_action(&p, &PlanAction::CastSpell(ObjId(1)), None, Some(cost), "Brainstorm");
    assert_eq!(pool(&next.pool), [0; 7]);
    assert_eq!(next.hand, vec![ObjId(2)]);
    assert_eq!(next.spells_cast, vec![ObjId(1)]);
}

#[test]
fn casting_dark_ritual_adds_three_black() {
    let mut p = plan();
    p.pool = ManaPool { w: 0, u: 0, b: 1, r: 0, g: 0, c: 0, total: 1 };
    let cost = ManaCost { w: 0, u: 0, b: 1, r: 0, g: 0, c: 0, generic: 0 };
    let next = apply_plan_action(&p, &PlanAction::CastSpell(ObjId(2)), None, Some(cost), "Dark Ritual");
    assert_eq!(pool(&next.pool), [0, 0, 3, 0, 0, 0, 3]);
    assert_eq!(next.hand, vec![ObjId(1), ObjId(1)]);
}

#[test]
fn land_drop_moves_the_land_and_uses_the_drop() {
    let p = plan();
    let next = apply_plan_action(&p, &PlanAction::LandDrop(ObjId(2)), None, None, "");
    assert_eq!(next.hand, vec![ObjId(1), ObjId(1)]);
    assert_eq!(next.new_battlefield, vec![ObjId(2)]);
    assert!(next.land_drop_used);
}

#[test]
fn cracking_a_fetch_sacrifices_it_and_fetches_the_land() {
    let p = plan();
    let a = PlanAction::CrackFetch { source_id: ObjId(7), target_id: ObjId(21) };
    let next = apply_plan_action(&p, &a, None, None, "");
    assert_eq!(next.sacrificed, vec![ObjId(7)]);
    assert_eq!(next.library, vec![ObjId(20)]);
    assert_eq!(next.new_battlefield, vec![ObjId(21)]);
    assert_eq!(next.hand, p.hand);
}
