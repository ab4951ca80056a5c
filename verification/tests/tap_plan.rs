use mtg_engine::tap_plan::{auto_tap_plan, enumerate_mana_abilities, tap_source, ManaAbilityFacts, TapAbility, TapSource};
use mtg_engine::{ActivationTiming, SourceZone};
use mtg_engine::{Color, ManaActivation, ManaCost, ManaPool, ObjId};

fn ability(index: usize, produces: Vec<Color>, produces_count: usize) -> TapAbility {
    TapAbility { index, produces, produces_count }
}

fn source(id: u64, abilities: Vec<TapAbility>) -> TapSource {
    TapSource { id: ObjId(id), abilities }
}

fn cost(w: i32, u: i32, b: i32, r: i32, g: i32, c: i32, generic: i32) -> ManaCost {
    ManaCost { w, u, b, r, g, c, generic }
}

fn steps(plan: &[ManaActivation]) -> Vec<(u64, usize, Option<Color>)> {
    plan.iter().map(|a| (a.source_id.0, a.ability_index, a.color_choice)).collect()
}

#[test]
fn colored_pips_then_generic() {
    let bf = vec![source(1, vec![ability(0, vec![Color::Black], 1)]), source(2, vec![ability(0, vec![Color::Blue], 1)])];
    let plan = auto_tap_plan(&ManaPool::default(), &cost(0, 0, 1, 0, 0, 0, 1), &bf, &[]);
    assert_eq!(steps(&plan), vec![(1, 0, Some(Color::Black)), (2, 0, None)]);
}

#[test]
fn black_is_planned_before_white() {
    let bf = vec![source(1, vec![ability(0, vec![Color::White], 1)]), source(2, vec![ability(0, vec![Color::Black], 1)])];
    let plan = auto_tap_plan(&ManaPool::default(), &cost(1, 0, 1, 0, 0, 0, 0), &bf, &[]);
    assert_eq!(steps(&plan), vec![(2, 0, Some(Color::Black)), (1, 0, Some(Color::White))]);
}

#[test]
fn mana_in_the_pool_is_used_first() {
    let bf = vec![source(1, vec![ability(0, vec![Color::Black], 1)])];
    let pool = ManaPool { w: 0, u: 0, b: 1, r: 0, g: 0, c: 0, total: 2 };
    let plan = auto_tap_plan(&pool, &cost(0, 0, 1, 0, 0, 0, 1), &bf, &[]);
    assert!(plan.is_empty());
}

#[test]
fn hand_sources_come_after_the_battlefield() {
    let bf = vec![source(1, vec![ability(0, vec![Color::Red], 1)])];
    let hand = vec![source(5, vec![ability(0, vec![Color::Red], 1)])];
    let plan = auto_tap_plan(&ManaPool::default(), &cost(0, 0, 0, 2, 0, 0, 0), &bf, &hand);
    assert_eq!(steps(&plan), vec![(1, 0, Some(Color::Red)), (5, 0, Some(Color::Red))]);
}

#[test]
fn generic_counts_what_a_battlefield_source_makes() {
    let bf = vec![source(3, vec![ability(0, vec![], 2)]), source(4, vec![ability(0, vec![Color::Green], 1)])];
    let plan = auto_tap_plan(&ManaPool::default(), &cost(0, 0, 0, 0, 0, 0, 2), &bf, &[]);
    assert_eq!(steps(&plan), vec![(3, 0, None)]);
    let plan = auto_tap_plan(&ManaPool::default(), &cost(0, 0, 0, 0, 0, 0, 3), &bf, &[]);
    assert_eq!(steps(&plan), vec![(3, 0, None), (4, 0, None)]);
}

#[test]
fn first_ability_that_makes_the_color_is_used() {
    let bf = vec![source(7, vec![ability(0, vec![Color::White], 1), ability(2, vec![Color::Black], 1)])];
    let plan = auto_tap_plan(&ManaPool::default(), &cost(0, 0, 1, 0, 0, 0, 0), &bf, &[]);
    assert_eq!(steps(&plan), vec![(7, 2, Some(Color::Black))]);
}

#[test]
fn short_plan_when_sources_run_out_and_colorless_pips_are_skipped() {
    let bf = vec![source(1, vec![ability(0, vec![Color::Green], 1)])];
    let plan = auto_tap_plan(&ManaPool::default(), &cost(0, 0, 0, 0, 2, 1, 0), &bf, &[]);
    assert_eq!(steps(&plan), vec![(1, 0, Some(Color::Green))]);
}

fn facts(activatable: bool, timing: ActivationTiming, zone: SourceZone, requires_tap: bool, condition_met: bool) -> ManaAbilityFacts {
    ManaAbilityFacts { activatable, timing, source_zone: zone, requires_tap, condition_met, produces: vec![Color::Red], produces_count: 1 }
}

#[test]
fn battlefield_sources_offer_only_usable_abilities() {
    let fs = vec![
        facts(true, ActivationTiming::Default, SourceZone::Battlefield, true, true),
        facts(false, ActivationTiming::Default, SourceZone::Battlefield, false, true),
        facts(true, ActivationTiming::Instant, SourceZone::Battlefield, false, true),
        facts(true, ActivationTiming::Default, SourceZone::Hand, false, true),
        facts(true, ActivationTiming::Default, SourceZone::Battlefield, false, false),
        facts(true, ActivationTiming::Default, SourceZone::Battlefield, false, true),
    ];
    let untapped = tap_source(ObjId(4), &fs, false, false);
    assert_eq!(untapped.abilities.iter().map(|a| a.index).collect::<Vec<_>>(), vec![0, 5]);
    let tapped = tap_source(ObjId(4), &fs, true, false);
    assert_eq!(tapped.abilities.iter().map(|a| a.index).collect::<Vec<_>>(), vec![5]);
    let hand = tap_source(ObjId(4), &fs, false, true);
    assert_eq!(hand.abilities.iter().map(|a| a.index).collect::<Vec<_>>(), vec![3]);
    assert_eq!(hand.id, ObjId(4));
    assert_eq!(hand.abilities[0].produces, vec![Color::Red]);
}

#[test]
fn mana_ability_options_list_battlefield_then_hand() {
    let bf = vec![source(1, vec![ability(0, vec![Color::Black], 1), ability(2, vec![], 2)]), source(2, vec![])];
    let hand = vec![source(9, vec![ability(1, vec![Color::Red], 1)])];
    let opts = enumerate_mana_abilities(&bf, &hand);
    let got: Vec<(u64, usize, Vec<Color>, usize)> =
        opts.iter().map(|o| (o.source_id.0, o.ability_index, o.produces.clone(), o.produces_count)).collect();
    assert_eq!(got, vec![(1, 0, vec![Color::Black], 1), (1, 2, vec![], 2), (9, 1, vec![Color::Red], 1)]);
}
