use mtg_engine::potential::{accumulate_source_potential, ManaAbility};
use mtg_engine::{Color, ManaPool};

fn ability(requires_tap: bool, produces: Vec<Color>, produces_count: usize) -> ManaAbility {
    ManaAbility { requires_tap, requires_sac: false, produces, produces_count }
}

fn counts(p: &ManaPool) -> [i32; 7] {
    [p.w, p.u, p.b, p.r, p.g, p.c, p.total]
}

#[test]
fn untapped_forest_adds_one_green() {
    let mut p = ManaPool::default();
    accumulate_source_potential(&[ability(true, vec![Color::Green], 1)], false, &mut p);
    assert_eq!(counts(&p), [0, 0, 0, 0, 1, 0, 1]);
}

#[test]
fn tapped_source_adds_nothing() {
    let mut p = ManaPool::default();
    p.r = 2;
    p.total = 2;
    accumulate_source_potential(&[ability(true, vec![Color::Green], 1)], true, &mut p);
    assert_eq!(counts(&p), [0, 0, 0, 2, 0, 0, 2]);
}

#[test]
fn source_without_abilities_adds_nothing() {
    let mut p = ManaPool::default();
    accumulate_source_potential(&[], false, &mut p);
    assert_eq!(counts(&p), [0; 7]);
}

#[test]
fn colorless_source_counts_for_one() {
    let mut p = ManaPool::default();
    accumulate_source_potential(&[ability(true, vec![], 2)], false, &mut p);
    assert_eq!(counts(&p), [0, 0, 0, 0, 0, 1, 1]);
}

#[test]
fn dual_land_counts_once_towards_both_colors() {
    let mut p = ManaPool::default();
    let abilities = [ability(true, vec![Color::White], 1), ability(true, vec![Color::Blue], 1)];
    accumulate_source_potential(&abilities, false, &mut p);
    assert_eq!(counts(&p), [1, 1, 0, 0, 0, 0, 1]);
}

#[test]
fn every_color_a_usable_ability_makes_counts_once() {
    let mut p = ManaPool::default();
    let abilities = [ability(true, vec![Color::Black], 1), ability(false, vec![Color::Red, Color::Black], 3)];
    accumulate_source_potential(&abilities, false, &mut p);
    assert_eq!(counts(&p), [0, 0, 1, 1, 0, 0, 1]);
}

#[test]
fn tapped_source_keeps_abilities_that_do_not_tap() {
    let mut p = ManaPool::default();
    let abilities = [ability(true, vec![Color::Red], 4), ability(false, vec![], 1)];
    accumulate_source_potential(&abilities, true, &mut p);
    assert_eq!(counts(&p), [0, 0, 0, 0, 0, 1, 1]);
}
