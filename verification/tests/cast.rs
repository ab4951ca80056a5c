use mtg_engine::cast::{plan_cast, AltCostFacts, CastRequest};
use mtg_engine::{ManaCost, ManaPool};

fn cost(b: i32, generic: i32) -> ManaCost {
    ManaCost { w: 0, u: 0, b, r: 0, g: 0, c: 0, generic }
}

fn pool(b: i32, total: i32) -> ManaPool {
    ManaPool { w: 0, u: 0, b, r: 0, g: 0, c: 0, total }
}

fn request(c: ManaCost, potential: ManaPool) -> CastRequest {
    CastRequest {
        back_face: false,
        has_back: false,
        back_is_sorcery: false,
        stack_empty: true,
        cost: c,
        mana_cost_empty: false,
        delve: false,
        graveyard: vec![],
        potential,
        announced_alt: false,
        announced_alt_index: None,
        alternates: vec![],
        hand_size: 5,
        additional_payable: true,
    }
}

#[test]
fn payable_mana_cost_is_paid() {
    let plan = plan_cast(&request(cost(1, 1), pool(1, 2))).unwrap();
    assert!(!plan.alt_cost_used);
    assert_eq!(plan.cost, cost(1, 1));
    assert!(plan.delve_exile.is_empty());
}

#[test]
fn unpayable_without_alternate_fails() {
    assert!(plan_cast(&request(cost(1, 1), pool(1, 1))).is_none());
}

#[test]
fn first_usable_alternate_cost_is_chosen() {
    let mut req = request(cost(1, 3), pool(0, 0));
    req.alternates = vec![
        AltCostFacts { hand_min: 7, condition_ok: true, feasible: true },
        AltCostFacts { hand_min: 0, condition_ok: true, feasible: false },
        AltCostFacts { hand_min: 2, condition_ok: true, feasible: true },
    ];
    let plan = plan_cast(&req).unwrap();
    assert!(plan.alt_cost_used);
    assert_eq!(plan.alt_cost_index, Some(2));
}

#[test]
fn announced_alternate_cost_wins() {
    let mut req = request(cost(1, 0), pool(1, 1));
    req.announced_alt = true;
    req.announced_alt_index = Some(0);
    let plan = plan_cast(&req).unwrap();
    assert!(plan.alt_cost_used);
    assert_eq!(plan.alt_cost_index, Some(0));
}

#[test]
fn delve_exiles_graveyard_for_generic_mana() {
    let mut req = request(cost(1, 3), pool(1, 2));
    req.delve = true;
    req.graveyard = vec![40, 41];
    let plan = plan_cast(&req).unwrap();
    assert_eq!(plan.delve_exile, vec![40, 41]);
    assert_eq!(plan.cost, cost(1, 1));
}

#[test]
fn sorcery_back_face_needs_empty_stack() {
    let mut req = request(cost(0, 1), pool(0, 1));
    req.back_face = true;
    req.has_back = true;
    req.back_is_sorcery = true;
    req.stack_empty = false;
    assert!(plan_cast(&req).is_none());
    req.stack_empty = true;
    assert!(plan_cast(&req).is_some());
}

#[test]
fn unpayable_additional_cost_fails() {
    let mut req = request(cost(0, 0), pool(0, 0));
    req.additional_payable = false;
    assert!(plan_cast(&req).is_none());
}
