use mtg_engine::ir::cost::{CostSchema, Decision, DecisionKind, NumberKind};
use mtg_engine::ir::expr::Value;
use mtg_engine::strategy::{default_announcement, AlwaysPass};
use mtg_engine::{ObjId, PlayerId};

#[test]
fn default_announcement_picks_first_n_objects() {
    let candidates = vec![ObjId(1), ObjId(2), ObjId(3)];
    let schema = CostSchema {
        decisions: vec![Decision {
            binding: "$pick",
            kind: DecisionKind::Objects { candidates: candidates.clone(), count: 2 },
        }],
    };
    let env = default_announcement(&schema);
    match env.get("$pick") {
        Some(Value::ObjSet(v)) => assert_eq!(v, &vec![ObjId(1), ObjId(2)]),
        other => panic!("expected ObjSet of first 2, got {:?}", other),
    }
}

#[test]
fn default_announcement_single_object_uses_obj_value() {
    let schema = CostSchema {
        decisions: vec![Decision {
            binding: "$one",
            kind: DecisionKind::Objects { candidates: vec![ObjId(7)], count: 1 },
        }],
    };
    let env = default_announcement(&schema);
    match env.get("$one") {
        Some(Value::Obj(id)) => assert_eq!(*id, ObjId(7)),
        other => panic!("expected Obj(7), got {:?}", other),
    }
}

#[test]
fn default_announcement_branch_picks_first_payable() {
    let schema = CostSchema {
        decisions: vec![Decision {
            binding: "$mode",
            kind: DecisionKind::Branch {
                labels: vec!["a", "b", "c"],
                payable: vec![1, 2],
                branches: vec![CostSchema::empty(), CostSchema::empty(), CostSchema::empty()],
            },
        }],
    };
    let env = default_announcement(&schema);
    match env.get("$mode") {
        Some(Value::Num(n)) => assert_eq!(*n, 1, "first payable index"),
        other => panic!("expected Num(1), got {:?}", other),
    }
}

#[test]
fn default_announcement_xlife_picks_min_three_and_max() {
    let schema = CostSchema {
        decisions: vec![Decision {
            binding: "$x",
            kind: DecisionKind::Number { kind: NumberKind::XLife, max: 2 },
        }],
    };
    let env = default_announcement(&schema);
    match env.get("$x") {
        Some(Value::Num(n)) => assert_eq!(*n, 2),
        other => panic!("expected Num(2), got {:?}", other),
    }
}

#[test]
fn default_announcement_replicate_picks_zero() {
    let schema = CostSchema {
        decisions: vec![Decision {
            binding: "$rep",
            kind: DecisionKind::Number { kind: NumberKind::Replicate, max: 5 },
        }],
    };
    let env = default_announcement(&schema);
    match env.get("$rep") {
        Some(Value::Num(n)) => assert_eq!(*n, 0, "default replicate count is 0"),
        other => panic!("expected Num(0), got {:?}", other),
    }
}

// ── Further cases ────────────────────────────────────────────────────────────

#[test]
fn default_announcement_follows_the_chosen_branch() {
    let inner = CostSchema {
        decisions: vec![Decision {
            binding: "$discard",
            kind: DecisionKind::Objects { candidates: vec![ObjId(5), ObjId(6)], count: 1 },
        }],
    };
    let other = CostSchema {
        decisions: vec![Decision {
            binding: "$never",
            kind: DecisionKind::Number { kind: NumberKind::XMana, max: 9 },
        }],
    };
    let schema = CostSchema {
        decisions: vec![
            Decision {
                binding: "$mode",
                kind: DecisionKind::Branch {
                    labels: vec!["a", "b"],
                    payable: vec![],
                    branches: vec![inner, other],
                },
            },
            Decision {
                binding: "$x",
                kind: DecisionKind::Number { kind: NumberKind::XMana, max: 9 },
            },
        ],
    };
    let env = default_announcement(&schema);
    assert!(matches!(env.get("$mode"), Some(Value::Num(0))));
    assert!(matches!(env.get("$discard"), Some(Value::Obj(ObjId(5)))));
    assert!(env.get("$never").is_none());
    assert!(matches!(env.get("$x"), Some(Value::Num(3))));
}

#[test]
fn default_announcement_objects_capped_by_candidates() {
    let schema = CostSchema {
        decisions: vec![Decision {
            binding: "$pick",
            kind: DecisionKind::Objects { candidates: vec![ObjId(1)], count: 3 },
        }],
    };
    let env = default_announcement(&schema);
    match env.get("$pick") {
        Some(Value::ObjSet(v)) => assert_eq!(v, &vec![ObjId(1)]),
        other => panic!("expected ObjSet, got {:?}", other),
    }
}

#[test]
fn always_pass_keeps_its_player() {
    assert_eq!(AlwaysPass::new(PlayerId::Opp).player_id, PlayerId::Opp);
}

#[test]
fn default_damage_goes_lethal_first_then_to_the_last_blocker() {
    let s = AlwaysPass::new(PlayerId::Us);
    let blockers = [ObjId(1), ObjId(2)];
    assert_eq!(s.assign_combat_damage(&blockers, 7, &[2, 3], false), vec![2, 5]);
    assert_eq!(s.assign_combat_damage(&blockers, 7, &[2, 3], true), vec![2, 3]);
    assert_eq!(s.assign_combat_damage(&blockers, 1, &[2, 3], false), vec![1, 0]);
    assert_eq!(s.assign_combat_damage(&blockers, -4, &[2, 3], false), vec![0, 0]);
}

#[test]
fn default_damage_reads_one_lethal_amount_per_blocker() {
    let s = AlwaysPass::new(PlayerId::Opp);
    assert_eq!(s.assign_combat_damage(&[ObjId(4)], 5, &[1, 9], false), vec![5]);
    assert_eq!(s.assign_combat_damage(&[], 5, &[1], false), Vec::<i32>::new());
}
