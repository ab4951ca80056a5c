use mtg_engine::combat::DamageStepKind;
use mtg_engine::combat_pass::{damage_question, do_combat_damage_pass, CombatBoard, Fighter};
use mtg_engine::strategy::AlwaysPass;
use mtg_engine::{ObjId, PlayerId};

fn creature(id: u64, controller: PlayerId, power: i32, toughness: i32) -> Fighter {
    Fighter {
        id,
        controller,
        on_battlefield: true,
        power,
        toughness,
        damage: 0,
        loyalty: 0,
        first_strike: false,
        double_strike: false,
        deathtouch: false,
        trample: false,
        lifelink: false,
        attack_target: None,
    }
}

fn board(fighters: Vec<Fighter>, attackers: Vec<u64>, blocks: Vec<(u64, u64)>) -> CombatBoard {
    CombatBoard {
        fighters,
        attackers,
        blocks,
        protections: vec![],
        life_us: 20,
        life_opp: 20,
        life_lost_us: 0,
        life_lost_opp: 0,
    }
}

fn fighter(b: &CombatBoard, id: u64) -> Fighter {
    *b.fighters.iter().find(|f| f.id == id).unwrap()
}

#[test]
fn unblocked_attacker_damages_defending_player() {
    let mut b = board(vec![creature(1, PlayerId::Us, 3, 3)], vec![1], vec![]);
    do_combat_damage_pass(&mut b, PlayerId::Us, DamageStepKind::Regular, &vec![vec![]]);
    assert_eq!(b.life_opp, 17);
    assert_eq!(b.life_lost_opp, 3);
    assert_eq!(b.life_us, 20);
    assert_eq!(b.life_lost_us, 0);
}

#[test]
fn blocked_attacker_and_blocker_trade_damage() {
    let mut b = board(
        vec![creature(1, PlayerId::Us, 2, 2), creature(2, PlayerId::Opp, 1, 1)],
        vec![1],
        vec![(1, 2)],
    );
    do_combat_damage_pass(&mut b, PlayerId::Us, DamageStepKind::Regular, &vec![vec![2]]);
    assert_eq!(fighter(&b, 2).damage, 2);
    assert_eq!(fighter(&b, 1).damage, 1);
    assert_eq!(b.life_opp, 20);
}

#[test]
fn trample_assigns_lethal_then_the_rest_to_player() {
    let mut atk = creature(1, PlayerId::Us, 5, 5);
    atk.trample = true;
    let mut b = board(vec![atk, creature(2, PlayerId::Opp, 2, 2)], vec![1], vec![(1, 2)]);
    do_combat_damage_pass(&mut b, PlayerId::Us, DamageStepKind::Regular, &vec![vec![2]]);
    assert_eq!(fighter(&b, 2).damage, 2);
    assert_eq!(b.life_opp, 17);
    assert_eq!(b.life_lost_opp, 3);
}

#[test]
fn invalid_proposal_falls_back_to_default_assignment() {
    let mut atk = creature(1, PlayerId::Us, 5, 5);
    atk.trample = true;
    let mut b = board(vec![atk, creature(2, PlayerId::Opp, 2, 2)], vec![1], vec![(1, 2)]);
    // More than the attacker's power: not allowed, so lethal goes to the blocker.
    do_combat_damage_pass(&mut b, PlayerId::Us, DamageStepKind::Regular, &vec![vec![9]]);
    assert_eq!(fighter(&b, 2).damage, 2);
    assert_eq!(b.life_opp, 17);
}

#[test]
fn non_trampler_with_all_blockers_gone_deals_no_damage() {
    let mut gone = creature(2, PlayerId::Opp, 2, 2);
    gone.on_battlefield = false;
    let mut b = board(vec![creature(1, PlayerId::Us, 4, 4), gone], vec![1], vec![(1, 2)]);
    do_combat_damage_pass(&mut b, PlayerId::Us, DamageStepKind::Regular, &vec![vec![]]);
    assert_eq!(b.life_opp, 20);
    assert_eq!(fighter(&b, 1).damage, 0);
}

#[test]
fn deathtouch_marks_lethal_damage() {
    let mut atk = creature(1, PlayerId::Us, 1, 1);
    atk.deathtouch = true;
    let mut b = board(vec![atk, creature(2, PlayerId::Opp, 0, 4)], vec![1], vec![(1, 2)]);
    do_combat_damage_pass(&mut b, PlayerId::Us, DamageStepKind::Regular, &vec![vec![1]]);
    assert_eq!(fighter(&b, 2).damage, 4);
}

#[test]
fn lifelink_gains_controller_life() {
    let mut atk = creature(1, PlayerId::Opp, 2, 2);
    atk.lifelink = true;
    let mut b = board(vec![atk], vec![1], vec![]);
    do_combat_damage_pass(&mut b, PlayerId::Opp, DamageStepKind::Regular, &vec![vec![]]);
    assert_eq!(b.life_opp, 22);
    assert_eq!(b.life_us, 18);
    assert_eq!(b.life_lost_us, 2);
}

#[test]
fn protection_prevents_blocker_damage() {
    let mut b = board(
        vec![creature(1, PlayerId::Us, 3, 3), creature(2, PlayerId::Opp, 2, 2)],
        vec![1],
        vec![(1, 2)],
    );
    b.protections = vec![(2, 1)];
    do_combat_damage_pass(&mut b, PlayerId::Us, DamageStepKind::Regular, &vec![vec![3]]);
    assert_eq!(fighter(&b, 2).damage, 0);
    assert_eq!(fighter(&b, 1).damage, 2);
}

#[test]
fn first_strike_step_skips_creatures_without_it() {
    let mut fs = creature(2, PlayerId::Opp, 2, 2);
    fs.first_strike = true;
    let mut b = board(vec![creature(1, PlayerId::Us, 3, 3), fs], vec![1], vec![(1, 2)]);
    do_combat_damage_pass(&mut b, PlayerId::Us, DamageStepKind::FirstStrike, &vec![vec![3]]);
    assert_eq!(fighter(&b, 2).damage, 0);
    assert_eq!(fighter(&b, 1).damage, 2);
}

#[test]
fn attack_on_planeswalker_removes_loyalty() {
    let mut atk = creature(1, PlayerId::Us, 3, 3);
    atk.attack_target = Some(5);
    let mut pw = creature(5, PlayerId::Opp, 0, 0);
    pw.loyalty = 4;
    let mut b = board(vec![atk, pw], vec![1], vec![]);
    do_combat_damage_pass(&mut b, PlayerId::Us, DamageStepKind::Regular, &vec![vec![]]);
    assert_eq!(fighter(&b, 5).loyalty, 1);
    assert_eq!(b.life_opp, 20);
}

#[test]
fn no_attackers_no_damage() {
    let mut b = board(
        vec![creature(1, PlayerId::Us, 3, 3), creature(2, PlayerId::Opp, 2, 2)],
        vec![],
        vec![(1, 2)],
    );
    do_combat_damage_pass(&mut b, PlayerId::Us, DamageStepKind::Regular, &vec![]);
    assert_eq!(fighter(&b, 1).damage, 0);
    assert_eq!(fighter(&b, 2).damage, 0);
}

#[test]
fn questions_follow_damage_from_earlier_attackers() {
    // Two attackers blocked by the same 3/3: the second sees the damage the
    // first one dealt.
    let mut b = board(
        vec![
            creature(1, PlayerId::Us, 2, 2),
            creature(2, PlayerId::Us, 2, 2),
            creature(3, PlayerId::Opp, 0, 3),
        ],
        vec![1, 2],
        vec![(1, 3), (2, 3)],
    );
    let mut answers: Vec<Vec<i32>> = vec![];
    for k in 0..b.attackers.len() {
        match damage_question(&b, DamageStepKind::Regular, &answers, k) {
            Some((blockers, lethal)) => {
                let ids: Vec<ObjId> = blockers.iter().map(|&x| ObjId(x)).collect();
                let f = fighter(&b, b.attackers[k]);
                answers.push(AlwaysPass::new(PlayerId::Us).assign_combat_damage(&ids, f.power, &lethal, f.trample));
            }
            None => answers.push(vec![]),
        }
    }
    assert_eq!(damage_question(&b, DamageStepKind::Regular, &answers, 1), Some((vec![3], vec![1])));
    do_combat_damage_pass(&mut b, PlayerId::Us, DamageStepKind::Regular, &answers);
    assert_eq!(fighter(&b, 3).damage, 4);
}
