use mtg_engine::priority::{
    cast_timing_allowed, priority_step, start_priority_round, PriorityAction, PriorityEvent,
};
use mtg_engine::combat::DamageStepKind;
use mtg_engine::steps::{
    apply_block_order, cleanup_discard_count, declare_attacker, draw_skipped, expire_effects,
    group_blocks, legal_blocks, step_plan, untap_step, AttackerView, ExpiryPoint, StepAction,
    TimedEffect, UntapView,
};
use mtg_engine::{Expiry, PlayerId, StepKind};

#[test]
fn two_passes_with_empty_stack_end_the_round() {
    let mut ps = start_priority_round(PlayerId::Us);
    assert_eq!(priority_step(&mut ps, PlayerId::Us, true, PriorityEvent::Pass), PriorityAction::Continue);
    assert_eq!(ps.holder, PlayerId::Opp);
    assert_eq!(ps.last_passer, Some(PlayerId::Us));
    assert_eq!(priority_step(&mut ps, PlayerId::Us, true, PriorityEvent::Pass), PriorityAction::EndRound);
}

#[test]
fn two_passes_with_stack_resolve_and_return_priority_to_active_player() {
    let mut ps = start_priority_round(PlayerId::Us);
    assert_eq!(priority_step(&mut ps, PlayerId::Us, false, PriorityEvent::CastDone), PriorityAction::Continue);
    assert_eq!(ps.holder, PlayerId::Opp);
    assert_eq!(priority_step(&mut ps, PlayerId::Us, false, PriorityEvent::Pass), PriorityAction::Continue);
    assert_eq!(priority_step(&mut ps, PlayerId::Us, false, PriorityEvent::Pass), PriorityAction::ResolveTop);
    assert_eq!(ps.holder, PlayerId::Us);
    assert_eq!(ps.last_passer, None);
}

#[test]
fn mana_ability_keeps_priority_and_land_resets_passes() {
    let mut ps = start_priority_round(PlayerId::Opp);
    priority_step(&mut ps, PlayerId::Opp, true, PriorityEvent::Pass);
    let before = ps;
    assert_eq!(
        priority_step(&mut ps, PlayerId::Opp, true, PriorityEvent::ManaAbilityActivated),
        PriorityAction::Continue
    );
    assert_eq!(ps, before);
    priority_step(&mut ps, PlayerId::Opp, true, PriorityEvent::LandPlayed);
    assert_eq!(ps.holder, PlayerId::Us);
    assert_eq!(ps.last_passer, None);
}

#[test]
fn refused_cast_counts_as_pass() {
    let mut ps = start_priority_round(PlayerId::Us);
    assert!(!cast_timing_allowed(false, false));
    assert!(cast_timing_allowed(true, false));
    priority_step(&mut ps, PlayerId::Us, false, PriorityEvent::CastRefused);
    assert_eq!(ps.holder, PlayerId::Opp);
    assert_eq!(ps.last_passer, Some(PlayerId::Us));
}

#[test]
fn untap_removes_stun_counter_instead_of_untapping() {
    let mut perms = vec![
        UntapView { tapped: true, stun_counters: 2, entered_this_turn: true, pw_activated_this_turn: true },
        UntapView { tapped: true, stun_counters: 0, entered_this_turn: false, pw_activated_this_turn: false },
        UntapView { tapped: false, stun_counters: 1, entered_this_turn: false, pw_activated_this_turn: false },
    ];
    untap_step(&mut perms);
    assert!(perms[0].tapped);
    assert_eq!(perms[0].stun_counters, 1);
    assert!(!perms[0].entered_this_turn);
    assert!(!perms[0].pw_activated_this_turn);
    assert!(!perms[1].tapped);
    assert!(!perms[2].tapped);
    assert_eq!(perms[2].stun_counters, 1);
}

#[test]
fn first_player_skips_first_draw_only() {
    assert!(draw_skipped(PlayerId::Us, true, 1));
    assert!(!draw_skipped(PlayerId::Us, true, 2));
    assert!(!draw_skipped(PlayerId::Opp, true, 1));
    assert!(draw_skipped(PlayerId::Opp, false, 1));
}

#[test]
fn blocks_are_filtered_grouped_and_ordered() {
    let declared = vec![(1, 10), (2, 20), (1, 11), (3, 30), (1, 12)];
    let legal = legal_blocks(&declared, &vec![(3, 30)]);
    assert_eq!(legal, vec![(1, 10), (2, 20), (1, 11), (1, 12)]);
    let groups = group_blocks(&legal);
    assert_eq!(groups, vec![(1, vec![10, 11, 12]), (2, vec![20])]);
    // A reordering of the group is used.
    let ordered = apply_block_order(&groups, &vec![vec![12, 10, 11], vec![]]);
    assert_eq!(ordered, vec![(1, 12), (1, 10), (1, 11), (2, 20)]);
    // An answer that is not a reordering falls back to declaration order.
    let fallback = apply_block_order(&groups, &vec![vec![12, 99, 11], vec![]]);
    assert_eq!(fallback, vec![(1, 10), (1, 11), (1, 12), (2, 20)]);
}

#[test]
fn step_plans_follow_the_step_kind() {
    let p = step_plan(StepKind::DeclareAttackers, true);
    assert_eq!(p.action, StepAction::DeclareAttackers);
    assert!(!p.fire_entered_step);
    assert!(p.priority_round);
    let u = step_plan(StepKind::Untap, false);
    assert_eq!(u.action, StepAction::Untap);
    assert!(!u.fire_entered_step);
    assert!(!u.priority_round);
    let fs = step_plan(StepKind::FirstStrikeCombatDamage, true);
    assert_eq!(fs.action, StepAction::CombatDamage(DamageStepKind::FirstStrike));
    assert!(fs.fire_entered_step);
    assert_eq!(step_plan(StepKind::Upkeep, true).action, StepAction::Nothing);
}

#[test]
fn vigilance_attacker_stays_untapped() {
    let mut a = AttackerView { tapped: false, attacking: false, attack_target: None };
    declare_attacker(&mut a, true, Some(7));
    assert!(a.attacking);
    assert!(!a.tapped);
    assert_eq!(a.attack_target, Some(7));
    let mut b = AttackerView { tapped: false, attacking: false, attack_target: None };
    declare_attacker(&mut b, false, None);
    assert!(b.tapped);
}

#[test]
fn cleanup_discards_down_to_seven() {
    assert_eq!(cleanup_discard_count(9, false), 2);
    assert_eq!(cleanup_discard_count(7, false), 0);
    assert_eq!(cleanup_discard_count(12, true), 0);
}

#[test]
fn effects_expire_at_their_point() {
    let all = vec![
        TimedEffect { id: 1, expiry: Expiry::EndOfTurn, controller: PlayerId::Us },
        TimedEffect { id: 2, expiry: Expiry::StartOfControllerNextTurn, controller: PlayerId::Us },
        TimedEffect { id: 3, expiry: Expiry::StartOfControllerNextTurn, controller: PlayerId::Opp },
        TimedEffect { id: 4, expiry: Expiry::Never, controller: PlayerId::Us },
    ];
    let mut at_cleanup = all.clone();
    expire_effects(&mut at_cleanup, ExpiryPoint::Cleanup);
    assert_eq!(at_cleanup.iter().map(|e| e.id).collect::<Vec<_>>(), vec![2, 3, 4]);
    let mut at_untap = all.clone();
    expire_effects(&mut at_untap, ExpiryPoint::UntapOf(PlayerId::Us));
    assert_eq!(at_untap.iter().map(|e| e.id).collect::<Vec<_>>(), vec![1, 3, 4]);
}
