//! The automatic parts of the turn's steps: untapping (with stun
//! counters), the skipped first draw, and the legal blocks grouped by
//! attacker in damage-assignment order.
use vstd::prelude::*;
use crate::combat::DamageStepKind;
use crate::types::{Expiry, PlayerId, StepKind};

verus! {

/// What the untap step reads and writes of a permanent.
#[derive(Clone, Copy, PartialEq, Eq, Debug)]
pub struct UntapView {
    pub tapped: bool,
    pub stun_counters: u32,
    pub entered_this_turn: bool,
    pub pw_activated_this_turn: bool,
}

/// A permanent after its controller's untap step: a stun counter on a
/// tapped permanent is removed instead of untapping it (rule 122.1d);
/// otherwise it untaps. Either way it no longer counts as having entered
/// this turn, and its loyalty ability may be activated again.
pub open spec fn untapped(p: UntapView) -> UntapView {
    if p.stun_counters > 0 && p.tapped {
        UntapView {
            tapped: true,
            stun_counters: (p.stun_counters - 1) as u32,
            entered_this_turn: false,
            pw_activated_this_turn: false,
        }
    } else {
        UntapView {
            tapped: false,
            stun_counters: p.stun_counters,
            entered_this_turn: false,
            pw_activated_this_turn: false,
        }
    }
}

/// The untap step over the active player's permanents.
pub fn untap_step(perms: &mut Vec<UntapView>)
    ensures
        final(perms)@.len() == old(perms)@.len(),
        forall|i: int| 0 <= i < old(perms)@.len() ==> #[trigger] final(perms)@[i] == untapped(old(perms)@[i]),
{
    let n = perms.len();
    let mut i: usize = 0;
    while i < n
        invariant
            n == old(perms)@.len(),
            perms@.len() == n,
            i <= n,
            forall|j: int| 0 <= j < i ==> #[trigger] perms@[j] == untapped(old(perms)@[j]),
            forall|j: int| i <= j < n ==> #[trigger] perms@[j] == old(perms)@[j],
        decreases n - i,
    {
        let p = perms[i];
        let q = if p.stun_counters > 0 && p.tapped {
            UntapView {
                tapped: true,
                stun_counters: p.stun_counters - 1,
                entered_this_turn: false,
                pw_activated_this_turn: false,
            }
        } else {
            UntapView {
                tapped: false,
                stun_counters: p.stun_counters,
                entered_this_turn: false,
                pw_activated_this_turn: false,
            }
        };
        perms.set(i, q);
        i = i + 1;
    }
}

/// Rule 103.8a: the player who plays first skips the draw of their first
/// turn. `on_play` says whether we play first.
pub fn draw_skipped(ap: PlayerId, on_play: bool, turn: u8) -> (r: bool)
    ensures
        r == ((if ap == PlayerId::Us { on_play } else { !on_play }) && turn == 1),
{
    let this_player_on_play = match ap {
        PlayerId::Us => on_play,
        PlayerId::Opp => !on_play,
    };
    this_player_on_play && turn == 1
}

/// The attacker is protected from the blocker: it cannot be blocked by it.
pub open spec fn protected_pair(prot: Seq<(u64, u64)>, atk: u64, blk: u64) -> bool {
    exists|i: int| 0 <= i < prot.len() && prot[i] == (atk, blk)
}

/// The first `n` declared blocks, less those of an attacker protected
/// from its blocker.
pub open spec fn legal_blocks_spec(blocks: Seq<(u64, u64)>, prot: Seq<(u64, u64)>, n: int) -> Seq<(u64, u64)>
    decreases n,
{
    if n <= 0 {
        Seq::empty()
    } else {
        let prev = legal_blocks_spec(blocks, prot, n - 1);
        if protected_pair(prot, blocks[n - 1].0, blocks[n - 1].1) {
            prev
        } else {
            prev.push(blocks[n - 1])
        }
    }
}

/// The declared blocks that are legal, in declaration order.
pub fn legal_blocks(blocks: &Vec<(u64, u64)>, protections: &Vec<(u64, u64)>) -> (r: Vec<(u64, u64)>)
    ensures
        r@ == legal_blocks_spec(blocks@, protections@, blocks@.len() as int),
{
    let mut r: Vec<(u64, u64)> = Vec::new();
    let mut i: usize = 0;
    while i < blocks.len()
        invariant
            i <= blocks@.len(),
            r@ == legal_blocks_spec(blocks@, protections@, i as int),
        decreases blocks@.len() - i,
    {
        let (a, b) = blocks[i];
        let mut found = false;
        let mut j: usize = 0;
        while j < protections.len()
            invariant
                j <= protections@.len(),
                found == exists|q: int| 0 <= q < j && protections@[q] == (a, b),
            decreases protections@.len() - j,
        {
            if protections[j].0 == a && protections[j].1 == b {
                assert(protections@[j as int] == (a, b));
                found = true;
            }
            j = j + 1;
        }
        if !found {
            r.push((a, b));
        }
        i = i + 1;
    }
    r
}

/// The group of `atk` among `groups`, or -1.
pub open spec fn group_index(groups: Seq<(u64, Seq<u64>)>, atk: u64) -> int {
    if exists|g: int| 0 <= g < groups.len() && groups[g].0 == atk {
        choose|g: int| 0 <= g < groups.len() && groups[g].0 == atk
    } else {
        -1
    }
}

/// The first `n` blocks grouped by attacker: attackers in the order they
/// first block, each with its blockers in declaration order.
pub open spec fn groups_spec(blocks: Seq<(u64, u64)>, n: int) -> Seq<(u64, Seq<u64>)>
    decreases n,
{
    if n <= 0 {
        Seq::empty()
    } else {
        let prev = groups_spec(blocks, n - 1);
        let (a, b) = blocks[n - 1];
        let g = group_index(prev, a);
        if g >= 0 {
            prev.update(g, (a, prev[g].1.push(b)))
        } else {
            prev.push((a, seq![b]))
        }
    }
}

proof fn lemma_groups_distinct(blocks: Seq<(u64, u64)>, n: int)
    requires
        0 <= n <= blocks.len(),
    ensures
        forall|g: int, h: int|
            0 <= g < h < groups_spec(blocks, n).len() ==> groups_spec(blocks, n)[g].0 != groups_spec(
                blocks,
                n,
            )[h].0,
    decreases n,
{
    if n > 0 {
        lemma_groups_distinct(blocks, n - 1);
        let prev = groups_spec(blocks, n - 1);
        let a = blocks[n - 1].0;
        let cur = groups_spec(blocks, n);
        let gi = group_index(prev, a);
        if gi >= 0 {
            assert(prev[gi].0 == a);
            assert forall|g: int, h: int| 0 <= g < h < cur.len() implies cur[g].0 != cur[h].0 by {
                assert(cur[g].0 == prev[g].0);
                assert(cur[h].0 == prev[h].0);
            }
        } else {
            assert forall|g: int, h: int| 0 <= g < h < cur.len() implies cur[g].0 != cur[h].0 by {
                assert(cur[g].0 == prev[g].0);
                if h == prev.len() {
                    assert(cur[h].0 == a);
                    assert(!(0 <= g < prev.len() && prev[g].0 == a));
                } else {
                    assert(cur[h].0 == prev[h].0);
                }
            }
        }
    }
}

pub open spec fn groups_view(groups: Seq<(u64, Vec<u64>)>) -> Seq<(u64, Seq<u64>)> {
    groups.map_values(|p: (u64, Vec<u64>)| (p.0, p.1@))
}

/// The blocks grouped by attacker, attackers in the order they first
/// block, each with its blockers in declaration order (rule 509.1h: the
/// attacking player then orders each group of two or more).
pub fn group_blocks(blocks: &Vec<(u64, u64)>) -> (r: Vec<(u64, Vec<u64>)>)
    ensures
        groups_view(r@) == groups_spec(blocks@, blocks@.len() as int),
{
    let mut r: Vec<(u64, Vec<u64>)> = Vec::new();
    let mut i: usize = 0;
    while i < blocks.len()
        invariant
            i <= blocks@.len(),
            groups_view(r@) == groups_spec(blocks@, i as int),
        decreases blocks@.len() - i,
    {
        let (a, b) = blocks[i];
        proof {
            lemma_groups_distinct(blocks@, i as int);
        }
        let ghost prev = groups_spec(blocks@, i as int);
        let mut g: usize = 0;
        let mut found = false;
        while g < r.len() && !found
            invariant
                g <= r@.len(),
                groups_view(r@) == prev,
                found ==> g < r@.len() && prev[g as int].0 == a,
                forall|h: int| 0 <= h < g ==> (#[trigger] prev[h]).0 != a,
            decreases r@.len() - g + (if found { 0int } else { 1int }),
        {
            if r[g].0 == a {
                found = true;
            } else {
                g = g + 1;
            }
        }
        if found {
            proof {
                assert(prev[g as int].0 == a);
                let c = choose|c: int| 0 <= c < prev.len() && prev[c].0 == a;
                if c != g {
                    assert(prev[c].0 != prev[g as int].0);
                }
            }
            let (ga, mut gb) = r.remove(g);
            gb.push(b);
            r.insert(g, (ga, gb));
            proof {
                assert(groups_view(r@) =~= prev.update(g as int, (a, prev[g as int].1.push(b))));
            }
        } else {
            proof {
                assert(group_index(prev, a) == -1);
            }
            let mut gb: Vec<u64> = Vec::new();
            gb.push(b);
            r.push((a, gb));
            proof {
                assert(gb@ =~= seq![b]);
                assert(groups_view(r@) =~= prev.push((a, seq![b])));
            }
        }
        i = i + 1;
    }
    r
}


/// An ordering the attacking player proposes is used when it has as many
/// blockers as the group and the same blockers.
pub open spec fn order_used(bs: Seq<u64>, chosen: Seq<u64>) -> Seq<u64> {
    if bs.len() >= 2 && chosen.len() == bs.len() && chosen.to_set() == bs.to_set() {
        chosen
    } else {
        bs
    }
}

/// The first `n` groups, each in the order used, as (attacker, blocker)
/// pairs.
pub open spec fn ordered_blocks_spec(groups: Seq<(u64, Seq<u64>)>, answers: Seq<Seq<u64>>, n: int) -> Seq<(u64, u64)>
    decreases n,
{
    if n <= 0 {
        Seq::empty()
    } else {
        let a = groups[n - 1].0;
        ordered_blocks_spec(groups, answers, n - 1) + order_used(groups[n - 1].1, answers[n - 1]).map_values(
            |b: u64| (a, b),
        )
    }
}

fn contains_id(v: &Vec<u64>, x: u64) -> (r: bool)
    ensures
        r == v@.contains(x),
{
    let mut i: usize = 0;
    while i < v.len()
        invariant
            i <= v@.len(),
            forall|j: int| 0 <= j < i ==> v@[j] != x,
        decreases v@.len() - i,
    {
        if v[i] == x {
            assert(v@[i as int] == x);
            return true;
        }
        i = i + 1;
    }
    false
}

fn all_in(v: &Vec<u64>, w: &Vec<u64>) -> (r: bool)
    ensures
        r == forall|j: int| 0 <= j < v@.len() ==> w@.contains(#[trigger] v@[j]),
{
    let mut i: usize = 0;
    while i < v.len()
        invariant
            i <= v@.len(),
            forall|j: int| 0 <= j < i ==> w@.contains(#[trigger] v@[j]),
        decreases v@.len() - i,
    {
        if !contains_id(w, v[i]) {
            return false;
        }
        i = i + 1;
    }
    true
}

/// The blocks in damage-assignment order: for each group, the attacking
/// player's ordering (`answers`, one per group, asked for groups of two or
/// more) when it is a reordering of the group's blockers, else the
/// declaration order.
pub fn apply_block_order(groups: &Vec<(u64, Vec<u64>)>, answers: &Vec<Vec<u64>>) -> (r: Vec<(u64, u64)>)
    requires
        answers@.len() == groups@.len(),
    ensures
        r@ == ordered_blocks_spec(
            groups_view(groups@),
            answers@.map_values(|v: Vec<u64>| v@),
            groups@.len() as int,
        ),
{
    let ghost gv = groups_view(groups@);
    let ghost av = answers@.map_values(|v: Vec<u64>| v@);
    let mut r: Vec<(u64, u64)> = Vec::new();
    let mut g: usize = 0;
    while g < groups.len()
        invariant
            g <= groups@.len(),
            answers@.len() == groups@.len(),
            gv == groups_view(groups@),
            av == answers@.map_values(|v: Vec<u64>| v@),
            r@ == ordered_blocks_spec(gv, av, g as int),
        decreases groups@.len() - g,
    {
        let a = groups[g].0;
        let bs = &groups[g].1;
        let chosen = &answers[g];
        assert(gv[g as int].1 == bs@);
        assert(av[g as int] == chosen@);
        let same = chosen.len() == bs.len() && all_in(chosen, bs) && all_in(bs, chosen);
        proof {
            if chosen@.len() == bs@.len() && chosen@.to_set() == bs@.to_set() {
                assert forall|j: int| 0 <= j < chosen@.len() implies bs@.contains(#[trigger] chosen@[j]) by {
                    assert(chosen@.to_set().contains(chosen@[j]));
                }
                assert forall|j: int| 0 <= j < bs@.len() implies chosen@.contains(#[trigger] bs@[j]) by {
                    assert(bs@.to_set().contains(bs@[j]));
                }
            }
            if same {
                assert forall|x: u64| chosen@.to_set().contains(x) == bs@.to_set().contains(x) by {
                    if chosen@.contains(x) {
                        let j = choose|j: int| 0 <= j < chosen@.len() && chosen@[j] == x;
                        assert(bs@.contains(chosen@[j]));
                    }
                    if bs@.contains(x) {
                        let j = choose|j: int| 0 <= j < bs@.len() && bs@[j] == x;
                        assert(chosen@.contains(bs@[j]));
                    }
                }
                assert(chosen@.to_set() =~= bs@.to_set());
            }
        }
        let use_chosen = bs.len() >= 2 && same;
        let src = if use_chosen {
            chosen
        } else {
            bs
        };
        assert(src@ == order_used(bs@, chosen@));
        let ghost before = r@;
        let mut k: usize = 0;
        while k < src.len()
            invariant
                k <= src@.len(),
                r@ == before + src@.take(k as int).map_values(|b: u64| (a, b)),
            decreases src@.len() - k,
        {
            r.push((a, src[k]));
            proof {
                assert(src@.take(k + 1).map_values(|b: u64| (a, b)) =~= src@.take(k as int).map_values(
                    |b: u64| (a, b),
                ).push((a, src@[k as int])));
            }
            k = k + 1;
        }
        proof {
            assert(src@.take(src@.len() as int) =~= src@);
            assert(gv[g as int].0 == a);
        }
        g = g + 1;
    }
    r
}


/// The automatic action of a step, before anyone gets priority.
#[derive(Clone, Copy, PartialEq, Eq, Debug)]
pub enum StepAction {
    Nothing,
    /// Untap the active player's permanents and reset their turn counters.
    Untap,
    /// Draw, unless the first player's first draw is skipped.
    Draw,
    /// Discard to hand size, remove damage, expire end-of-turn effects.
    Cleanup,
    /// Ask for attackers and mark them; fires the attack triggers and the
    /// step's own event.
    DeclareAttackers,
    /// Ask for blocks, keep the legal ones, order them by attacker.
    DeclareBlockers,
    /// One combat-damage pass.
    CombatDamage(DamageStepKind),
    /// Combat ends: attackers and blocks are cleared.
    EndCombat,
}

/// What running a step does, in order: recompute continuous effects,
/// the automatic action, the event that the step began (for steps with
/// priority, except the declare-attackers step, which fires it itself once
/// attackers are marked), a priority round when the step has one, and
/// emptying both mana pools.
#[derive(Clone, Copy, PartialEq, Eq, Debug)]
pub struct StepPlan {
    pub action: StepAction,
    pub fire_entered_step: bool,
    pub priority_round: bool,
}

pub open spec fn step_action(kind: StepKind) -> StepAction {
    match kind {
        StepKind::Untap => StepAction::Untap,
        StepKind::Draw => StepAction::Draw,
        StepKind::Cleanup => StepAction::Cleanup,
        StepKind::DeclareAttackers => StepAction::DeclareAttackers,
        StepKind::DeclareBlockers => StepAction::DeclareBlockers,
        StepKind::FirstStrikeCombatDamage => StepAction::CombatDamage(DamageStepKind::FirstStrike),
        StepKind::CombatDamage => StepAction::CombatDamage(DamageStepKind::Regular),
        StepKind::EndCombat => StepAction::EndCombat,
        StepKind::Upkeep | StepKind::BeginCombat | StepKind::End => StepAction::Nothing,
    }
}

/// The plan of a step of kind `kind`; `prio` says whether players get
/// priority in it.
pub fn step_plan(kind: StepKind, prio: bool) -> (r: StepPlan)
    ensures
        r.action == step_action(kind),
        r.fire_entered_step == (prio && kind != StepKind::DeclareAttackers),
        r.priority_round == prio,
{
    let action = match kind {
        StepKind::Untap => StepAction::Untap,
        StepKind::Draw => StepAction::Draw,
        StepKind::Cleanup => StepAction::Cleanup,
        StepKind::DeclareAttackers => StepAction::DeclareAttackers,
        StepKind::DeclareBlockers => StepAction::DeclareBlockers,
        StepKind::FirstStrikeCombatDamage => StepAction::CombatDamage(DamageStepKind::FirstStrike),
        StepKind::CombatDamage => StepAction::CombatDamage(DamageStepKind::Regular),
        StepKind::EndCombat => StepAction::EndCombat,
        StepKind::Upkeep | StepKind::BeginCombat | StepKind::End => StepAction::Nothing,
    };
    let is_declare_attackers = match kind {
        StepKind::DeclareAttackers => true,
        _ => false,
    };
    StepPlan { action, fire_entered_step: prio && !is_declare_attackers, priority_round: prio }
}

/// What declaring an attacker changes on it: it attacks what was chosen
/// and taps, unless it has vigilance (rule 702.20).
#[derive(Clone, Copy, PartialEq, Eq, Debug)]
pub struct AttackerView {
    pub tapped: bool,
    pub attacking: bool,
    pub attack_target: Option<u64>,
}

pub fn declare_attacker(a: &mut AttackerView, vigilance: bool, target: Option<u64>)
    ensures
        final(a).attacking,
        final(a).tapped == (old(a).tapped || !vigilance),
        final(a).attack_target == target,
{
    a.attacking = true;
    if !vigilance {
        a.tapped = true;
    }
    a.attack_target = target;
}


/// Rule 514.1: how many cards the active player discards in the cleanup
/// step: down to seven, unless they have no maximum hand size. The cards
/// discarded are the first that many of the hand.
pub fn cleanup_discard_count(hand_size: usize, no_max_hand_size: bool) -> (r: usize)
    ensures
        r == (if no_max_hand_size || hand_size <= 7 {
            0
        } else {
            hand_size - 7
        }),
{
    if no_max_hand_size || hand_size <= 7 {
        0
    } else {
        hand_size - 7
    }
}

/// When effects are checked for expiry.
#[derive(Clone, Copy, PartialEq, Eq, Debug)]
pub enum ExpiryPoint {
    /// The untap step of player `ap`.
    UntapOf(PlayerId),
    /// The cleanup step.
    Cleanup,
}

/// An effect with a lifetime: when it expires and who controls it.
#[derive(Clone, Copy, PartialEq, Debug)]
pub struct TimedEffect {
    pub id: u64,
    pub expiry: Expiry,
    pub controller: PlayerId,
}

/// Whether an effect ends at `at`: "until your next turn" effects at the
/// start of their controller's untap step, "until end of turn" effects in
/// the cleanup step.
pub open spec fn expires_at(e: TimedEffect, at: ExpiryPoint) -> bool {
    match at {
        ExpiryPoint::UntapOf(ap) => e.expiry == Expiry::StartOfControllerNextTurn && e.controller == ap,
        ExpiryPoint::Cleanup => e.expiry == Expiry::EndOfTurn,
    }
}

/// The first `n` effects that do not end at `at`, in order.
pub open spec fn kept_effects(es: Seq<TimedEffect>, at: ExpiryPoint, n: int) -> Seq<TimedEffect>
    decreases n,
{
    if n <= 0 {
        Seq::empty()
    } else if expires_at(es[n - 1], at) {
        kept_effects(es, at, n - 1)
    } else {
        kept_effects(es, at, n - 1).push(es[n - 1])
    }
}

/// Remove the effects that end at `at`, keeping the others in order.
pub fn expire_effects(effects: &mut Vec<TimedEffect>, at: ExpiryPoint)
    ensures
        final(effects)@ == kept_effects(old(effects)@, at, old(effects)@.len() as int),
{
    let mut kept: Vec<TimedEffect> = Vec::new();
    let mut i: usize = 0;
    while i < effects.len()
        invariant
            i <= effects@.len(),
            effects@ == old(effects)@,
            kept@ == kept_effects(effects@, at, i as int),
        decreases effects@.len() - i,
    {
        let e = effects[i];
        let ends = match at {
            ExpiryPoint::UntapOf(ap) => match e.expiry {
                Expiry::StartOfControllerNextTurn => e.controller == ap,
                _ => false,
            },
            ExpiryPoint::Cleanup => match e.expiry {
                Expiry::EndOfTurn => true,
                _ => false,
            },
        };
        if !ends {
            kept.push(e);
        }
        i = i + 1;
    }
    *effects = kept;
}


/// The two combat-damage steps run different passes (rules 510.4 and
/// 702.7b): a step runs a regular pass exactly when it is the combat-damage
/// step, and a first-strike pass exactly when it is the first-strike
/// combat-damage step; no other step deals combat damage.
pub proof fn lemma_damage_steps(kind: StepKind)
    ensures
        (step_action(kind) == StepAction::CombatDamage(DamageStepKind::Regular)) <==> kind == StepKind::CombatDamage,
        (step_action(kind) == StepAction::CombatDamage(DamageStepKind::FirstStrike)) <==> kind
            == StepKind::FirstStrikeCombatDamage,
        (step_action(kind) is CombatDamage) <==> (kind == StepKind::CombatDamage || kind
            == StepKind::FirstStrikeCombatDamage),
{
}


/// Rule 122.1d: in the untap step a tapped permanent with a stun counter
/// stays tapped and loses one stun counter; any other permanent untaps and
/// keeps its stun counters. Every permanent stops counting as having
/// entered this turn, and its loyalty abilities may be activated again.
pub proof fn lemma_untap_rules(p: UntapView)
    ensures
        p.tapped && p.stun_counters > 0 ==> untapped(p).tapped && untapped(p).stun_counters == p.stun_counters
            - 1,
        !(p.tapped && p.stun_counters > 0) ==> !untapped(p).tapped && untapped(p).stun_counters
            == p.stun_counters,
        !untapped(p).entered_this_turn,
        !untapped(p).pw_activated_this_turn,
{
}

proof fn lemma_legal_blocks_members(blocks: Seq<(u64, u64)>, prot: Seq<(u64, u64)>, n: int)
    requires
        0 <= n <= blocks.len(),
    ensures
        forall|x: (u64, u64)|
            #![trigger legal_blocks_spec(blocks, prot, n).contains(x)]
            legal_blocks_spec(blocks, prot, n).contains(x) <==> (blocks.take(n).contains(x) && !protected_pair(
                prot,
                x.0,
                x.1,
            )),
    decreases n,
{
    if n > 0 {
        lemma_legal_blocks_members(blocks, prot, n - 1);
        let prev = legal_blocks_spec(blocks, prot, n - 1);
        let cur = legal_blocks_spec(blocks, prot, n);
        assert(blocks.take(n) =~= blocks.take(n - 1).push(blocks[n - 1]));
        assert forall|x: (u64, u64)| cur.contains(x) <==> (blocks.take(n).contains(x) && !protected_pair(
            prot,
            x.0,
            x.1,
        )) by {
            if cur.contains(x) {
                let j = choose|j: int| 0 <= j < cur.len() && #[trigger] cur[j] == x;
                if j < prev.len() {
                    assert(prev[j] == x);
                    assert(prev.contains(x));
                    let q = choose|q: int| 0 <= q < blocks.take(n - 1).len() && #[trigger] blocks.take(n - 1)[q] == x;
                    assert(blocks.take(n)[q] == x);
                } else {
                    assert(blocks.take(n)[n - 1] == x);
                }
            }
            if blocks.take(n).contains(x) && !protected_pair(prot, x.0, x.1) {
                let q = choose|q: int| 0 <= q < blocks.take(n).len() && #[trigger] blocks.take(n)[q] == x;
                if q < n - 1 {
                    assert(blocks.take(n - 1)[q] == x);
                    assert(blocks.take(n - 1).contains(x));
                    assert(prev.contains(x));
                    let j = choose|j: int| 0 <= j < prev.len() && #[trigger] prev[j] == x;
                    assert(cur[j] == x);
                } else {
                    assert(blocks[n - 1] == x);
                    assert(cur == prev.push(x));
                    assert(cur[cur.len() - 1] == x);
                }
            }
        }
    } else {
        assert(blocks.take(0) =~= Seq::<(u64, u64)>::empty());
    }
}

/// The legal blocks are exactly the declared blocks whose attacker is not
/// protected from its blocker (rule 509.1b): no protected pair stays, and
/// no other pair is dropped or added.
pub proof fn lemma_legal_blocks(blocks: Seq<(u64, u64)>, prot: Seq<(u64, u64)>)
    ensures
        forall|x: (u64, u64)|
            #![trigger legal_blocks_spec(blocks, prot, blocks.len() as int).contains(x)]
            legal_blocks_spec(blocks, prot, blocks.len() as int).contains(x) <==> (blocks.contains(x)
                && !protected_pair(prot, x.0, x.1)),
{
    lemma_legal_blocks_members(blocks, prot, blocks.len() as int);
    assert(blocks.take(blocks.len() as int) =~= blocks);
}

proof fn lemma_kept_members(es: Seq<TimedEffect>, at: ExpiryPoint, n: int)
    requires
        0 <= n <= es.len(),
    ensures
        forall|x: TimedEffect|
            #![trigger kept_effects(es, at, n).contains(x)]
            kept_effects(es, at, n).contains(x) <==> (es.take(n).contains(x) && !expires_at(x, at)),
    decreases n,
{
    if n > 0 {
        lemma_kept_members(es, at, n - 1);
        let prev = kept_effects(es, at, n - 1);
        let cur = kept_effects(es, at, n);
        assert(es.take(n) =~= es.take(n - 1).push(es[n - 1]));
        assert forall|x: TimedEffect| cur.contains(x) <==> (es.take(n).contains(x) && !expires_at(x, at)) by {
            if cur.contains(x) {
                let j = choose|j: int| 0 <= j < cur.len() && #[trigger] cur[j] == x;
                if j < prev.len() {
                    assert(prev[j] == x);
                    assert(prev.contains(x));
                    let q = choose|q: int| 0 <= q < es.take(n - 1).len() && #[trigger] es.take(n - 1)[q] == x;
                    assert(es.take(n)[q] == x);
                } else {
                    assert(es.take(n)[n - 1] == x);
                }
            }
            if es.take(n).contains(x) && !expires_at(x, at) {
                let q = choose|q: int| 0 <= q < es.take(n).len() && #[trigger] es.take(n)[q] == x;
                if q < n - 1 {
                    assert(es.take(n - 1)[q] == x);
                    assert(es.take(n - 1).contains(x));
                    assert(prev.contains(x));
                    let j = choose|j: int| 0 <= j < prev.len() && #[trigger] prev[j] == x;
                    assert(cur[j] == x);
                } else {
                    assert(es[n - 1] == x);
                    assert(cur == prev.push(x));
                    assert(cur[cur.len() - 1] == x);
                }
            }
        }
    } else {
        assert(es.take(0) =~= Seq::<TimedEffect>::empty());
    }
}

/// Expiry removes exactly the effects that end at that point: at the
/// untap step of a player, the "until your next turn" effects that player
/// controls; in the cleanup step, the "until end of turn" effects. Every
/// other effect stays.
pub proof fn lemma_expiry(es: Seq<TimedEffect>, at: ExpiryPoint)
    ensures
        forall|x: TimedEffect|
            #![trigger kept_effects(es, at, es.len() as int).contains(x)]
            kept_effects(es, at, es.len() as int).contains(x) <==> (es.contains(x) && !(match at {
                ExpiryPoint::UntapOf(ap) => x.expiry == Expiry::StartOfControllerNextTurn && x.controller == ap,
                ExpiryPoint::Cleanup => x.expiry == Expiry::EndOfTurn,
            })),
{
    lemma_kept_members(es, at, es.len() as int);
    assert(es.take(es.len() as int) =~= es);
}


/// The attacking player's ordering of a group is a reordering of the
/// group's blockers or is not used: the order used holds as many blockers
/// as the group, and exactly the group's blockers; it follows the proposal
/// only for groups of two or more.
pub proof fn lemma_order_used(bs: Seq<u64>, chosen: Seq<u64>)
    ensures
        order_used(bs, chosen).len() == bs.len(),
        forall|x: u64| #[trigger] order_used(bs, chosen).contains(x) <==> bs.contains(x),
        bs.len() < 2 ==> order_used(bs, chosen) == bs,
{
    if bs.len() >= 2 && chosen.len() == bs.len() && chosen.to_set() == bs.to_set() {
        assert forall|x: u64| #[trigger] chosen.contains(x) <==> bs.contains(x) by {
            assert(chosen.to_set().contains(x) == chosen.contains(x));
            assert(bs.to_set().contains(x) == bs.contains(x));
        }
    }
}

} // verus!
