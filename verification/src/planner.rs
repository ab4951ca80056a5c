//! Main-phase plan actions.
use vstd::prelude::*;

use crate::mana::{add_fits, fits_i32, spend_fits, spent, ManaCost, ManaPool};
use crate::potential::ManaAbility;
use crate::snapshot::registry::text_eq;
use crate::types::{Color, ObjId};

verus! {

/// An action the planner can consider during a main phase.
#[derive(Clone, Debug)]
pub enum PlanAction {
    /// Tap (or sacrifice) a mana source for mana.
    TapForMana { source_id: ObjId, ability_index: usize, color: Option<Color> },
    /// Cast a spell from hand.
    CastSpell(ObjId),
    /// Play a land from hand.
    LandDrop(ObjId),
    /// Crack a fetch land for a land from the library.
    CrackFetch { source_id: ObjId, target_id: ObjId },
}

impl PlanAction {
    /// A mana-tapping action, handled by the mana sub-loop.
    pub fn is_tap(&self) -> (r: bool)
        ensures
            r == (*self is TapForMana),
    {
        match self {
            PlanAction::TapForMana { .. } => true,
            _ => false,
        }
    }
}

/// The mana a spell adds when it resolves, for the spells known to add mana:
/// Dark Ritual adds three black.
pub fn spell_mana_production(name: &str) -> (r: Option<ManaPool>)
    ensures
        name@ == "Dark Ritual"@ ==> r == Some(ManaPool { w: 0, u: 0, b: 3, r: 0, g: 0, c: 0, total: 3 }),
        name@ != "Dark Ritual"@ ==> r is None,
{
    if text_eq(name, "Dark Ritual") {
        Some(ManaPool { w: 0, u: 0, b: 3, r: 0, g: 0, c: 0, total: 3 })
    } else {
        None
    }
}

/// The planner's snapshot of the turn-relevant state of one player.
pub struct TurnPlanState {
    /// Floating mana.
    pub pool: ManaPool,
    /// Permanents that are tapped, each listed once.
    pub tapped: Vec<ObjId>,
    /// Cards in hand.
    pub hand: Vec<ObjId>,
    /// The land drop of the turn was used.
    pub land_drop_used: bool,
    /// Spells cast during the plan.
    pub spells_cast: Vec<ObjId>,
    /// Cards that came onto the battlefield during the plan.
    pub new_battlefield: Vec<ObjId>,
    /// Permanents sacrificed during the plan, each listed once.
    pub sacrificed: Vec<ObjId>,
    /// Cards in the library, which fetches can find.
    pub library: Vec<ObjId>,
}

/// The model of a [`TurnPlanState`].
pub struct PlanView {
    pub pool: ManaPool,
    pub tapped: Seq<ObjId>,
    pub hand: Seq<ObjId>,
    pub land_drop_used: bool,
    pub spells_cast: Seq<ObjId>,
    pub new_battlefield: Seq<ObjId>,
    pub sacrificed: Seq<ObjId>,
    pub library: Seq<ObjId>,
}

impl View for TurnPlanState {
    type V = PlanView;

    open spec fn view(&self) -> PlanView {
        PlanView {
            pool: self.pool,
            tapped: self.tapped@,
            hand: self.hand@,
            land_drop_used: self.land_drop_used,
            spells_cast: self.spells_cast@,
            new_battlefield: self.new_battlefield@,
            sacrificed: self.sacrificed@,
            library: self.library@,
        }
    }
}

/// No identifier occurs twice.
pub open spec fn no_repeats(s: Seq<ObjId>) -> bool {
    forall|i: int, j: int| 0 <= i < j < s.len() ==> s[i] != s[j]
}

impl PlanView {
    /// The tapped and sacrificed permanents are sets.
    pub open spec fn wf(self) -> bool {
        no_repeats(self.tapped) && no_repeats(self.sacrificed)
    }
}

/// `s` with `x` added unless it is there already.
pub open spec fn set_add(s: Seq<ObjId>, x: ObjId) -> Seq<ObjId> {
    if s.contains(x) {
        s
    } else {
        s.push(x)
    }
}

/// `s` without the occurrences of `x`, in order.
pub open spec fn without(s: Seq<ObjId>, x: ObjId) -> Seq<ObjId>
    decreases s.len(),
{
    if s.len() == 0 {
        s
    } else {
        let rest = without(s.drop_last(), x);
        if s.last() == x {
            rest
        } else {
            rest.push(s.last())
        }
    }
}

/// `p` and `o` added counter by counter.
pub open spec fn pool_plus(p: ManaPool, o: ManaPool) -> ManaPool {
    ManaPool {
        w: (p.w + o.w) as i32,
        u: (p.u + o.u) as i32,
        b: (p.b + o.b) as i32,
        r: (p.r + o.r) as i32,
        g: (p.g + o.g) as i32,
        c: (p.c + o.c) as i32,
        total: (p.total + o.total) as i32,
    }
}

/// What one activation of `ma` adds, in `color` (colorless when `None`).
pub open spec fn tap_yield(ma: ManaAbility, color: Option<Color>) -> ManaPool {
    let k = ma.produces_count as i32;
    let z = ManaPool { w: 0, u: 0, b: 0, r: 0, g: 0, c: 0, total: k };
    match color {
        Some(Color::White) => ManaPool { w: k, ..z },
        Some(Color::Blue) => ManaPool { u: k, ..z },
        Some(Color::Black) => ManaPool { b: k, ..z },
        Some(Color::Red) => ManaPool { r: k, ..z },
        Some(Color::Green) => ManaPool { g: k, ..z },
        None => ManaPool { c: k, ..z },
    }
}

/// The mana Dark Ritual adds.
pub open spec fn ritual_mana() -> ManaPool {
    ManaPool { w: 0, u: 0, b: 3, r: 0, g: 0, c: 0, total: 3 }
}

/// The pool after paying `cost`, when there is one.
pub open spec fn pool_after_cost(p: ManaPool, cost: Option<ManaCost>) -> ManaPool {
    match cost {
        Some(c) => spent(p, c),
        None => p,
    }
}

/// The pool after casting a spell with mana cost `cost` (when known) and
/// catalog name `name`.
pub open spec fn pool_after_cast(p: ManaPool, cost: Option<ManaCost>, name: Seq<char>) -> ManaPool {
    let q = pool_after_cost(p, cost);
    if name == "Dark Ritual"@ {
        pool_plus(q, ritual_mana())
    } else {
        q
    }
}

/// The plan state after `action`. For `TapForMana`, `ability` is the mana
/// ability used, when the source has it; for `CastSpell`, `cost` is the
/// spell's mana cost, when the card is known, and `name` its catalog name.
pub open spec fn plan_after(
    v: PlanView,
    action: PlanAction,
    ability: Option<ManaAbility>,
    cost: Option<ManaCost>,
    name: Seq<char>,
) -> PlanView {
    match action {
        PlanAction::TapForMana { source_id, ability_index: _, color } => match ability {
            Some(ma) => PlanView {
                tapped: if ma.requires_tap {
                    set_add(v.tapped, source_id)
                } else {
                    v.tapped
                },
                sacrificed: if ma.requires_sac {
                    set_add(v.sacrificed, source_id)
                } else {
                    v.sacrificed
                },
                pool: pool_plus(v.pool, tap_yield(ma, color)),
                ..v
            },
            None => v,
        },
        PlanAction::CastSpell(card_id) => PlanView {
            pool: pool_after_cast(v.pool, cost, name),
            hand: without(v.hand, card_id),
            spells_cast: v.spells_cast.push(card_id),
            ..v
        },
        PlanAction::LandDrop(card_id) => PlanView {
            hand: without(v.hand, card_id),
            new_battlefield: v.new_battlefield.push(card_id),
            land_drop_used: true,
            ..v
        },
        PlanAction::CrackFetch { source_id, target_id } => PlanView {
            sacrificed: set_add(v.sacrificed, source_id),
            library: without(v.library, target_id),
            new_battlefield: v.new_battlefield.push(target_id),
            ..v
        },
    }
}

/// The mana arithmetic of `action` stays in `i32`.
pub open spec fn plan_action_fits(
    v: PlanView,
    action: PlanAction,
    ability: Option<ManaAbility>,
    cost: Option<ManaCost>,
    name: Seq<char>,
) -> bool {
    match action {
        PlanAction::TapForMana { color, .. } => match ability {
            Some(ma) => add_fits(v.pool, tap_yield(ma, color)),
            None => true,
        },
        PlanAction::CastSpell(_) => {
            &&& (match cost {
                Some(c) => spend_fits(v.pool, c),
                None => true,
            })
            &&& (name == "Dark Ritual"@ ==> add_fits(pool_after_cost(v.pool, cost), ritual_mana()))
        },
        _ => true,
    }
}

pub open spec fn owned(o: Option<&ManaAbility>) -> Option<ManaAbility> {
    match o {
        Some(a) => Some(*a),
        None => None,
    }
}

fn copy_ids(v: &Vec<ObjId>) -> (r: Vec<ObjId>)
    ensures
        r@ == v@,
{
    let mut r: Vec<ObjId> = Vec::new();
    for i in 0..v.len()
        invariant
            r@ == v@.take(i as int),
    {
        r.push(v[i]);
        proof {
            assert(v@.take(i + 1) =~= v@.take(i as int).push(v@[i as int]));
        }
    }
    proof {
        assert(v@.take(v@.len() as int) =~= v@);
    }
    r
}

fn ids_without(v: &Vec<ObjId>, x: ObjId) -> (r: Vec<ObjId>)
    ensures
        r@ == without(v@, x),
{
    let mut r: Vec<ObjId> = Vec::new();
    for i in 0..v.len()
        invariant
            r@ == without(v@.take(i as int), x),
    {
        proof {
            assert(v@.take(i + 1).drop_last() =~= v@.take(i as int));
        }
        if v[i] != x {
            r.push(v[i]);
        }
    }
    proof {
        assert(v@.take(v@.len() as int) =~= v@);
    }
    r
}

fn set_insert(v: &mut Vec<ObjId>, x: ObjId)
    ensures
        final(v)@ == set_add(old(v)@, x),
{
    let mut found = false;
    for i in 0..v.len()
        invariant
            found == v@.take(i as int).contains(x),
    {
        proof {
            let before = v@.take(i as int);
            let after = v@.take(i + 1);
            assert(after =~= before.push(v@[i as int]));
            if before.contains(x) {
                let k = choose|k: int| 0 <= k < before.len() && before[k] == x;
                assert(after[k] == x);
            }
            assert(after[i as int] == v@[i as int]);
            if after.contains(x) {
                let k = choose|k: int| 0 <= k < after.len() && after[k] == x;
                if k < i {
                    assert(before[k] == x);
                }
            }
        }
        if v[i] == x {
            found = true;
        }
    }
    proof {
        assert(v@.take(v@.len() as int) =~= v@);
    }
    if !found {
        v.push(x);
    }
}

/// The plan state after `action`. `ability` is, for `TapForMana`, the
/// source's mana ability at the action's index, if there is one; `cost` and
/// `name` are, for `CastSpell`, the spell's mana cost, if the card is known,
/// and its catalog name.
pub fn apply_plan_action(
    plan: &TurnPlanState,
    action: &PlanAction,
    ability: Option<&ManaAbility>,
    cost: Option<ManaCost>,
    name: &str,
) -> (next: TurnPlanState)
    requires
        plan_action_fits(plan@, *action, owned(ability), cost, name@),
    ensures
        next@ == plan_after(plan@, *action, owned(ability), cost, name@),
        plan@.wf() ==> next@.wf(),
{
    let mut next = TurnPlanState {
        pool: ManaPool {
            w: plan.pool.w,
            u: plan.pool.u,
            b: plan.pool.b,
            r: plan.pool.r,
            g: plan.pool.g,
            c: plan.pool.c,
            total: plan.pool.total,
        },
        tapped: copy_ids(&plan.tapped),
        hand: copy_ids(&plan.hand),
        land_drop_used: plan.land_drop_used,
        spells_cast: copy_ids(&plan.spells_cast),
        new_battlefield: copy_ids(&plan.new_battlefield),
        sacrificed: copy_ids(&plan.sacrificed),
        library: copy_ids(&plan.library),
    };
    assert(next@ == plan@);
    match action {
        PlanAction::TapForMana { source_id, ability_index: _, color } => {
            if let Some(ma) = ability {
                if ma.requires_tap {
                    set_insert(&mut next.tapped, *source_id);
                }
                if ma.requires_sac {
                    set_insert(&mut next.sacrificed, *source_id);
                }
                let count = #[verifier::truncate] (ma.produces_count as i32);
                next.pool.total = next.pool.total + count;
                match color {
                    Some(Color::White) => next.pool.w = next.pool.w + count,
                    Some(Color::Blue) => next.pool.u = next.pool.u + count,
                    Some(Color::Black) => next.pool.b = next.pool.b + count,
                    Some(Color::Red) => next.pool.r = next.pool.r + count,
                    Some(Color::Green) => next.pool.g = next.pool.g + count,
                    None => next.pool.c = next.pool.c + count,
                }
            }
        },
        PlanAction::CastSpell(card_id) => {
            if let Some(c) = cost {
                next.pool.spend(&c);
            }
            next.hand = ids_without(&plan.hand, *card_id);
            next.spells_cast.push(*card_id);
            if let Some(production) = spell_mana_production(name) {
                next.pool.add(&production);
            }
        },
        PlanAction::LandDrop(card_id) => {
            next.hand = ids_without(&plan.hand, *card_id);
            next.new_battlefield.push(*card_id);
            next.land_drop_used = true;
        },
        PlanAction::CrackFetch { source_id, target_id } => {
            set_insert(&mut next.sacrificed, *source_id);
            next.library = ids_without(&plan.library, *target_id);
            next.new_battlefield.push(*target_id);
        },
    }
    next
}

/// `without(s, x)` holds every element of `s` but `x`, and not `x`.
pub proof fn lemma_without_contains(s: Seq<ObjId>, x: ObjId, y: ObjId)
    ensures
        without(s, x).contains(y) == (s.contains(y) && y != x),
    decreases s.len(),
{
    if s.len() > 0 {
        let init = s.drop_last();
        lemma_without_contains(init, x, y);
        let rest = without(init, x);
        assert(s =~= init.push(s.last()));
        if init.contains(y) {
            let k = choose|k: int| 0 <= k < init.len() && init[k] == y;
            assert(s[k] == y);
        }
        if s.contains(y) {
            let k = choose|k: int| 0 <= k < s.len() && s[k] == y;
            if k < init.len() {
                assert(init[k] == y);
            }
        }
        if s.last() != x {
            assert(rest.push(s.last())[rest.len() as int] == s.last());
            if rest.contains(y) {
                let k = choose|k: int| 0 <= k < rest.len() && rest[k] == y;
                assert(rest.push(s.last())[k] == y);
            }
            if rest.push(s.last()).contains(y) {
                let k = choose|k: int| 0 <= k < rest.len() + 1 && rest.push(s.last())[k] == y;
                if k < rest.len() {
                    assert(rest[k] == y);
                }
            }
        }
    }
}

/// Casting a spell or playing a land takes that card, and only that card,
/// out of the hand; the other plan actions leave the hand as it was.
pub proof fn lemma_plan_hand(
    v: PlanView,
    action: PlanAction,
    ability: Option<ManaAbility>,
    cost: Option<ManaCost>,
    name: Seq<char>,
    y: ObjId,
)
    ensures
        ({
            let after = plan_after(v, action, ability, cost, name).hand;
            match action {
                PlanAction::CastSpell(id) => after.contains(y) == (v.hand.contains(y) && y != id),
                PlanAction::LandDrop(id) => after.contains(y) == (v.hand.contains(y) && y != id),
                _ => after == v.hand,
            }
        }),
{
    match action {
        PlanAction::CastSpell(id) => lemma_without_contains(v.hand, id, y),
        PlanAction::LandDrop(id) => lemma_without_contains(v.hand, id, y),
        _ => {},
    }
}


/// Tapping for mana of a chosen color adds the ability's mana count to that
/// color's counter (to the colorless counter when no color is chosen) and
/// to the total, and leaves every other counter as it was; the cards in
/// hand, the spells cast and the land drop do not change.
pub proof fn lemma_tap_for_mana_adds_chosen_color(
    v: PlanView,
    source_id: ObjId,
    ability_index: usize,
    color: Option<Color>,
    ma: ManaAbility,
    cost: Option<ManaCost>,
    name: Seq<char>,
)
    requires
        ma.produces_count <= i32::MAX,
        v.pool.w + ma.produces_count <= i32::MAX,
        v.pool.u + ma.produces_count <= i32::MAX,
        v.pool.b + ma.produces_count <= i32::MAX,
        v.pool.r + ma.produces_count <= i32::MAX,
        v.pool.g + ma.produces_count <= i32::MAX,
        v.pool.c + ma.produces_count <= i32::MAX,
        v.pool.total + ma.produces_count <= i32::MAX,
    ensures
        ({
            let n = plan_after(
                v,
                PlanAction::TapForMana { source_id, ability_index, color },
                Some(ma),
                cost,
                name,
            );
            let k = ma.produces_count as int;
            &&& n.pool.w == v.pool.w + (if color == Some(Color::White) { k } else { 0 })
            &&& n.pool.u == v.pool.u + (if color == Some(Color::Blue) { k } else { 0 })
            &&& n.pool.b == v.pool.b + (if color == Some(Color::Black) { k } else { 0 })
            &&& n.pool.r == v.pool.r + (if color == Some(Color::Red) { k } else { 0 })
            &&& n.pool.g == v.pool.g + (if color == Some(Color::Green) { k } else { 0 })
            &&& n.pool.c == v.pool.c + (if color is None { k } else { 0 })
            &&& n.pool.total == v.pool.total + k
            &&& n.hand == v.hand
            &&& n.spells_cast == v.spells_cast
            &&& n.land_drop_used == v.land_drop_used
        }),
{
}


proof fn lemma_without_members(s: Seq<ObjId>, x: ObjId)
    ensures
        forall|y: ObjId| #[trigger] without(s, x).contains(y) <==> (s.contains(y) && y != x),
    decreases s.len(),
{
    if s.len() > 0 {
        let d = s.drop_last();
        lemma_without_members(d, x);
        let rest = without(d, x);
        assert forall|y: ObjId| #[trigger] without(s, x).contains(y) <==> (s.contains(y) && y != x) by {
            assert(s =~= d.push(s.last()));
            if without(s, x).contains(y) {
                let j = choose|j: int| 0 <= j < without(s, x).len() && without(s, x)[j] == y;
                if j < rest.len() {
                    assert(rest[j] == y);
                    assert(rest.contains(y));
                    let q = choose|q: int| 0 <= q < d.len() && d[q] == y;
                    assert(s[q] == y);
                } else {
                    assert(s[s.len() - 1] == y);
                }
            }
            if s.contains(y) && y != x {
                let q = choose|q: int| 0 <= q < s.len() && s[q] == y;
                if q < d.len() {
                    assert(d[q] == y);
                    assert(d.contains(y));
                    assert(rest.contains(y));
                    let j = choose|j: int| 0 <= j < rest.len() && rest[j] == y;
                    assert(without(s, x)[j] == y);
                } else {
                    assert(without(s, x) == rest.push(y));
                    assert(without(s, x)[rest.len() as int] == y);
                }
            }
        }
    }
}

/// What the non-mana actions of the plan do. A land drop uses the turn's
/// land drop and moves the land from hand to the battlefield; casting a
/// spell takes it out of hand and records it as cast; cracking a fetch
/// sacrifices it and moves the fetched land from the library to the
/// battlefield. Tapping for mana taps its source when the ability taps and
/// sacrifices it when the ability sacrifices. The floating mana changes only
/// by tapping for mana or casting.
pub proof fn lemma_plan_moves(
    v: PlanView,
    action: PlanAction,
    ability: Option<ManaAbility>,
    cost: Option<ManaCost>,
    name: Seq<char>,
)
    ensures
        ({
            let n = plan_after(v, action, ability, cost, name);
            &&& (action matches PlanAction::LandDrop(id) ==> n.land_drop_used && n.new_battlefield == v.new_battlefield.push(
                id,
            ) && !n.hand.contains(id) && n.pool == v.pool && (forall|y: ObjId|
                y != id ==> (#[trigger] n.hand.contains(y) == v.hand.contains(y))))
            &&& (action matches PlanAction::CastSpell(id) ==> n.spells_cast == v.spells_cast.push(id) && !n.hand.contains(
                id,
            ) && n.land_drop_used == v.land_drop_used && (forall|y: ObjId|
                y != id ==> (#[trigger] n.hand.contains(y) == v.hand.contains(y))))
            &&& (action matches PlanAction::CrackFetch { source_id, target_id } ==> n.sacrificed.contains(source_id)
                && !n.library.contains(target_id) && n.new_battlefield == v.new_battlefield.push(target_id)
                && n.pool == v.pool && n.hand == v.hand)
            &&& (action matches PlanAction::TapForMana { source_id, .. } ==> (ability matches Some(ma) ==> (
            ma.requires_tap ==> n.tapped.contains(source_id)) && (ma.requires_sac ==> n.sacrificed.contains(
                source_id,
            ))) && n.hand == v.hand)
        }),
{
    match action {
        PlanAction::LandDrop(id) => {
            lemma_without_members(v.hand, id);
        },
        PlanAction::CastSpell(id) => {
            lemma_without_members(v.hand, id);
        },
        PlanAction::CrackFetch { source_id, target_id } => {
            lemma_without_members(v.library, target_id);
            if !v.sacrificed.contains(source_id) {
                assert(v.sacrificed.push(source_id)[v.sacrificed.len() as int] == source_id);
            }
        },
        PlanAction::TapForMana { source_id, .. } => {
            if !v.tapped.contains(source_id) {
                assert(v.tapped.push(source_id)[v.tapped.len() as int] == source_id);
            }
            if !v.sacrificed.contains(source_id) {
                assert(v.sacrificed.push(source_id)[v.sacrificed.len() as int] == source_id);
            }
        },
    }
}

/// Dark Ritual adds three black mana once its cost is paid: with no cost
/// to pay, black and the total go up by three and nothing else changes.
pub proof fn lemma_dark_ritual(p: ManaPool)
    requires
        p.b + 3 <= i32::MAX,
        p.total + 3 <= i32::MAX,
    ensures
        ({
            let q = pool_after_cast(p, None, "Dark Ritual"@);
            &&& q.b == p.b + 3
            &&& q.total == p.total + 3
            &&& q.w == p.w && q.u == p.u && q.r == p.r && q.g == p.g && q.c == p.c
        }),
{
}

} // verus!
