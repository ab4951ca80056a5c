//! Which mana sources to tap for a cost.
//!
//! The plan first takes from the cost what the pool already holds. It then
//! covers the colored pips, black, blue, white, red, green in turn, one
//! source per pip: the first unused battlefield source with a usable ability
//! that makes the color, else the first such source in hand. The generic
//! part comes last, from the first unused source with any usable ability; a
//! battlefield source counts for the amount its ability makes, a source in
//! hand for one. Colorless pips are not planned for.
use vstd::prelude::*;

use crate::game::{ManaAbilityOption, ManaActivation};
use crate::mana::{can_pay_spec, color_sum, fits_i32, ManaCost, ManaPool};
use crate::types::{ActivationTiming, Color, ObjId, SourceZone};

verus! {

/// A usable mana ability of a source.
pub struct TapAbility {
    /// Its index among the source's mana abilities.
    pub index: usize,
    /// The colors it can make.
    pub produces: Vec<Color>,
    /// How much mana it makes.
    pub produces_count: usize,
}

/// A source the plan may tap, with its usable mana abilities in order.
pub struct TapSource {
    pub id: ObjId,
    pub abilities: Vec<TapAbility>,
}

/// `a` can pay for `color` (any ability can pay generic mana).
pub open spec fn makes(a: TapAbility, color: Option<Color>) -> bool {
    match color {
        Some(c) => a.produces@.contains(c),
        None => true,
    }
}

/// The first ability from position `j` on that can pay for `color`.
pub open spec fn first_ability_from(abs: Seq<TapAbility>, color: Option<Color>, j: int) -> Option<int>
    decreases abs.len() - j,
{
    if j < 0 || j >= abs.len() {
        None
    } else if makes(abs[j], color) {
        Some(j)
    } else {
        first_ability_from(abs, color, j + 1)
    }
}

/// The first source from position `k` on that is not used yet and has an
/// ability that can pay for `color`, with that ability's position.
pub open spec fn first_source_from(
    srcs: Seq<TapSource>,
    used: Seq<ObjId>,
    color: Option<Color>,
    k: int,
) -> Option<(int, int)>
    decreases srcs.len() - k,
{
    if k < 0 || k >= srcs.len() {
        None
    } else if !used.contains(srcs[k].id) && first_ability_from(srcs[k].abilities@, color, 0) is Some {
        Some((k, first_ability_from(srcs[k].abilities@, color, 0)->0))
    } else {
        first_source_from(srcs, used, color, k + 1)
    }
}

/// The activations planned so far and the sources they use.
pub struct TapState {
    pub plan: Seq<ManaActivation>,
    pub used: Seq<ObjId>,
}

pub open spec fn activation(src: TapSource, a: int, color: Option<Color>) -> ManaActivation {
    ManaActivation { source_id: src.id, ability_index: src.abilities@[a].index, color_choice: color }
}

/// One more activation paying for `color`, and how much of the generic
/// part it covers; `None` when no source is left.
pub open spec fn tap_step(
    bf: Seq<TapSource>,
    hand: Seq<TapSource>,
    s: TapState,
    color: Option<Color>,
) -> Option<(TapState, int)> {
    match first_source_from(bf, s.used, color, 0) {
        Some((k, a)) => Some(
            (
                TapState { plan: s.plan.push(activation(bf[k], a, color)), used: s.used.push(bf[k].id) },
                (bf[k].abilities@[a].produces_count as i32) as int,
            ),
        ),
        None => match first_source_from(hand, s.used, color, 0) {
            Some((k, a)) => Some(
                (
                    TapState {
                        plan: s.plan.push(activation(hand[k], a, color)),
                        used: s.used.push(hand[k].id),
                    },
                    1,
                ),
            ),
            None => None,
        },
    }
}

/// Up to `need` activations for `color`.
pub open spec fn color_pass(bf: Seq<TapSource>, hand: Seq<TapSource>, s: TapState, color: Color, need: int) -> TapState
    decreases need,
{
    if need <= 0 {
        s
    } else {
        match tap_step(bf, hand, s, Some(color)) {
            Some((s2, _)) => color_pass(bf, hand, s2, color, need - 1),
            None => s,
        }
    }
}

/// Activations for generic mana while `need` is positive; `fuel` bounds
/// the number of steps.
pub open spec fn generic_pass(bf: Seq<TapSource>, hand: Seq<TapSource>, s: TapState, need: int, fuel: nat) -> TapState
    decreases fuel,
{
    if need <= 0 || fuel == 0 {
        s
    } else {
        match tap_step(bf, hand, s, None) {
            Some((s2, amt)) => generic_pass(bf, hand, s2, need - amt, (fuel - 1) as nat),
            None => s,
        }
    }
}

/// The generic amount still owed stays in `i32` through the generic pass.
pub open spec fn generic_pass_fits(bf: Seq<TapSource>, hand: Seq<TapSource>, s: TapState, need: int, fuel: nat) -> bool
    decreases fuel,
{
    if need <= 0 || fuel == 0 {
        true
    } else {
        match tap_step(bf, hand, s, None) {
            Some((s2, amt)) => fits_i32(need - amt) && generic_pass_fits(bf, hand, s2, need - amt, (fuel - 1) as nat),
            None => true,
        }
    }
}

pub open spec fn max0(x: int) -> int {
    if x > 0 {
        x
    } else {
        0
    }
}

pub open spec fn min2(a: int, b: int) -> int {
    if a <= b {
        a
    } else {
        b
    }
}

/// What the pool leaves over for generic mana once it paid what it can of
/// the pips.
pub open spec fn pool_left(pool: ManaPool, cost: ManaCost) -> int {
    pool.total - min2(pool.w as int, cost.w as int) - min2(pool.u as int, cost.u as int) - min2(
        pool.b as int,
        cost.b as int,
    ) - min2(pool.r as int, cost.r as int) - min2(pool.g as int, cost.g as int) - min2(
        pool.c as int,
        cost.c as int,
    )
}

/// The part of `cost` the pool does not pay.
pub open spec fn tap_remaining(pool: ManaPool, cost: ManaCost) -> ManaCost {
    ManaCost {
        w: max0(cost.w - pool.w) as i32,
        u: max0(cost.u - pool.u) as i32,
        b: max0(cost.b - pool.b) as i32,
        r: max0(cost.r - pool.r) as i32,
        g: max0(cost.g - pool.g) as i32,
        c: max0(cost.c - pool.c) as i32,
        generic: max0(cost.generic - max0(pool_left(pool, cost))) as i32,
    }
}

/// Every intermediate value of the remaining cost stays in `i32`.
pub open spec fn tap_remaining_fits(pool: ManaPool, cost: ManaCost) -> bool {
    let m0 = min2(pool.w as int, cost.w as int);
    let m1 = min2(pool.u as int, cost.u as int);
    let m2 = min2(pool.b as int, cost.b as int);
    let m3 = min2(pool.r as int, cost.r as int);
    let m4 = min2(pool.g as int, cost.g as int);
    let m5 = min2(pool.c as int, cost.c as int);
    &&& fits_i32(cost.w - pool.w)
    &&& fits_i32(cost.u - pool.u)
    &&& fits_i32(cost.b - pool.b)
    &&& fits_i32(cost.r - pool.r)
    &&& fits_i32(cost.g - pool.g)
    &&& fits_i32(cost.c - pool.c)
    &&& fits_i32(pool.total - m0)
    &&& fits_i32(pool.total - m0 - m1)
    &&& fits_i32(pool.total - m0 - m1 - m2)
    &&& fits_i32(pool.total - m0 - m1 - m2 - m3)
    &&& fits_i32(pool.total - m0 - m1 - m2 - m3 - m4)
    &&& fits_i32(pool.total - m0 - m1 - m2 - m3 - m4 - m5)
    &&& fits_i32(cost.generic - max0(pool_left(pool, cost)))
}

/// The plan after the colored pips.
pub open spec fn after_colors(bf: Seq<TapSource>, hand: Seq<TapSource>, c: ManaCost) -> TapState {
    let s0 = TapState { plan: Seq::empty(), used: Seq::empty() };
    let s1 = color_pass(bf, hand, s0, Color::Black, c.b as int);
    let s2 = color_pass(bf, hand, s1, Color::Blue, c.u as int);
    let s3 = color_pass(bf, hand, s2, Color::White, c.w as int);
    let s4 = color_pass(bf, hand, s3, Color::Red, c.r as int);
    color_pass(bf, hand, s4, Color::Green, c.g as int)
}

/// The activations planned for paying `cost` from `pool` and the sources.
pub open spec fn tap_plan(pool: ManaPool, cost: ManaCost, bf: Seq<TapSource>, hand: Seq<TapSource>) -> Seq<ManaActivation> {
    let c = tap_remaining(pool, cost);
    generic_pass(bf, hand, after_colors(bf, hand, c), c.generic as int, bf.len() + hand.len()).plan
}

/// The sources whose identifier is not used yet.
pub open spec fn unused_count(srcs: Seq<TapSource>, used: Seq<ObjId>) -> nat
    decreases srcs.len(),
{
    if srcs.len() == 0 {
        0
    } else {
        unused_count(srcs.drop_last(), used) + if used.contains(srcs.last().id) {
            0nat
        } else {
            1nat
        }
    }
}

proof fn lemma_unused_le_len(srcs: Seq<TapSource>, used: Seq<ObjId>)
    ensures
        unused_count(srcs, used) <= srcs.len(),
    decreases srcs.len(),
{
    if srcs.len() > 0 {
        lemma_unused_le_len(srcs.drop_last(), used);
    }
}

/// Using one more identifier leaves no more sources unused, and fewer when
/// the identifier is that of an unused source at position `k`.
proof fn lemma_unused_push(srcs: Seq<TapSource>, used: Seq<ObjId>, x: ObjId, k: int)
    ensures
        unused_count(srcs, used.push(x)) <= unused_count(srcs, used),
        0 <= k < srcs.len() && srcs[k].id == x && !used.contains(x) ==> unused_count(srcs, used.push(x))
            < unused_count(srcs, used),
    decreases srcs.len(),
{
    if srcs.len() > 0 {
        let init = srcs.drop_last();
        lemma_unused_push(init, used, x, k);
        let l = srcs.last().id;
        if used.contains(l) {
            let q = choose|q: int| 0 <= q < used.len() && used[q] == l;
            assert(used.push(x)[q] == l);
        }
        if l == x {
            assert(used.push(x)[used.len() as int] == x);
        }
        if 0 <= k < init.len() {
            assert(init[k] == srcs[k]);
        }
    }
}

/// An unused source at position `k` means at least one is unused.
proof fn lemma_unused_pos(srcs: Seq<TapSource>, used: Seq<ObjId>, k: int)
    requires
        0 <= k < srcs.len(),
        !used.contains(srcs[k].id),
    ensures
        unused_count(srcs, used) >= 1,
    decreases srcs.len(),
{
    if k < srcs.len() - 1 {
        let init = srcs.drop_last();
        assert(init[k] == srcs[k]);
        lemma_unused_pos(init, used, k);
    }
}

proof fn lemma_first_source(srcs: Seq<TapSource>, used: Seq<ObjId>, color: Option<Color>, j: int)
    ensures
        first_source_from(srcs, used, color, j) matches Some((k, a)) ==> 0 <= k < srcs.len()
            && !used.contains(srcs[k].id) && first_ability_from(srcs[k].abilities@, color, 0) == Some(a),
    decreases srcs.len() - j,
{
    if 0 <= j < srcs.len() {
        lemma_first_source(srcs, used, color, j + 1);
    }
}

/// The activations use the sources listed as used, each once.
pub open spec fn consistent(s: TapState) -> bool {
    &&& s.plan.len() == s.used.len()
    &&& forall|i: int| 0 <= i < s.plan.len() ==> (#[trigger] s.plan[i]).source_id == s.used[i]
    &&& forall|i: int, j: int| 0 <= i < j < s.used.len() ==> s.used[i] != s.used[j]
}

proof fn lemma_step_consistent(bf: Seq<TapSource>, hand: Seq<TapSource>, s: TapState, color: Option<Color>)
    requires
        consistent(s),
    ensures
        tap_step(bf, hand, s, color) matches Some((s2, _)) ==> consistent(s2),
{
    lemma_first_source(bf, s.used, color, 0);
    lemma_first_source(hand, s.used, color, 0);
}

proof fn lemma_color_pass_consistent(bf: Seq<TapSource>, hand: Seq<TapSource>, s: TapState, color: Color, need: int)
    requires
        consistent(s),
    ensures
        consistent(color_pass(bf, hand, s, color, need)),
    decreases need,
{
    if need > 0 {
        lemma_step_consistent(bf, hand, s, Some(color));
        if let Some((s2, _)) = tap_step(bf, hand, s, Some(color)) {
            lemma_color_pass_consistent(bf, hand, s2, color, need - 1);
        }
    }
}

proof fn lemma_generic_pass_consistent(bf: Seq<TapSource>, hand: Seq<TapSource>, s: TapState, need: int, fuel: nat)
    requires
        consistent(s),
    ensures
        consistent(generic_pass(bf, hand, s, need, fuel)),
    decreases fuel,
{
    if need > 0 && fuel > 0 {
        lemma_step_consistent(bf, hand, s, None);
        if let Some((s2, amt)) = tap_step(bf, hand, s, None) {
            lemma_generic_pass_consistent(bf, hand, s2, need - amt, (fuel - 1) as nat);
        }
    }
}

/// A tap plan activates no source twice.
pub proof fn lemma_tap_plan_uses_sources_once(pool: ManaPool, cost: ManaCost, bf: Seq<TapSource>, hand: Seq<TapSource>)
    ensures
        forall|i: int, j: int|
            0 <= i < j < tap_plan(pool, cost, bf, hand).len() ==> (#[trigger] tap_plan(pool, cost, bf, hand)[i]).source_id
                != (#[trigger] tap_plan(pool, cost, bf, hand)[j]).source_id,
{
    let c = tap_remaining(pool, cost);
    let s0 = TapState { plan: Seq::empty(), used: Seq::empty() };
    let s1 = color_pass(bf, hand, s0, Color::Black, c.b as int);
    let s2 = color_pass(bf, hand, s1, Color::Blue, c.u as int);
    let s3 = color_pass(bf, hand, s2, Color::White, c.w as int);
    let s4 = color_pass(bf, hand, s3, Color::Red, c.r as int);
    lemma_color_pass_consistent(bf, hand, s0, Color::Black, c.b as int);
    lemma_color_pass_consistent(bf, hand, s1, Color::Blue, c.u as int);
    lemma_color_pass_consistent(bf, hand, s2, Color::White, c.w as int);
    lemma_color_pass_consistent(bf, hand, s3, Color::Red, c.r as int);
    lemma_color_pass_consistent(bf, hand, s4, Color::Green, c.g as int);
    let s5 = after_colors(bf, hand, c);
    lemma_generic_pass_consistent(bf, hand, s5, c.generic as int, bf.len() + hand.len());
    let f = generic_pass(bf, hand, s5, c.generic as int, bf.len() + hand.len());
    assert forall|i: int, j: int| 0 <= i < j < f.plan.len() implies (#[trigger] f.plan[i]).source_id
        != (#[trigger] f.plan[j]).source_id by {
        assert(f.plan[i].source_id == f.used[i]);
        assert(f.plan[j].source_id == f.used[j]);
    }
}

/// The part of `cost` left to the pool when `rest` is left to the sources.
pub open spec fn pool_share(cost: ManaCost, rest: ManaCost) -> ManaCost {
    ManaCost {
        w: (cost.w - rest.w) as i32,
        u: (cost.u - rest.u) as i32,
        b: (cost.b - rest.b) as i32,
        r: (cost.r - rest.r) as i32,
        g: (cost.g - rest.g) as i32,
        c: (cost.c - rest.c) as i32,
        generic: (cost.generic - rest.generic) as i32,
    }
}

/// Floating mana is spent once. What the sources are planned for is what
/// the pool cannot pay: the pool can pay all the rest of the cost at once
/// (each pip from its own counter, the whole from its total), nothing left
/// to the sources is negative, a pip is left only when the pool has none of
/// that color to spare, and generic mana is left only when the pool's whole
/// total already goes to the cost.
pub proof fn lemma_pool_spent_once(pool: ManaPool, cost: ManaCost)
    requires
        pool.w >= 0 && pool.u >= 0 && pool.b >= 0 && pool.r >= 0 && pool.g >= 0 && pool.c >= 0,
        cost.w >= 0 && cost.u >= 0 && cost.b >= 0 && cost.r >= 0 && cost.g >= 0 && cost.c >= 0,
        cost.generic >= 0,
        color_sum(pool) <= pool.total,
    ensures
        ({
            let rest = tap_remaining(pool, cost);
            let share = pool_share(cost, rest);
            &&& can_pay_spec(pool, share)
            &&& rest.w >= 0 && rest.u >= 0 && rest.b >= 0 && rest.r >= 0 && rest.g >= 0 && rest.c >= 0
            &&& rest.generic >= 0
            &&& (rest.w > 0 ==> share.w == pool.w)
            &&& (rest.u > 0 ==> share.u == pool.u)
            &&& (rest.b > 0 ==> share.b == pool.b)
            &&& (rest.r > 0 ==> share.r == pool.r)
            &&& (rest.g > 0 ==> share.g == pool.g)
            &&& (rest.c > 0 ==> share.c == pool.c)
            &&& (rest.generic > 0 ==> share.spec_total_specific() + share.generic == pool.total)
        }),
{
}

/// Positions `lo..hi` of `plan` make mana of choice `color`.
pub open spec fn block_of(plan: Seq<ManaActivation>, lo: int, hi: int, color: Option<Color>) -> bool {
    forall|i: int| lo <= i < hi ==> (#[trigger] plan[i]).color_choice == color
}

/// `plan` is made of five colored blocks, black, blue, white, red, green,
/// split at `k1..k5`, each no longer than the pips of its color left to
/// pay, then activations for generic mana.
pub open spec fn tap_blocks(plan: Seq<ManaActivation>, c: ManaCost, k1: int, k2: int, k3: int, k4: int, k5: int) -> bool {
    &&& 0 <= k1 <= k2 <= k3 <= k4 <= k5 <= plan.len()
    &&& k1 <= max0(c.b as int)
    &&& k2 - k1 <= max0(c.u as int)
    &&& k3 - k2 <= max0(c.w as int)
    &&& k4 - k3 <= max0(c.r as int)
    &&& k5 - k4 <= max0(c.g as int)
    &&& block_of(plan, 0, k1, Some(Color::Black))
    &&& block_of(plan, k1, k2, Some(Color::Blue))
    &&& block_of(plan, k2, k3, Some(Color::White))
    &&& block_of(plan, k3, k4, Some(Color::Red))
    &&& block_of(plan, k4, k5, Some(Color::Green))
    &&& block_of(plan, k5, plan.len() as int, None)
}

proof fn lemma_color_pass_appends(bf: Seq<TapSource>, hand: Seq<TapSource>, s: TapState, color: Color, need: int)
    ensures
        ({
            let r = color_pass(bf, hand, s, color, need);
            &&& s.plan.len() <= r.plan.len() <= s.plan.len() + max0(need)
            &&& r.plan.take(s.plan.len() as int) == s.plan
            &&& block_of(r.plan, s.plan.len() as int, r.plan.len() as int, Some(color))
        }),
    decreases need,
{
    let r = color_pass(bf, hand, s, color, need);
    if need > 0 {
        match tap_step(bf, hand, s, Some(color)) {
            Some((s2, _)) => {
                lemma_color_pass_appends(bf, hand, s2, color, need - 1);
                assert(s2.plan.len() == s.plan.len() + 1);
                assert(s2.plan[s.plan.len() as int].color_choice == Some(color));
                assert(s2.plan.take(s.plan.len() as int) =~= s.plan);
                assert(r.plan.take(s.plan.len() as int) =~= r.plan.take(s2.plan.len() as int).take(
                    s.plan.len() as int,
                ));
                assert forall|i: int| s.plan.len() <= i < r.plan.len() implies (#[trigger] r.plan[i]).color_choice
                    == Some(color) by {
                    if i == s.plan.len() {
                        assert(r.plan.take(s2.plan.len() as int)[i] == s2.plan[i]);
                    }
                }
            },
            None => {
                assert(r.plan.take(s.plan.len() as int) =~= s.plan);
            },
        }
    } else {
        assert(r.plan.take(s.plan.len() as int) =~= s.plan);
    }
}

proof fn lemma_generic_pass_appends(bf: Seq<TapSource>, hand: Seq<TapSource>, s: TapState, need: int, fuel: nat)
    ensures
        ({
            let r = generic_pass(bf, hand, s, need, fuel);
            &&& s.plan.len() <= r.plan.len()
            &&& r.plan.take(s.plan.len() as int) == s.plan
            &&& block_of(r.plan, s.plan.len() as int, r.plan.len() as int, None)
        }),
    decreases fuel,
{
    let r = generic_pass(bf, hand, s, need, fuel);
    if need > 0 && fuel > 0 {
        match tap_step(bf, hand, s, None) {
            Some((s2, amt)) => {
                lemma_generic_pass_appends(bf, hand, s2, need - amt, (fuel - 1) as nat);
                assert(s2.plan.len() == s.plan.len() + 1);
                assert(s2.plan[s.plan.len() as int].color_choice == None::<Color>);
                assert(s2.plan.take(s.plan.len() as int) =~= s.plan);
                assert(r.plan.take(s.plan.len() as int) =~= r.plan.take(s2.plan.len() as int).take(
                    s.plan.len() as int,
                ));
                assert forall|i: int| s.plan.len() <= i < r.plan.len() implies (#[trigger] r.plan[i]).color_choice
                    == None::<Color> by {
                    if i == s.plan.len() {
                        assert(r.plan.take(s2.plan.len() as int)[i] == s2.plan[i]);
                    }
                }
            },
            None => {
                assert(r.plan.take(s.plan.len() as int) =~= s.plan);
            },
        }
    } else {
        assert(r.plan.take(s.plan.len() as int) =~= s.plan);
    }
}

/// What a tap plan looks like (rule 601.2g's colored pips before generic
/// mana): first the activations for black pips, then blue, white, red and
/// green, each color at most as many as the pips of that color the pool
/// leaves unpaid, then the activations for generic mana.
pub proof fn lemma_tap_plan_order(pool: ManaPool, cost: ManaCost, bf: Seq<TapSource>, hand: Seq<TapSource>)
    ensures
        exists|k1: int, k2: int, k3: int, k4: int, k5: int|
            #[trigger] tap_blocks(tap_plan(pool, cost, bf, hand), tap_remaining(pool, cost), k1, k2, k3, k4, k5),
{
    let c = tap_remaining(pool, cost);
    let s0 = TapState { plan: Seq::empty(), used: Seq::empty() };
    let s1 = color_pass(bf, hand, s0, Color::Black, c.b as int);
    let s2 = color_pass(bf, hand, s1, Color::Blue, c.u as int);
    let s3 = color_pass(bf, hand, s2, Color::White, c.w as int);
    let s4 = color_pass(bf, hand, s3, Color::Red, c.r as int);
    let s5 = color_pass(bf, hand, s4, Color::Green, c.g as int);
    lemma_color_pass_appends(bf, hand, s0, Color::Black, c.b as int);
    lemma_color_pass_appends(bf, hand, s1, Color::Blue, c.u as int);
    lemma_color_pass_appends(bf, hand, s2, Color::White, c.w as int);
    lemma_color_pass_appends(bf, hand, s3, Color::Red, c.r as int);
    lemma_color_pass_appends(bf, hand, s4, Color::Green, c.g as int);
    lemma_generic_pass_appends(bf, hand, s5, c.generic as int, bf.len() + hand.len());
    let f = generic_pass(bf, hand, s5, c.generic as int, bf.len() + hand.len()).plan;
    assert(f == tap_plan(pool, cost, bf, hand));
    let k1 = s1.plan.len() as int;
    let k2 = s2.plan.len() as int;
    let k3 = s3.plan.len() as int;
    let k4 = s4.plan.len() as int;
    let k5 = s5.plan.len() as int;
    // Each later plan keeps the earlier one as its prefix.
    assert forall|i: int| 0 <= i < k5 implies #[trigger] f[i] == s5.plan[i] by {
        assert(f.take(k5)[i] == s5.plan[i]);
    }
    assert forall|i: int| 0 <= i < k4 implies #[trigger] s5.plan[i] == s4.plan[i] by {
        assert(s5.plan.take(k4)[i] == s4.plan[i]);
    }
    assert forall|i: int| 0 <= i < k3 implies #[trigger] s4.plan[i] == s3.plan[i] by {
        assert(s4.plan.take(k3)[i] == s3.plan[i]);
    }
    assert forall|i: int| 0 <= i < k2 implies #[trigger] s3.plan[i] == s2.plan[i] by {
        assert(s3.plan.take(k2)[i] == s2.plan[i]);
    }
    assert forall|i: int| 0 <= i < k1 implies #[trigger] s2.plan[i] == s1.plan[i] by {
        assert(s2.plan.take(k1)[i] == s1.plan[i]);
    }
    assert(block_of(f, 0, k1, Some(Color::Black))) by {
        assert forall|i: int| 0 <= i < k1 implies (#[trigger] f[i]).color_choice == Some(Color::Black) by {
            assert(f[i] == s5.plan[i]);
            assert(s5.plan[i] == s4.plan[i]);
            assert(s4.plan[i] == s3.plan[i]);
            assert(s3.plan[i] == s2.plan[i]);
            assert(s2.plan[i] == s1.plan[i]);
            assert(s1.plan[i].color_choice == Some(Color::Black));
        }
    }
    assert(block_of(f, k1, k2, Some(Color::Blue))) by {
        assert forall|i: int| k1 <= i < k2 implies (#[trigger] f[i]).color_choice == Some(Color::Blue) by {
            assert(f[i] == s5.plan[i]);
            assert(s5.plan[i] == s4.plan[i]);
            assert(s4.plan[i] == s3.plan[i]);
            assert(s3.plan[i] == s2.plan[i]);
            assert(s2.plan[i].color_choice == Some(Color::Blue));
        }
    }
    assert(block_of(f, k2, k3, Some(Color::White))) by {
        assert forall|i: int| k2 <= i < k3 implies (#[trigger] f[i]).color_choice == Some(Color::White) by {
            assert(f[i] == s5.plan[i]);
            assert(s5.plan[i] == s4.plan[i]);
            assert(s4.plan[i] == s3.plan[i]);
            assert(s3.plan[i].color_choice == Some(Color::White));
        }
    }
    assert(block_of(f, k3, k4, Some(Color::Red))) by {
        assert forall|i: int| k3 <= i < k4 implies (#[trigger] f[i]).color_choice == Some(Color::Red) by {
            assert(f[i] == s5.plan[i]);
            assert(s5.plan[i] == s4.plan[i]);
            assert(s4.plan[i].color_choice == Some(Color::Red));
        }
    }
    assert(block_of(f, k4, k5, Some(Color::Green))) by {
        assert forall|i: int| k4 <= i < k5 implies (#[trigger] f[i]).color_choice == Some(Color::Green) by {
            assert(f[i] == s5.plan[i]);
            assert(s5.plan[i].color_choice == Some(Color::Green));
        }
    }
    assert(tap_blocks(f, c, k1, k2, k3, k4, k5));
}

fn contains_id(v: &Vec<ObjId>, x: ObjId) -> (r: bool)
    ensures
        r == v@.contains(x),
{
    for i in 0..v.len()
        invariant
            forall|q: int| 0 <= q < i ==> v@[q] != x,
    {
        if v[i] == x {
            return true;
        }
    }
    false
}

fn can_pay(a: &TapAbility, color: Option<Color>) -> (r: bool)
    ensures
        r == makes(*a, color),
{
    match color {
        None => true,
        Some(c) => {
            for i in 0..a.produces.len()
                invariant
                    color == Some(c),
                    forall|q: int| 0 <= q < i ==> a.produces@[q] != c,
            {
                if a.produces[i] == c {
                    assert(a.produces@[i as int] == c);
                    return true;
                }
            }
            false
        },
    }
}

/// The first unused source with an ability that can pay for `color`, and
/// the ability's position.
fn find_source(srcs: &[TapSource], used: &Vec<ObjId>, color: Option<Color>) -> (r: Option<(usize, usize)>)
    ensures
        match r {
            Some((k, a)) => first_source_from(srcs@, used@, color, 0) == Some((k as int, a as int))
                && k < srcs@.len() && a < srcs@[k as int].abilities@.len(),
            None => first_source_from(srcs@, used@, color, 0) is None,
        },
{
    for k in 0..srcs.len()
        invariant
            first_source_from(srcs@, used@, color, 0) == first_source_from(srcs@, used@, color, k as int),
    {
        let src = &srcs[k];
        if !contains_id(used, src.id) {
            let abs = &src.abilities;
            let mut j: usize = 0;
            let mut found: Option<usize> = None;
            while j < abs.len() && found.is_none()
                invariant
                    j <= abs@.len(),
                    match found {
                        Some(a) => first_ability_from(abs@, color, 0) == Some(a as int) && a < abs@.len(),
                        None => first_ability_from(abs@, color, 0) == first_ability_from(abs@, color, j as int),
                    },
                decreases abs@.len() - j + if found is Some { 0int } else { 1int },
            {
                if can_pay(&abs[j], color) {
                    found = Some(j);
                } else {
                    j = j + 1;
                }
            }
            if let Some(a) = found {
                return Some((k, a));
            }
        }
    }
    None
}

/// Record one activation of ability `a` of `src`.
fn record(plan: &mut Vec<ManaActivation>, used: &mut Vec<ObjId>, src: &TapSource, a: usize, color: Option<Color>)
    requires
        a < src.abilities@.len(),
    ensures
        final(plan)@ == old(plan)@.push(activation(*src, a as int, color)),
        final(used)@ == old(used)@.push(src.id),
{
    plan.push(ManaActivation { source_id: src.id, ability_index: src.abilities[a].index, color_choice: color });
    used.push(src.id);
}

fn take_color(
    bf: &[TapSource],
    hand: &[TapSource],
    plan: &mut Vec<ManaActivation>,
    used: &mut Vec<ObjId>,
    color: Color,
    need: i32,
)
    ensures
        (TapState { plan: final(plan)@, used: final(used)@ }) == color_pass(
            bf@,
            hand@,
            TapState { plan: old(plan)@, used: old(used)@ },
            color,
            need as int,
        ),
{
    let ghost target = color_pass(bf@, hand@, TapState { plan: plan@, used: used@ }, color, need as int);
    let mut remaining = need;
    let mut stopped = false;
    while remaining > 0 && !stopped
        invariant
            stopped ==> target == (TapState { plan: plan@, used: used@ }),
            !stopped ==> target == color_pass(bf@, hand@, TapState { plan: plan@, used: used@ }, color, remaining as int),
        decreases 2 * (remaining as int) + if stopped { 0int } else { 1int },
    {
        match find_source(bf, used, Some(color)) {
            Some((k, a)) => {
                record(plan, used, &bf[k], a, Some(color));
                remaining = remaining - 1;
            },
            None => match find_source(hand, used, Some(color)) {
                Some((k, a)) => {
                    record(plan, used, &hand[k], a, Some(color));
                    remaining = remaining - 1;
                },
                None => {
                    stopped = true;
                },
            },
        }
    }
}

/// The activations to pay `cost`, beyond what `pool` holds, from the
/// battlefield sources and then the sources in hand, each list in the order
/// in which the sources are looked at.
pub fn auto_tap_plan(pool: &ManaPool, cost: &ManaCost, battlefield: &[TapSource], hand: &[TapSource]) -> (r: Vec<ManaActivation>)
    requires
        tap_remaining_fits(*pool, *cost),
        battlefield@.len() + hand@.len() <= usize::MAX,
        generic_pass_fits(
            battlefield@,
            hand@,
            after_colors(battlefield@, hand@, tap_remaining(*pool, *cost)),
            tap_remaining(*pool, *cost).generic as int,
            battlefield@.len() + hand@.len(),
        ),
    ensures
        r@ == tap_plan(*pool, *cost, battlefield@, hand@),
{
    let ghost bf = battlefield@;
    let ghost hd = hand@;
    let w = if cost.w - pool.w > 0 { cost.w - pool.w } else { 0 };
    let u = if cost.u - pool.u > 0 { cost.u - pool.u } else { 0 };
    let b = if cost.b - pool.b > 0 { cost.b - pool.b } else { 0 };
    let r = if cost.r - pool.r > 0 { cost.r - pool.r } else { 0 };
    let g = if cost.g - pool.g > 0 { cost.g - pool.g } else { 0 };
    let left = pool.total - min_i32(pool.w, cost.w) - min_i32(pool.u, cost.u) - min_i32(pool.b, cost.b)
        - min_i32(pool.r, cost.r) - min_i32(pool.g, cost.g) - min_i32(pool.c, cost.c);
    let left = if left > 0 { left } else { 0 };
    let generic = if cost.generic - left > 0 { cost.generic - left } else { 0 };
    let ghost c = tap_remaining(*pool, *cost);
    assert(b == c.b && u == c.u && w == c.w && r == c.r && g == c.g && generic == c.generic);
    let mut plan: Vec<ManaActivation> = Vec::new();
    let mut used: Vec<ObjId> = Vec::new();
    take_color(battlefield, hand, &mut plan, &mut used, Color::Black, b);
    take_color(battlefield, hand, &mut plan, &mut used, Color::Blue, u);
    take_color(battlefield, hand, &mut plan, &mut used, Color::White, w);
    take_color(battlefield, hand, &mut plan, &mut used, Color::Red, r);
    take_color(battlefield, hand, &mut plan, &mut used, Color::Green, g);
    let ghost s5 = TapState { plan: plan@, used: used@ };
    assert(s5 == after_colors(bf, hd, c));
    let ghost total: nat = bf.len() + hd.len();
    let ghost target = generic_pass(bf, hd, s5, c.generic as int, total);
    let mut remaining_generic = generic;
    let mut stopped = false;
    let ghost mut fuel: nat = total;
    proof {
        lemma_unused_le_len(bf, used@);
        lemma_unused_le_len(hd, used@);
    }
    while remaining_generic > 0 && !stopped
        invariant
            bf == battlefield@,
            hd == hand@,
            fuel >= unused_count(bf, used@) + unused_count(hd, used@),
            stopped ==> target == (TapState { plan: plan@, used: used@ }),
            !stopped ==> target == generic_pass(bf, hd, TapState { plan: plan@, used: used@ }, remaining_generic as int, fuel),
            !stopped ==> generic_pass_fits(bf, hd, TapState { plan: plan@, used: used@ }, remaining_generic as int, fuel),
        decreases fuel, if stopped { 0int } else { 1int },
    {
        let ghost before = used@;
        match find_source(battlefield, &used, None) {
            Some((k, a)) => {
                proof {
                    lemma_first_source(bf, before, None, 0);
                    lemma_unused_pos(bf, before, k as int);
                    lemma_unused_push(bf, before, bf[k as int].id, k as int);
                    lemma_unused_push(hd, before, bf[k as int].id, -1);
                }
                let count = #[verifier::truncate] (battlefield[k].abilities[a].produces_count as i32);
                record(&mut plan, &mut used, &battlefield[k], a, None);
                remaining_generic = remaining_generic - count;
                proof {
                    fuel = (fuel - 1) as nat;
                }
            },
            None => match find_source(hand, &used, None) {
                Some((k, a)) => {
                    proof {
                        lemma_first_source(hd, before, None, 0);
                        lemma_unused_pos(hd, before, k as int);
                        lemma_unused_push(hd, before, hd[k as int].id, k as int);
                        lemma_unused_push(bf, before, hd[k as int].id, -1);
                    }
                    record(&mut plan, &mut used, &hand[k], a, None);
                    remaining_generic = remaining_generic - 1;
                    proof {
                        fuel = (fuel - 1) as nat;
                    }
                },
                None => {
                    stopped = true;
                },
            },
        }
    }
    plan
}

fn min_i32(a: i32, b: i32) -> (r: i32)
    ensures
        r == min2(a as int, b as int),
{
    if a <= b {
        a
    } else {
        b
    }
}

// ── Which abilities a source offers ──────────────────────────────────────────

/// What the plan reads of a mana ability of a source.
pub struct ManaAbilityFacts {
    /// It may be activated at all.
    pub activatable: bool,
    pub timing: ActivationTiming,
    pub source_zone: SourceZone,
    /// Activating it taps the source.
    pub requires_tap: bool,
    /// Its condition, if it has one, holds for the source.
    pub condition_met: bool,
    pub produces: Vec<Color>,
    pub produces_count: usize,
}

/// A battlefield source's ability the plan may use: activatable, of default
/// timing (instant-only abilities stay out of the mana step), activated
/// from the battlefield, not tapping a tapped source, and its condition met.
pub open spec fn usable_on_battlefield(f: ManaAbilityFacts, tapped: bool) -> bool {
    &&& f.activatable
    &&& f.timing == ActivationTiming::Default
    &&& f.source_zone == SourceZone::Battlefield
    &&& (!f.requires_tap || !tapped)
    &&& f.condition_met
}

/// A card in hand's ability the plan may use: activatable from the hand.
pub open spec fn usable_from_hand(f: ManaAbilityFacts) -> bool {
    f.activatable && f.source_zone == SourceZone::Hand
}

/// The usable abilities among the first `k`, as `(index, colors, amount)`.
pub open spec fn usable_prefix(fs: Seq<ManaAbilityFacts>, k: int, tapped: bool, in_hand: bool) -> Seq<(int, Seq<Color>, usize)>
    decreases k,
{
    if k <= 0 {
        Seq::empty()
    } else {
        let rest = usable_prefix(fs, k - 1, tapped, in_hand);
        let f = fs[k - 1];
        if (if in_hand {
            usable_from_hand(f)
        } else {
            usable_on_battlefield(f, tapped)
        }) {
            rest.push((k - 1, f.produces@, f.produces_count))
        } else {
            rest
        }
    }
}

/// The abilities of a tap source, as `(index, colors, amount)`.
pub open spec fn ability_facts(s: Seq<TapAbility>) -> Seq<(int, Seq<Color>, usize)> {
    s.map_values(|a: TapAbility| (a.index as int, a.produces@, a.produces_count))
}

fn copy_colors(v: &Vec<Color>) -> (r: Vec<Color>)
    ensures
        r@ == v@,
{
    let mut r: Vec<Color> = Vec::new();
    for i in 0..v.len()
        invariant
            r@ == v@.take(i as int),
    {
        r.push(v[i]);
        proof {
            assert(v@.take(i + 1) =~= v@.take(i as int).push(v@[i as int]));
        }
    }
    proof {
        assert(v@.take(v@.len() as int) =~= v@);
    }
    r
}

/// The source `id` with the abilities the plan may use: for a permanent
/// (`tapped` says whether it is tapped) those usable on the battlefield,
/// for a card in hand those usable from the hand.
pub fn tap_source(id: ObjId, abilities: &[ManaAbilityFacts], tapped: bool, in_hand: bool) -> (r: TapSource)
    ensures
        r.id == id,
        ability_facts(r.abilities@) == usable_prefix(abilities@, abilities@.len() as int, tapped, in_hand),
{
    let mut out: Vec<TapAbility> = Vec::new();
    for i in 0..abilities.len()
        invariant
            ability_facts(out@) == usable_prefix(abilities@, i as int, tapped, in_hand),
    {
        let f = &abilities[i];
        let usable = if in_hand {
            f.activatable && f.source_zone == SourceZone::Hand
        } else {
            f.activatable && f.timing == ActivationTiming::Default && f.source_zone
                == SourceZone::Battlefield && (!f.requires_tap || !tapped) && f.condition_met
        };
        if usable {
            let ghost before = out@;
            out.push(TapAbility { index: i, produces: copy_colors(&f.produces), produces_count: f.produces_count });
            proof {
                assert(ability_facts(out@) =~= ability_facts(before).push(
                    (i as int, f.produces@, f.produces_count),
                ));
            }
        }
    }
    TapSource { id, abilities: out }
}

/// The options a source offers, as `(source, index, colors, amount)`.
pub open spec fn source_options(src: TapSource) -> Seq<(ObjId, int, Seq<Color>, usize)> {
    src.abilities@.map_values(|a: TapAbility| (src.id, a.index as int, a.produces@, a.produces_count))
}

/// The options of all the sources, source by source.
pub open spec fn options_of(srcs: Seq<TapSource>) -> Seq<(ObjId, int, Seq<Color>, usize)>
    decreases srcs.len(),
{
    if srcs.len() == 0 {
        Seq::empty()
    } else {
        options_of(srcs.drop_last()) + source_options(srcs.last())
    }
}

pub open spec fn option_facts(v: Seq<ManaAbilityOption>) -> Seq<(ObjId, int, Seq<Color>, usize)> {
    v.map_values(|o: ManaAbilityOption| (o.source_id, o.ability_index as int, o.produces@, o.produces_count))
}

/// Every mana ability a player can activate now: those of the permanents,
/// then those of the cards in hand, each source's in ability order. The
/// sources come with the abilities `tap_source` leaves them.
pub fn enumerate_mana_abilities(battlefield: &[TapSource], hand: &[TapSource]) -> (r: Vec<ManaAbilityOption>)
    ensures
        option_facts(r@) == options_of(battlefield@) + options_of(hand@),
{
    let mut out: Vec<ManaAbilityOption> = Vec::new();
    add_options(&mut out, battlefield);
    add_options(&mut out, hand);
    proof {
        assert(Seq::<(ObjId, int, Seq<Color>, usize)>::empty() + options_of(battlefield@) =~= options_of(battlefield@));
    }
    out
}

fn add_options(out: &mut Vec<ManaAbilityOption>, srcs: &[TapSource])
    ensures
        option_facts(final(out)@) == option_facts(old(out)@) + options_of(srcs@),
{
    let ghost start = option_facts(out@);
    for i in 0..srcs.len()
        invariant
            option_facts(out@) == start + options_of(srcs@.take(i as int)),
    {
        let src = &srcs[i];
        let ghost before = option_facts(out@);
        for j in 0..src.abilities.len()
            invariant
                option_facts(out@) == before + source_options(*src).take(j as int),
        {
            let a = &src.abilities[j];
            let ghost prev = out@;
            out.push(ManaAbilityOption {
                source_id: src.id,
                ability_index: a.index,
                produces: copy_colors(&a.produces),
                produces_count: a.produces_count,
            });
            proof {
                assert(option_facts(out@) =~= option_facts(prev).push(
                    (src.id, a.index as int, a.produces@, a.produces_count),
                ));
                assert(source_options(*src).take(j + 1) =~= source_options(*src).take(j as int).push(
                    source_options(*src)[j as int],
                ));
            }
        }
        proof {
            assert(source_options(*src).take(src.abilities@.len() as int) =~= source_options(*src));
            assert(srcs@.take(i + 1).drop_last() =~= srcs@.take(i as int));
            assert(srcs@.take(i + 1).last() == *src);
            assert(before + source_options(*src) =~= start + options_of(srcs@.take(i + 1)));
        }
    }
    proof {
        assert(srcs@.take(srcs@.len() as int) =~= srcs@);
    }
}

} // verus!
