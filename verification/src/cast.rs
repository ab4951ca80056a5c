//! Casting a spell (rule 601.2): which face, which cost, what delve
//! exiles, and whether the cast can happen at all.
//!
//! What the card says (its costs, whether it has delve or a back face) and
//! what the game offers (graveyard, potential mana, hand size, which
//! alternate costs can be paid now) come in as plain values; the plan says
//! what the caster pays, or that the cast fails.
use vstd::prelude::*;
use crate::mana::{can_pay_spec, ManaCost, ManaPool};

verus! {

/// What casting reads of an alternate cost: the hand size it needs,
/// whether its condition holds, and whether its cost can be paid now.
#[derive(Clone, Copy, PartialEq, Eq, Debug)]
pub struct AltCostFacts {
    pub hand_min: usize,
    pub condition_ok: bool,
    pub feasible: bool,
}

/// A request to cast a spell.
pub struct CastRequest {
    /// Cast the back face (an adventure or the like) rather than the main face.
    pub back_face: bool,
    /// The card has such a back face.
    pub has_back: bool,
    /// The back face is a sorcery.
    pub back_is_sorcery: bool,
    pub stack_empty: bool,
    /// The mana cost of the face cast.
    pub cost: ManaCost,
    /// The main face prints no mana cost.
    pub mana_cost_empty: bool,
    pub delve: bool,
    /// The caster's graveyard, in order.
    pub graveyard: Vec<u64>,
    /// The mana the caster could make.
    pub potential: ManaPool,
    /// The strategy announced an alternate cost, with its index when known.
    pub announced_alt: bool,
    pub announced_alt_index: Option<usize>,
    pub alternates: Vec<AltCostFacts>,
    pub hand_size: usize,
    /// The additional costs can be paid.
    pub additional_payable: bool,
}

/// How the spell is cast.
#[derive(Clone, Debug)]
pub struct CastPlan {
    /// Graveyard cards exiled for delve.
    pub delve_exile: Vec<u64>,
    /// The mana cost left to pay (after delve).
    pub cost: ManaCost,
    /// An alternate cost is paid instead of the mana cost.
    pub alt_cost_used: bool,
    pub alt_cost_index: Option<usize>,
}

/// How many graveyard cards delve exiles: as many as the generic part of
/// the cost asks for, as far as the graveyard goes.
pub open spec fn delve_count(delve: bool, cost: ManaCost, gy_len: int) -> int {
    if delve && cost.generic > 0 {
        if gy_len < cost.generic {
            gy_len
        } else {
            cost.generic as int
        }
    } else {
        0
    }
}

pub open spec fn after_delve(cost: ManaCost, n: int) -> ManaCost {
    ManaCost { generic: (cost.generic - n) as i32, ..cost }
}

pub open spec fn alt_usable(a: AltCostFacts, hand_size: int) -> bool {
    hand_size >= a.hand_min && a.condition_ok && a.feasible
}

/// `i` is the first usable alternate cost.
pub open spec fn first_alt_at(alts: Seq<AltCostFacts>, hand_size: int, i: int) -> bool {
    &&& 0 <= i < alts.len()
    &&& alt_usable(alts[i], hand_size)
    &&& forall|j: int| 0 <= j < i ==> !alt_usable(#[trigger] alts[j], hand_size)
}

pub open spec fn some_alt(alts: Seq<AltCostFacts>, hand_size: int) -> bool {
    exists|i: int| first_alt_at(alts, hand_size, i)
}

/// The mana cost can be used: it is printed and the caster could pay it.
pub open spec fn mana_usable(req: CastRequest) -> bool {
    let c = after_delve(req.cost, delve_count(req.delve, req.cost, req.graveyard@.len() as int));
    !req.mana_cost_empty && can_pay_spec(req.potential, c)
}

/// Whether the cast can happen: a back face exists and is not a sorcery
/// cast over a nonempty stack; a main face has an announced alternate
/// cost, or its mana cost can be used, or some alternate cost is usable,
/// and its additional costs can be paid.
pub open spec fn castable(req: CastRequest) -> bool {
    if req.back_face {
        req.has_back && !(req.back_is_sorcery && !req.stack_empty)
    } else {
        (req.announced_alt || mana_usable(req) || some_alt(req.alternates@, req.hand_size as int))
            && req.additional_payable
    }
}

/// Plan the cast of a spell, or `None` when it cannot be cast.
pub fn plan_cast(req: &CastRequest) -> (r: Option<CastPlan>)
    requires
        req.cost.sums_fit(),
        req.cost.generic >= 0,
    ensures
        r is None <==> !castable(*req),
        r matches Some(plan) ==> ({
            let n = if req.back_face {
                0
            } else {
                delve_count(req.delve, req.cost, req.graveyard@.len() as int)
            };
            &&& plan.delve_exile@ == req.graveyard@.take(n)
            &&& plan.cost == after_delve(req.cost, n)
            &&& plan.alt_cost_used == (!req.back_face && (req.announced_alt || !mana_usable(*req)))
            &&& (plan.alt_cost_used && req.announced_alt ==> plan.alt_cost_index == req.announced_alt_index)
            &&& (plan.alt_cost_used && !req.announced_alt ==> (plan.alt_cost_index matches Some(i)
                && first_alt_at(req.alternates@, req.hand_size as int, i as int)))
            &&& (!plan.alt_cost_used ==> plan.alt_cost_index is None)
        }),
{
    if req.back_face {
        if !req.has_back || (req.back_is_sorcery && !req.stack_empty) {
            return None;
        }
        return Some(CastPlan { delve_exile: Vec::new(), cost: req.cost, alt_cost_used: false, alt_cost_index: None });
    }
    let mut cost = req.cost;
    let mut exile: Vec<u64> = Vec::new();
    let ghost n = delve_count(req.delve, req.cost, req.graveyard@.len() as int);
    if req.delve && cost.generic > 0 {
        let mut i: usize = 0;
        while i < req.graveyard.len() && (i as i32) < req.cost.generic
            invariant
                i <= req.graveyard@.len(),
                i <= req.cost.generic,
                exile@ == req.graveyard@.take(i as int),
            decreases req.graveyard@.len() - i,
        {
            exile.push(req.graveyard[i]);
            proof {
                assert(req.graveyard@.take(i + 1) =~= req.graveyard@.take(i as int).push(req.graveyard@[i as int]));
            }
            i = i + 1;
        }
        assert(i == n);
        cost.generic = cost.generic - i as i32;
    }
    assert(cost == after_delve(req.cost, n));
    let usable = !req.mana_cost_empty && req.potential.can_pay(&cost);
    let mut alt_used = false;
    let mut alt_index: Option<usize> = None;
    if req.announced_alt {
        alt_used = true;
        alt_index = req.announced_alt_index;
    } else if !usable {
        let mut k: usize = 0;
        while k < req.alternates.len() && !alt_used
            invariant
                k <= req.alternates@.len(),
                !req.announced_alt,
                alt_used ==> k < req.alternates@.len() && alt_index == Some(k) && first_alt_at(
                    req.alternates@,
                    req.hand_size as int,
                    k as int,
                ),
                !alt_used ==> alt_index is None,
                forall|j: int| 0 <= j < k ==> !alt_usable(#[trigger] req.alternates@[j], req.hand_size as int),
            decreases req.alternates@.len() - k + (if alt_used { 0int } else { 1int }),
        {
            let a = req.alternates[k];
            if req.hand_size >= a.hand_min && a.condition_ok && a.feasible {
                assert(first_alt_at(req.alternates@, req.hand_size as int, k as int));
                alt_used = true;
                alt_index = Some(k);
            } else {
                k = k + 1;
            }
        }
        proof {
            if !alt_used {
                assert forall|i: int| !first_alt_at(req.alternates@, req.hand_size as int, i) by {
                    if 0 <= i < req.alternates@.len() {
                        assert(!alt_usable(req.alternates@[i], req.hand_size as int));
                    }
                }
            }
        }
    }
    if !alt_used && !usable {
        return None;
    }
    if !req.additional_payable {
        return None;
    }
    Some(CastPlan { delve_exile: exile, cost, alt_cost_used: alt_used, alt_cost_index: alt_index })
}


/// When a cast fails: a back face needs the card to have one and, as a
/// sorcery, an empty stack; a main face needs its additional costs paid and
/// some way to pay: an announced alternate cost, a printed mana cost the
/// caster could pay, or an alternate cost whose hand size, condition and
/// payment all hold. Delve exiles no more cards than the generic mana asks
/// for or the graveyard holds, and only reduces the generic part.
pub proof fn lemma_cast_rules(req: CastRequest)
    ensures
        req.back_face ==> (castable(req) <==> (req.has_back && (!req.back_is_sorcery || req.stack_empty))),
        !req.back_face && !req.additional_payable ==> !castable(req),
        !req.back_face && req.additional_payable && req.announced_alt ==> castable(req),
        !req.back_face && req.mana_cost_empty && !req.announced_alt && (forall|i: int|
            0 <= i < req.alternates@.len() ==> !(req.hand_size >= (#[trigger] req.alternates@[i]).hand_min
                && req.alternates@[i].condition_ok && req.alternates@[i].feasible)) ==> !castable(req),
        0 <= delve_count(req.delve, req.cost, req.graveyard@.len() as int) <= req.graveyard@.len(),
        delve_count(req.delve, req.cost, req.graveyard@.len() as int) <= (if req.cost.generic > 0 {
            req.cost.generic as int
        } else {
            0
        }),
{
    if !req.back_face && req.mana_cost_empty && !req.announced_alt && (forall|i: int|
        0 <= i < req.alternates@.len() ==> !(req.hand_size >= (#[trigger] req.alternates@[i]).hand_min
            && req.alternates@[i].condition_ok && req.alternates@[i].feasible)) {
        if some_alt(req.alternates@, req.hand_size as int) {
            let i = choose|i: int| first_alt_at(req.alternates@, req.hand_size as int, i);
            assert(alt_usable(req.alternates@[i], req.hand_size as int));
        }
    }
}

} // verus!
