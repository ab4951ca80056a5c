//! Combat damage assignment among ordered blockers.
//!
//! An attacker's damage is split over its blockers in their damage order. A
//! blocker may receive damage only when every blocker before it has been
//! assigned lethal damage; without trample every point must land on a
//! blocker, with trample the rest goes to the player.
use vstd::prelude::*;

verus! {

/// Which of the two combat-damage steps a damage pass runs (rule 510.5).
#[derive(Clone, Copy, PartialEq, Eq, Debug, Structural)]
pub enum DamageStepKind {
    FirstStrike,
    Regular,
}

/// Rules 510.5 and 702.4b: whether a source with or without first strike
/// and double strike deals damage in `step`. In the first-strike step,
/// sources with first strike or double strike do; in the regular step,
/// sources with double strike and those without first strike.
pub fn source_eligible_for_damage_step(first_strike: bool, double_strike: bool, step: DamageStepKind) -> (r: bool)
    ensures
        r == match step {
            DamageStepKind::FirstStrike => first_strike || double_strike,
            DamageStepKind::Regular => double_strike || !first_strike,
        },
{
    match step {
        DamageStepKind::FirstStrike => first_strike || double_strike,
        DamageStepKind::Regular => double_strike || !first_strike,
    }
}

/// Rule 510.5: a first-strike damage step happens when some attacking or
/// blocking creature has first strike or double strike. `combatants` holds,
/// for each attacker and each blocker, whether it has first strike and
/// whether it has double strike.
pub fn any_combatant_has_first_or_double_strike(combatants: &[(bool, bool)]) -> (r: bool)
    ensures
        r == exists|i: int| 0 <= i < combatants@.len() && ((#[trigger] combatants@[i]).0 || combatants@[i].1),
{
    for i in 0..combatants.len()
        invariant
            forall|k: int| 0 <= k < i ==> !(#[trigger] combatants@[k]).0 && !combatants@[k].1,
    {
        if combatants[i].0 || combatants[i].1 {
            assert(combatants@[i as int].0 || combatants@[i as int].1);
            return true;
        }
    }
    false
}

pub open spec fn sum_seq(s: Seq<i32>) -> int
    decreases s.len(),
{
    if s.len() == 0 {
        0
    } else {
        sum_seq(s.drop_last()) + s.last()
    }
}

pub open spec fn max0(x: int) -> int {
    if x > 0 {
        x
    } else {
        0
    }
}

pub open spec fn min2(a: int, b: int) -> int {
    if a <= b {
        a
    } else {
        b
    }
}

/// Damage still to assign after the first `k` blockers took, each in turn,
/// as much of their lethal damage as was left.
pub open spec fn rem_after(lethal: Seq<i32>, total: int, k: int) -> int
    decreases k,
{
    if k <= 0 {
        max0(total)
    } else {
        rem_after(lethal, total, k - 1) - min2(rem_after(lethal, total, k - 1), max0(lethal[k - 1] as int))
    }
}

/// What blocker `i` takes in the lethal-in-order pass.
pub open spec fn take_at(lethal: Seq<i32>, total: int, i: int) -> int {
    min2(rem_after(lethal, total, i), max0(lethal[i] as int))
}

/// The default assignment: lethal damage to each blocker in order while
/// damage lasts; without trample, what is left goes to the last blocker.
pub open spec fn default_assignment(lethal: Seq<i32>, total: int, trample: bool) -> Seq<int> {
    let n = lethal.len() as int;
    let rest = rem_after(lethal, total, n);
    Seq::new(
        lethal.len(),
        |i: int|
            if i == n - 1 && !trample && rest > 0 {
                take_at(lethal, total, i) + rest
            } else {
                take_at(lethal, total, i)
            },
    )
}

/// A proposed assignment the rules allow: one amount per blocker, none
/// negative, no more than the attacker's damage (exactly that without
/// trample), and damage past a blocker only when every earlier one has
/// lethal damage.
pub open spec fn valid_assignment(raw: Seq<i32>, lethal: Seq<i32>, total: int, trample: bool) -> bool {
    &&& raw.len() == lethal.len()
    &&& forall|i: int| 0 <= i < raw.len() ==> raw[i] >= 0
    &&& sum_seq(raw) <= total
    &&& (trample || sum_seq(raw) >= total)
    &&& forall|i: int, j: int|
        #![trigger raw[i], raw[j]]
        0 <= j < i < raw.len() && raw[i] > 0 ==> raw[j] >= lethal[j]
}

/// Damage reaches a blocker only past blockers that have lethal damage.
pub open spec fn lethal_in_order(out: Seq<int>, lethal: Seq<i32>) -> bool {
    forall|i: int, j: int|
        #![trigger out[i], out[j]]
        0 <= j < i < out.len() && out[i] > 0 ==> out[j] >= lethal[j]
}

proof fn lemma_rem_bounds(lethal: Seq<i32>, total: int, k: int)
    requires
        0 <= k <= lethal.len(),
    ensures
        0 <= rem_after(lethal, total, k) <= max0(total),
    decreases k,
{
    if k > 0 {
        lemma_rem_bounds(lethal, total, k - 1);
    }
}

proof fn lemma_rem_monotone(lethal: Seq<i32>, total: int, j: int, k: int)
    requires
        0 <= j <= k <= lethal.len(),
    ensures
        rem_after(lethal, total, k) <= rem_after(lethal, total, j),
    decreases k - j,
{
    if j < k {
        lemma_rem_monotone(lethal, total, j, k - 1);
        lemma_rem_bounds(lethal, total, k - 1);
    }
}

/// The sum of a sequence is at most `i32::MAX`: the running sums stay in
/// `i32` when every entry is nonnegative.
pub open spec fn sum_fits(raw: Seq<i32>) -> bool {
    (forall|i: int| 0 <= i < raw.len() ==> raw[i] >= 0) ==> sum_seq(raw) <= i32::MAX
}

proof fn lemma_sum_prefix_nonneg(raw: Seq<i32>, k: int)
    requires
        0 <= k <= raw.len(),
        forall|i: int| 0 <= i < raw.len() ==> raw[i] >= 0,
    ensures
        0 <= sum_seq(raw.take(k)) <= sum_seq(raw),
    decreases raw.len() - k,
{
    if k < raw.len() {
        lemma_sum_prefix_nonneg(raw, k + 1);
        assert(raw.take(k + 1).drop_last() =~= raw.take(k));
    } else {
        assert(raw.take(k) =~= raw);
    }
    if k > 0 {
        lemma_sum_nonneg(raw.take(k));
    }
}

proof fn lemma_sum_nonneg(s: Seq<i32>)
    requires
        forall|i: int| 0 <= i < s.len() ==> s[i] >= 0,
    ensures
        sum_seq(s) >= 0,
    decreases s.len(),
{
    if s.len() > 0 {
        lemma_sum_nonneg(s.drop_last());
    }
}

pub(crate) fn default_out(lethal: &[i32], total: i32, has_trample: bool) -> (out: Vec<i32>)
    ensures
        out@.len() == lethal@.len(),
        forall|i: int| 0 <= i < lethal@.len() ==> out@[i] == default_assignment(lethal@, total as int, has_trample)[i],
{
    let n = lethal.len();
    let mut out: Vec<i32> = Vec::new();
    let mut remaining: i32 = if total > 0 {
        total
    } else {
        0
    };
    let mut i: usize = 0;
    while i < n
        invariant
            i <= n,
            n == lethal@.len(),
            out@.len() == i,
            remaining == rem_after(lethal@, total as int, i as int),
            forall|k: int| 0 <= k < i ==> out@[k] == take_at(lethal@, total as int, k),
        decreases n - i,
    {
        proof {
            lemma_rem_bounds(lethal@, total as int, i as int);
        }
        let l = if lethal[i] > 0 {
            lethal[i]
        } else {
            0
        };
        let take = if remaining <= l {
            remaining
        } else {
            l
        };
        out.push(take);
        remaining = remaining - take;
        i = i + 1;
    }
    proof {
        lemma_rem_bounds(lethal@, total as int, n as int);
    }
    if !has_trample && remaining > 0 && n > 0 {
        let last = out[n - 1];
        proof {
            lemma_rem_monotone(lethal@, total as int, (n - 1) as int, n as int);
            lemma_rem_bounds(lethal@, total as int, (n - 1) as int);
        }
        out.set(n - 1, last + remaining);
    }
    out
}

/// Check a proposed damage assignment; when the rules do not allow it, use
/// the default assignment instead.
pub fn validate_assignment(raw: &[i32], lethal: &[i32], total: i32, has_trample: bool) -> (r: Vec<i32>)
    requires
        raw@.len() == lethal@.len() ==> sum_fits(raw@),
    ensures
        valid_assignment(raw@, lethal@, total as int, has_trample) ==> r@ == raw@,
        !valid_assignment(raw@, lethal@, total as int, has_trample) ==> r@.len() == lethal@.len()
            && forall|i: int| 0 <= i < lethal@.len() ==> r@[i] == default_assignment(lethal@, total as int, has_trample)[i],
{
    let n = lethal.len();
    if raw.len() != n {
        return default_out(lethal, total, has_trample);
    }
    let mut k: usize = 0;
    while k < n
        invariant
            k <= n,
            n == raw@.len(),
            forall|i: int| 0 <= i < k ==> raw@[i] >= 0,
        decreases n - k,
    {
        if raw[k] < 0 {
            return default_out(lethal, total, has_trample);
        }
        k = k + 1;
    }
    let mut sum: i32 = 0;
    let mut k: usize = 0;
    while k < n
        invariant
            k <= n,
            n == raw@.len(),
            forall|i: int| 0 <= i < n ==> raw@[i] >= 0,
            sum_seq(raw@) <= i32::MAX,
            sum == sum_seq(raw@.take(k as int)),
        decreases n - k,
    {
        proof {
            lemma_sum_prefix_nonneg(raw@, (k + 1) as int);
            assert(raw@.take(k + 1).drop_last() =~= raw@.take(k as int));
        }
        sum = sum + raw[k];
        k = k + 1;
    }
    proof {
        assert(raw@.take(n as int) =~= raw@);
    }
    if sum > total {
        return default_out(lethal, total, has_trample);
    }
    if !has_trample && sum < total {
        return default_out(lethal, total, has_trample);
    }
    let mut earlier_full = true;
    let mut k: usize = 0;
    while k < n
        invariant
            k <= n,
            n == raw@.len(),
            n == lethal@.len(),
            earlier_full == (forall|j: int| 0 <= j < k ==> raw@[j] >= lethal@[j]),
            forall|i: int, j: int| 0 <= j < i < k && raw@[i] > 0 ==> raw@[j] >= lethal@[j],
        decreases n - k,
    {
        if !earlier_full && raw[k] > 0 {
            proof {
                let j = choose|j: int| 0 <= j < k && !(raw@[j] >= lethal@[j]);
                assert(raw@[k as int] > 0 && raw@[j] < lethal@[j]);
            }
            return default_out(lethal, total, has_trample);
        }
        if raw[k] < lethal[k] {
            earlier_full = false;
        }
        k = k + 1;
    }
    let mut out: Vec<i32> = Vec::new();
    for i in 0..n
        invariant
            n == raw@.len(),
            out@ == raw@.take(i as int),
    {
        out.push(raw[i]);
        proof {
            assert(raw@.take(i + 1) =~= raw@.take(i as int).push(raw@[i as int]));
        }
    }
    proof {
        assert(raw@.take(n as int) =~= raw@);
    }
    out
}

pub open spec fn sum_int(s: Seq<int>) -> int
    decreases s.len(),
{
    if s.len() == 0 {
        0
    } else {
        sum_int(s.drop_last()) + s.last()
    }
}

proof fn lemma_takes_sum(lethal: Seq<i32>, total: int, k: int)
    requires
        0 <= k <= lethal.len(),
    ensures
        sum_int(Seq::new(k as nat, |i: int| take_at(lethal, total, i))) == max0(total) - rem_after(
            lethal,
            total,
            k,
        ),
    decreases k,
{
    if k > 0 {
        lemma_takes_sum(lethal, total, k - 1);
        let s = Seq::new(k as nat, |i: int| take_at(lethal, total, i));
        assert(s.drop_last() =~= Seq::new((k - 1) as nat, |i: int| take_at(lethal, total, i)));
    }
}

/// The default assignment follows the rules: no blocker gets negative
/// damage, damage reaches a blocker only past blockers with lethal damage,
/// and all of the attacker's damage is assigned, except what trample lets
/// through to the player (or what finds no blocker at all).
pub proof fn lemma_default_assignment_rules(lethal: Seq<i32>, total: int, trample: bool)
    ensures
        ({
            let d = default_assignment(lethal, total, trample);
            let rest = rem_after(lethal, total, lethal.len() as int);
            &&& forall|i: int| 0 <= i < d.len() ==> d[i] >= 0
            &&& lethal_in_order(d, lethal)
            &&& sum_int(d) == max0(total) - (if trample || lethal.len() == 0 {
                rest
            } else {
                0
            })
        }),
{
    let n = lethal.len() as int;
    let d = default_assignment(lethal, total, trample);
    let rest = rem_after(lethal, total, n);
    lemma_rem_bounds(lethal, total, n);
    assert forall|i: int| 0 <= i < d.len() implies d[i] >= 0 by {
        lemma_rem_bounds(lethal, total, i);
    }
    assert forall|i: int, j: int|
        #![trigger d[i], d[j]]
        0 <= j < i < d.len() && d[i] > 0 implies d[j] >= lethal[j] by {
        lemma_rem_bounds(lethal, total, j);
        lemma_rem_monotone(lethal, total, j + 1, i);
        lemma_rem_monotone(lethal, total, i, n);
        lemma_rem_bounds(lethal, total, i);
    }
    lemma_takes_sum(lethal, total, n);
    let t = Seq::new(n as nat, |i: int| take_at(lethal, total, i));
    if !trample && n > 0 && rest > 0 {
        assert(d =~= t.update(n - 1, t[n - 1] + rest));
        assert(d.drop_last() =~= t.drop_last());
    } else {
        assert(d =~= t);
    }
}

} // verus!
