//! Default answers to the decisions of a cost, and the passive player.
use vstd::prelude::*;

use crate::combat::{default_assignment, default_out};
use crate::ir::cost::{CostSchema, Decision, DecisionKind, NumberKind};
use crate::ir::executor::BindEnv;
use crate::ir::expr::Value;
use crate::types::{ObjId, PlayerId};

verus! {

/// A player that never acts: it passes priority and declines every choice.
pub struct AlwaysPass {
    pub player_id: PlayerId,
}

impl AlwaysPass {
    pub fn new(player_id: PlayerId) -> (r: Self)
        ensures
            r.player_id == player_id,
    {
        AlwaysPass { player_id }
    }

    /// Rule 510.1c, the default split of an attacker's damage over its
    /// blockers in damage order: lethal damage to each in turn while damage
    /// lasts; without trample, what is left goes to the last blocker.
    /// `lethal_per_blocker` holds at least one entry per blocker.
    pub fn assign_combat_damage(
        &self,
        ordered_blockers: &[ObjId],
        total_damage: i32,
        lethal_per_blocker: &[i32],
        has_trample: bool,
    ) -> (r: Vec<i32>)
        requires
            ordered_blockers@.len() <= lethal_per_blocker@.len(),
        ensures
            r@.len() == ordered_blockers@.len(),
            forall|i: int|
                0 <= i < r@.len() ==> r@[i] == default_assignment(
                    lethal_per_blocker@.take(ordered_blockers@.len() as int),
                    total_damage as int,
                    has_trample,
                )[i],
    {
        let n = ordered_blockers.len();
        let mut lethal: Vec<i32> = Vec::new();
        for i in 0..n
            invariant
                n == ordered_blockers@.len(),
                n <= lethal_per_blocker@.len(),
                lethal@ == lethal_per_blocker@.take(i as int),
        {
            lethal.push(lethal_per_blocker[i]);
            proof {
                assert(lethal_per_blocker@.take(i + 1) =~= lethal_per_blocker@.take(i as int).push(
                    lethal_per_blocker@[i as int],
                ));
            }
        }
        default_out(lethal.as_slice(), total_damage, has_trample)
    }
}

/// The branch a branch decision takes by default: the first payable one, or
/// the first one when none is payable.
pub open spec fn default_branch(payable: Seq<usize>) -> usize {
    if payable.len() > 0 {
        payable[0]
    } else {
        0
    }
}

/// The number a number decision takes by default: X is 3, or `max` when
/// that is less; a replicate count is 0.
pub open spec fn default_number(kind: NumberKind, max: u32) -> u32 {
    match kind {
        NumberKind::Replicate => 0,
        _ => if max < 3 {
            max
        } else {
            3
        },
    }
}

/// `v` is the default answer to a decision of this kind: the first `count`
/// candidates (a single object when exactly one is asked for and one is
/// there), the default branch's index, or the default number.
pub open spec fn is_default_answer(kind: DecisionKind, v: Value) -> bool {
    match kind {
        DecisionKind::Objects { candidates, count } => {
            let picked = candidates@.take(
                if count as int <= candidates@.len() {
                    count as int
                } else {
                    candidates@.len() as int
                },
            );
            if count == 1 && picked.len() == 1 {
                v == Value::Obj(picked[0])
            } else {
                v matches Value::ObjSet(s) && s@ == picked
            }
        },
        DecisionKind::Branch { labels: _, payable, branches: _ } => v == Value::Num(
            default_branch(payable@) as i64,
        ),
        DecisionKind::Number { kind, max } => v == Value::Num(default_number(kind, max) as i64),
    }
}

/// The decisions answered for a schema, from decision `k` on, in order: each
/// decision, then, for a branch, the decisions of the branch taken.
pub open spec fn answered_from(s: CostSchema, k: int) -> Seq<Decision>
    decreases s, s.decisions@.len() - k,
{
    if k < 0 || k >= s.decisions@.len() {
        Seq::empty()
    } else {
        let d = s.decisions@[k];
        let sub = match d.kind {
            DecisionKind::Branch { labels: _, payable, branches } => {
                let i = default_branch(payable@) as int;
                if i < branches@.len() {
                    proof {
                        assert(decreases_to!(s => s.decisions));
                        assert(decreases_to!(s.decisions => s.decisions@));
                        assert(decreases_to!(s.decisions@ => s.decisions@[k]));
                        assert(decreases_to!(d => d.kind));
                        assert(decreases_to!(d.kind => d.kind->branches));
                        assert(decreases_to!(branches => branches@));
                        assert(decreases_to!(branches@ => branches@[i]));
                    }
                    answered_from(branches@[i], 0)
                } else {
                    Seq::empty()
                }
            },
            _ => Seq::empty(),
        };
        seq![d] + sub + answered_from(s, k + 1)
    }
}

/// The bindings from position `start` on answer the decisions `ds`, one
/// each, in order.
pub open spec fn answers(bs: Seq<(&'static str, Value)>, start: int, ds: Seq<Decision>) -> bool {
    &&& bs.len() == start + ds.len()
    &&& forall|j: int|
        0 <= j < ds.len() ==> {
            &&& (#[trigger] bs[start + j]).0 == ds[j].binding
            &&& is_default_answer(ds[j].kind, bs[start + j].1)
        }
}

fn first_objects(candidates: &Vec<ObjId>, n: usize) -> (r: Vec<ObjId>)
    ensures
        r@ == candidates@.take(
            if n as int <= candidates@.len() {
                n as int
            } else {
                candidates@.len() as int
            },
        ),
{
    let mut out: Vec<ObjId> = Vec::new();
    let mut i: usize = 0;
    while i < n && i < candidates.len()
        invariant
            i <= candidates@.len(),
            i <= n,
            out@ == candidates@.take(i as int),
        decreases candidates@.len() - i,
    {
        out.push(candidates[i]);
        proof {
            assert(candidates@.take(i + 1) =~= candidates@.take(i as int).push(candidates@[i as int]));
        }
        i = i + 1;
    }
    out
}

fn default_objects(candidates: &Vec<ObjId>, count: u32) -> (v: Value)
    ensures
        is_default_answer(DecisionKind::Objects { candidates: *candidates, count }, v),
{
    let n = count as usize;
    let picked = first_objects(candidates, n);
    if n == 1 && picked.len() == 1 {
        Value::Obj(picked[0])
    } else {
        Value::ObjSet(picked)
    }
}

/// Default answers to every decision of `schema`.
pub fn default_announcement(schema: &CostSchema) -> (env: BindEnv)
    ensures
        answers(env.bindings@, 0, answered_from(*schema, 0)),
        env.source is None,
        env.controller is None,
        env.subj is None,
        env.chosen_color is None,
{
    let mut env = BindEnv::new();
    fill_default_announcement(schema, &mut env);
    env
}

/// Add default answers for every decision of `schema` to `env`, following
/// the default branch of each branch decision into its decisions.
fn fill_default_announcement(schema: &CostSchema, env: &mut BindEnv)
    ensures
        final(env).bindings@.subrange(0, old(env).bindings@.len() as int) == old(env).bindings@,
        answers(final(env).bindings@, old(env).bindings@.len() as int, answered_from(*schema, 0)),
        final(env).source == old(env).source,
        final(env).controller == old(env).controller,
        final(env).subj == old(env).subj,
        final(env).chosen_color == old(env).chosen_color,
    decreases schema,
{
    let ghost start = env.bindings@;
    let ghost mut done: Seq<Decision> = Seq::empty();
    let n = schema.decisions.len();
    proof {
        assert(done + answered_from(*schema, 0) =~= answered_from(*schema, 0));
        assert(env.bindings@.subrange(0, start.len() as int) =~= start);
    }
    for k in 0..n
        invariant
            n == schema.decisions@.len(),
            done + answered_from(*schema, k as int) == answered_from(*schema, 0),
            env.bindings@.subrange(0, start.len() as int) == start,
            start == old(env).bindings@,
            answers(env.bindings@, start.len() as int, done),
            env.source == old(env).source,
            env.controller == old(env).controller,
            env.subj == old(env).subj,
            env.chosen_color == old(env).chosen_color,
    {
        let d = &schema.decisions[k];
        let ghost before = env.bindings@;
        let ghost mut sub: Seq<Decision> = Seq::empty();
        let ghost mut mid: Seq<(&'static str, Value)> = Seq::empty();
        match &d.kind {
            DecisionKind::Objects { candidates, count } => {
                let v = default_objects(candidates, *count);
                env.bindings.push((d.binding, v));
                proof {
                    mid = env.bindings@;
                }
            },
            DecisionKind::Branch { labels: _, payable, branches } => {
                let i: usize = if payable.len() > 0 {
                    payable[0]
                } else {
                    0
                };
                env.bindings.push((d.binding, Value::Num(i as i64)));
                proof {
                    mid = env.bindings@;
                }
                if i < branches.len() {
                    proof {
                        assert(decreases_to!(*schema => schema.decisions));
                        assert(decreases_to!(schema.decisions => schema.decisions@));
                        assert(decreases_to!(schema.decisions@ => schema.decisions@[k as int]));
                        assert(decreases_to!(*d => d.kind));
                        assert(decreases_to!(d.kind => d.kind->branches));
                        assert(decreases_to!(*branches => branches@));
                        assert(decreases_to!(branches@ => branches@[i as int]));
                    }
                    fill_default_announcement(&branches[i], env);
                    proof {
                        sub = answered_from(branches@[i as int], 0);
                    }
                }
            },
            DecisionKind::Number { kind, max } => {
                let dflt: u32 = match kind {
                    NumberKind::XLife | NumberKind::XMana => if *max < 3 {
                        *max
                    } else {
                        3
                    },
                    NumberKind::Replicate => 0,
                };
                env.bindings.push((d.binding, Value::Num(dflt as i64)));
                proof {
                    mid = env.bindings@;
                }
            },
        }
        proof {
            let bs = env.bindings@;
            let step = seq![*d] + sub;
            assert(mid.len() == before.len() + 1);
            assert(mid.drop_last() =~= before);
            assert(mid.last().0 == d.binding);
            assert(is_default_answer(d.kind, mid.last().1));
            assert(bs.subrange(0, mid.len() as int) =~= mid);
            assert(answers(bs, mid.len() as int, sub));
            assert(answered_from(*schema, k as int) == step + answered_from(*schema, k + 1));
            assert((done + step) + answered_from(*schema, k + 1) =~= done + (step + answered_from(
                *schema,
                k + 1,
            )));
            assert forall|j: int| 0 <= j < start.len() implies bs[j] == start[j] by {
                assert(bs.subrange(0, mid.len() as int)[j] == mid[j]);
                assert(mid.drop_last()[j] == before[j]);
                assert(before.subrange(0, start.len() as int)[j] == start[j]);
            }
            assert(bs.subrange(0, start.len() as int) =~= start);
            assert forall|j: int| 0 <= j < done.len() + step.len() implies {
                &&& (#[trigger] bs[start.len() + j]).0 == (done + step)[j].binding
                &&& is_default_answer((done + step)[j].kind, bs[start.len() + j].1)
            } by {
                if j < done.len() {
                    assert(bs.subrange(0, mid.len() as int)[start.len() + j] == mid[start.len() + j]);
                    assert(mid.drop_last()[start.len() + j] == before[start.len() + j]);
                    assert(before[start.len() + j].0 == done[j].binding);
                } else if j > done.len() {
                    let m = j - done.len() - 1;
                    assert(step[j - done.len()] == sub[m]);
                    assert(start.len() + j == mid.len() + m);
                    assert(bs[mid.len() + m].0 == sub[m].binding);
                } else {
                    assert(step[0] == *d);
                    assert(bs.subrange(0, mid.len() as int)[before.len() as int] == mid[before.len() as int]);
                }
            }
            done = done + step;
        }
    }
    proof {
        assert(answered_from(*schema, n as int) =~= Seq::<Decision>::empty());
        assert(done + Seq::<Decision>::empty() =~= done);
    }
}

/// Bind the announced X under `"$x"`.
pub fn bind_announced_x(env: &mut BindEnv, chosen_x: u32)
    ensures
        final(env).bindings@ == old(env).bindings@.push(("$x", Value::Num(chosen_x as i64))),
        final(env).source == old(env).source,
        final(env).controller == old(env).controller,
        final(env).subj == old(env).subj,
        final(env).chosen_color == old(env).chosen_color,
{
    env.bindings.push(("$x", Value::Num(chosen_x as i64)));
}

} // verus!
