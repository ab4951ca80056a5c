//! The decisions of the event pipeline (rules 614 and 603): a fired event is
//! first checked against "can't" effects, then against replacement effects,
//! and only then happens, is logged, dispatches triggers and, at the top
//! level of a chain of events, has continuous effects recomputed.
//!
//! Which prohibitions and replacements match an event is decided by the
//! cards; the pipeline takes those answers, in the order it walks the
//! candidates, and decides what happens next. A replacement applied within
//! one chain of events is not applied again in that chain (rule 614.5).
use vstd::prelude::*;

verus! {

/// A replacement effect the pipeline considers, in walk order (the
/// replacements printed on objects, then those of their abilities, then
/// those created during the game): its key (source object, which
/// replacement of it) and whether it applies to the event (active and
/// matching).
#[derive(Clone, Copy, PartialEq, Eq, Debug)]
pub struct ReplCandidate {
    pub source: u64,
    pub index: usize,
    pub matches: bool,
}

/// What happens to a fired event.
#[derive(Clone, Copy, PartialEq, Eq, Debug)]
pub enum FireStage {
    /// A "can't" effect suppresses it (rule 614.17).
    Prohibited,
    /// The replacement with this key happens instead (rule 614.6).
    Replace { source: u64, index: usize },
    /// It happens: effect, log, triggers.
    Apply,
}

/// The pipeline's own state: the replacements applied in the current
/// chain of events, and how deep in that chain the pipeline is.
pub struct EventPipeline {
    pub applied: Vec<(u64, usize)>,
    pub depth: u32,
}

pub open spec fn usable(applied: Seq<(u64, usize)>, c: ReplCandidate) -> bool {
    c.matches && !applied.contains((c.source, c.index))
}

/// `i` is the first usable candidate.
pub open spec fn first_usable_at(applied: Seq<(u64, usize)>, cands: Seq<ReplCandidate>, i: int) -> bool {
    &&& 0 <= i < cands.len()
    &&& usable(applied, cands[i])
    &&& forall|j: int| 0 <= j < i ==> !usable(applied, #[trigger] cands[j])
}

/// The replacements applied so far in the chain an event joins: none when
/// it starts a new chain.
pub open spec fn chain_applied(applied: Seq<(u64, usize)>, depth: int) -> Seq<(u64, usize)> {
    if depth == 0 {
        Seq::empty()
    } else {
        applied
    }
}

/// What happens to an event: prohibited if a "can't" effect matches,
/// else replaced by the first matching replacement not yet applied in the
/// chain, else applied.
pub open spec fn fire_stage(
    applied: Seq<(u64, usize)>,
    depth: int,
    prohibited: bool,
    cands: Seq<ReplCandidate>,
) -> FireStage {
    let base = chain_applied(applied, depth);
    if prohibited {
        FireStage::Prohibited
    } else if exists|i: int| first_usable_at(base, cands, i) {
        let i = choose|i: int| first_usable_at(base, cands, i);
        FireStage::Replace { source: cands[i].source, index: cands[i].index }
    } else {
        FireStage::Apply
    }
}

/// The applied replacements once the event is decided.
pub open spec fn applied_after(
    applied: Seq<(u64, usize)>,
    depth: int,
    prohibited: bool,
    cands: Seq<ReplCandidate>,
) -> Seq<(u64, usize)> {
    let base = chain_applied(applied, depth);
    match fire_stage(applied, depth, prohibited, cands) {
        FireStage::Replace { source, index } => base.push((source, index)),
        _ => base,
    }
}

/// The depth once the event is decided: a prohibited event is done at
/// once, any other stays open until `end_event`.
pub open spec fn depth_after(depth: int, prohibited: bool) -> int {
    if prohibited {
        depth
    } else {
        depth + 1
    }
}

fn applied_contains(applied: &Vec<(u64, usize)>, source: u64, index: usize) -> (r: bool)
    ensures
        r == applied@.contains((source, index)),
{
    let mut i: usize = 0;
    while i < applied.len()
        invariant
            i <= applied@.len(),
            forall|j: int| 0 <= j < i ==> #[trigger] applied@[j] != (source, index),
        decreases applied@.len() - i,
    {
        let (s, x) = applied[i];
        if s == source && x == index {
            assert(applied@[i as int] == (source, index));
            return true;
        }
        i = i + 1;
    }
    false
}

/// Stages 1 and 2 of firing an event: enter the chain (starting a new one
/// at depth 0), then decide by the prohibition answer and the replacement
/// candidates in walk order. A prohibited event leaves the chain at once;
/// a replacement is recorded as applied in the chain. Any other outcome
/// is closed by `end_event` once the replacement or the event has been
/// carried out.
pub fn begin_event(pipe: &mut EventPipeline, prohibited: bool, candidates: &Vec<ReplCandidate>) -> (r: FireStage)
    requires
        old(pipe).depth < u32::MAX,
    ensures
        r == fire_stage(old(pipe).applied@, old(pipe).depth as int, prohibited, candidates@),
        final(pipe).applied@ == applied_after(old(pipe).applied@, old(pipe).depth as int, prohibited, candidates@),
        final(pipe).depth == depth_after(old(pipe).depth as int, prohibited),
{
    let ghost applied0 = pipe.applied@;
    let ghost depth0 = pipe.depth as int;
    pipe.depth = pipe.depth + 1;
    if pipe.depth == 1 {
        pipe.applied = Vec::new();
    }
    assert(pipe.applied@ == chain_applied(applied0, depth0));
    if prohibited {
        pipe.depth = pipe.depth - 1;
        return FireStage::Prohibited;
    }
    let mut i: usize = 0;
    while i < candidates.len()
        invariant
            i <= candidates@.len(),
            !prohibited,
            applied0 == old(pipe).applied@,
            depth0 == old(pipe).depth as int,
            pipe.depth == depth0 + 1,
            pipe.applied@ == chain_applied(applied0, depth0),
            forall|j: int| 0 <= j < i ==> !usable(pipe.applied@, #[trigger] candidates@[j]),
        decreases candidates@.len() - i,
    {
        let c = candidates[i];
        if c.matches && !applied_contains(&pipe.applied, c.source, c.index) {
            proof {
                let base = chain_applied(applied0, depth0);
                assert(first_usable_at(base, candidates@, i as int));
                let w = choose|w: int| first_usable_at(base, candidates@, w);
                if w < i {
                    assert(!usable(base, candidates@[w]));
                }
                if w > i {
                    assert(!usable(base, candidates@[i as int]));
                }
                assert(w == i);
                assert(fire_stage(applied0, depth0, prohibited, candidates@) == (FireStage::Replace {
                    source: c.source,
                    index: c.index,
                }));
            }
            pipe.applied.push((c.source, c.index));
            return FireStage::Replace { source: c.source, index: c.index };
        }
        i = i + 1;
    }
    proof {
        let base = chain_applied(applied0, depth0);
        assert forall|w: int| !first_usable_at(base, candidates@, w) by {
            if 0 <= w < candidates@.len() {
                assert(!usable(base, candidates@[w]));
            }
        }
    }
    FireStage::Apply
}

/// Stage 6: leave the chain once the replacement or the event has been
/// carried out. Continuous effects are recomputed when an event that
/// happened closes the whole chain.
pub fn end_event(pipe: &mut EventPipeline, stage: FireStage) -> (recompute: bool)
    requires
        old(pipe).depth > 0,
    ensures
        final(pipe).depth == old(pipe).depth - 1,
        final(pipe).applied@ == old(pipe).applied@,
        recompute == (stage == FireStage::Apply && final(pipe).depth == 0),
{
    pipe.depth = pipe.depth - 1;
    match stage {
        FireStage::Apply => pipe.depth == 0,
        _ => false,
    }
}

/// Prohibition comes first (rule 614.17): a prohibited event is neither
/// replaced nor applied, whatever replacements would match it.
pub proof fn lemma_prohibition_first(
    applied: Seq<(u64, usize)>,
    depth: int,
    cands1: Seq<ReplCandidate>,
    cands2: Seq<ReplCandidate>,
)
    ensures
        fire_stage(applied, depth, true, cands1) == FireStage::Prohibited,
        fire_stage(applied, depth, true, cands1) == fire_stage(applied, depth, true, cands2),
{
}

/// Rule 614.5: within one chain of events a replacement applies at most
/// once. The replacement chosen was not yet applied in the chain and
/// matches the event, every candidate before it was not usable, and it is
/// recorded as applied, so the same chain never chooses it again.
pub proof fn lemma_replacement_once(
    applied: Seq<(u64, usize)>,
    depth: int,
    cands: Seq<ReplCandidate>,
    later: Seq<ReplCandidate>,
    later_prohibited: bool,
)
    requires
        depth > 0,
        fire_stage(applied, depth, false, cands) is Replace,
    ensures
        ({
            let key = (fire_stage(applied, depth, false, cands)->source, fire_stage(applied, depth, false, cands)->index);
            let after = applied_after(applied, depth, false, cands);
            &&& !applied.contains(key)
            &&& after.contains(key)
            &&& fire_stage(after, depth + 1, later_prohibited, later) != (FireStage::Replace {
                source: key.0,
                index: key.1,
            })
        }),
{
    let base = chain_applied(applied, depth);
    let i = choose|i: int| first_usable_at(base, cands, i);
    let key = (cands[i].source, cands[i].index);
    let after = applied_after(applied, depth, false, cands);
    assert(after[after.len() - 1] == key);
    if !later_prohibited && exists|w: int| first_usable_at(after, later, w) {
        let w = choose|w: int| first_usable_at(after, later, w);
        assert(!after.contains((later[w].source, later[w].index)));
    }
}

/// An event that is not prohibited leaves the chain's depth where it was
/// once `end_event` closes it, and recomputation happens exactly when it
/// was applied at the top level.
pub proof fn lemma_chain_depth_restored(applied: Seq<(u64, usize)>, depth: int, cands: Seq<ReplCandidate>)
    requires
        depth >= 0,
    ensures
        depth_after(depth, false) - 1 == depth,
        depth_after(depth, true) == depth,
        (fire_stage(applied, depth, false, cands) == FireStage::Apply && depth_after(depth, false) - 1 == 0)
            <==> (fire_stage(applied, depth, false, cands) == FireStage::Apply && depth == 0),
{
}

} // verus!
