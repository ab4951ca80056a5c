//! The priority round (rule 117): who holds priority, who passed last, and
//! when the round resolves the top of the stack or ends.
//!
//! Each turn of the round, the player holding priority acts; the caller
//! carries out the action (playing a land, casting, activating) and reports
//! what happened. The round decides who acts next and whether the top of
//! the stack resolves or the round is over.
use vstd::prelude::*;
use crate::types::PlayerId;

verus! {

/// Who holds priority, and who passed last with nothing happening since.
#[derive(Clone, Copy, PartialEq, Eq, Debug)]
pub struct PriorityState {
    pub holder: PlayerId,
    pub last_passer: Option<PlayerId>,
}

/// What the player holding priority did.
#[derive(Clone, Copy, PartialEq, Eq, Debug)]
pub enum PriorityEvent {
    Pass,
    LandPlayed,
    /// A cast that could not happen: a sorcery-speed spell with a nonempty
    /// stack, or a cast that failed. It counts as a pass that cannot end
    /// the round.
    CastRefused,
    CastDone,
    AbilityActivated,
    /// Mana abilities do not use the stack and keep priority (rule 605.3b).
    ManaAbilityActivated,
}

/// What the round does next.
#[derive(Clone, Copy, PartialEq, Eq, Debug)]
pub enum PriorityAction {
    /// Both players passed in succession with an empty stack.
    EndRound,
    /// Both players passed in succession: resolve the top of the stack.
    ResolveTop,
    /// The player now holding priority acts.
    Continue,
}

/// A round starts with the active player holding priority.
pub fn start_priority_round(ap: PlayerId) -> (r: PriorityState)
    ensures
        r == (PriorityState { holder: ap, last_passer: None }),
{
    PriorityState { holder: ap, last_passer: None }
}

/// A spell may be cast now: at instant speed, or with an empty stack.
pub fn cast_timing_allowed(instant_speed: bool, stack_empty: bool) -> (r: bool)
    ensures
        r == (instant_speed || stack_empty),
{
    instant_speed || stack_empty
}

/// The next state and action of the round.
pub open spec fn priority_next(ps: PriorityState, ap: PlayerId, stack_empty: bool, ev: PriorityEvent) -> (
    PriorityState,
    PriorityAction,
) {
    let who = ps.holder;
    let other = who.spec_opp();
    match ev {
        PriorityEvent::Pass => if ps.last_passer == Some(other) {
            if stack_empty {
                (ps, PriorityAction::EndRound)
            } else {
                (PriorityState { holder: ap, last_passer: None }, PriorityAction::ResolveTop)
            }
        } else {
            (PriorityState { holder: other, last_passer: Some(who) }, PriorityAction::Continue)
        },
        PriorityEvent::LandPlayed => (PriorityState { holder: who, last_passer: None }, PriorityAction::Continue),
        PriorityEvent::CastRefused => (
            PriorityState { holder: other, last_passer: Some(who) },
            PriorityAction::Continue,
        ),
        PriorityEvent::CastDone => (PriorityState { holder: other, last_passer: None }, PriorityAction::Continue),
        PriorityEvent::AbilityActivated => (
            PriorityState { holder: other, last_passer: None },
            PriorityAction::Continue,
        ),
        PriorityEvent::ManaAbilityActivated => (ps, PriorityAction::Continue),
    }
}

/// One turn of the priority round: the player holding priority did `ev`;
/// `stack_empty` says whether the stack is empty now.
pub fn priority_step(ps: &mut PriorityState, ap: PlayerId, stack_empty: bool, ev: PriorityEvent) -> (r: PriorityAction)
    ensures
        (*final(ps), r) == priority_next(*old(ps), ap, stack_empty, ev),
{
    let who = ps.holder;
    let other = who.opp();
    match ev {
        PriorityEvent::Pass => {
            if ps.last_passer == Some(other) {
                if stack_empty {
                    PriorityAction::EndRound
                } else {
                    ps.holder = ap;
                    ps.last_passer = None;
                    PriorityAction::ResolveTop
                }
            } else {
                ps.last_passer = Some(who);
                ps.holder = other;
                PriorityAction::Continue
            }
        },
        PriorityEvent::LandPlayed => {
            ps.last_passer = None;
            PriorityAction::Continue
        },
        PriorityEvent::CastRefused => {
            ps.last_passer = Some(who);
            ps.holder = other;
            PriorityAction::Continue
        },
        PriorityEvent::CastDone | PriorityEvent::AbilityActivated => {
            ps.holder = other;
            ps.last_passer = None;
            PriorityAction::Continue
        },
        PriorityEvent::ManaAbilityActivated => PriorityAction::Continue,
    }
}

/// Rule 117.4: the round ends exactly when a player passes right after
/// the other one passed, with the stack empty; with a nonempty stack the
/// top resolves instead and the active player gets priority, no one having
/// passed.
pub proof fn lemma_round_end(ps: PriorityState, ap: PlayerId, stack_empty: bool, ev: PriorityEvent)
    ensures
        priority_next(ps, ap, stack_empty, ev).1 == PriorityAction::EndRound <==> (ev == PriorityEvent::Pass
            && ps.last_passer == Some(ps.holder.spec_opp()) && stack_empty),
        priority_next(ps, ap, stack_empty, ev).1 == PriorityAction::ResolveTop <==> (ev == PriorityEvent::Pass
            && ps.last_passer == Some(ps.holder.spec_opp()) && !stack_empty),
        priority_next(ps, ap, stack_empty, ev).1 == PriorityAction::ResolveTop ==> priority_next(
            ps,
            ap,
            stack_empty,
            ev,
        ).0 == (PriorityState { holder: ap, last_passer: None }),
{
}

/// With the stack empty, two passes in succession end the round, whatever
/// state it was in.
pub proof fn lemma_two_passes_end_round(ps: PriorityState, ap: PlayerId)
    ensures
        ({
            let (s1, a1) = priority_next(ps, ap, true, PriorityEvent::Pass);
            a1 == PriorityAction::EndRound || priority_next(s1, ap, true, PriorityEvent::Pass).1
                == PriorityAction::EndRound
        }),
{
    crate::types::lemma_opp_involution(ps.holder);
}

/// Anything that happens other than a pass (or a refused cast) resets the
/// passes, so the round cannot end on the next pass alone; a mana ability
/// changes nothing.
pub proof fn lemma_action_resets_passes(ps: PriorityState, ap: PlayerId, stack_empty: bool, ev: PriorityEvent)
    requires
        ev != PriorityEvent::Pass,
        ev != PriorityEvent::CastRefused,
        ev != PriorityEvent::ManaAbilityActivated,
    ensures
        priority_next(ps, ap, stack_empty, ev).0.last_passer == None::<PlayerId>,
        priority_next(ps, ap, stack_empty, ev).1 == PriorityAction::Continue,
        priority_next(ps, ap, stack_empty, PriorityEvent::ManaAbilityActivated) == (ps, PriorityAction::Continue),
{
}


/// Who acts next: after a pass (that does not close the round), a refused
/// cast, a cast or an activated ability, the other player holds priority;
/// after a land drop or a mana ability the same player keeps it. A pass
/// records its player as the last to pass; a refused cast does too.
pub proof fn lemma_priority_moves(ps: PriorityState, ap: PlayerId, stack_empty: bool, ev: PriorityEvent)
    ensures
        ({
            let (n, a) = priority_next(ps, ap, stack_empty, ev);
            &&& (ev == PriorityEvent::Pass && a == PriorityAction::Continue) ==> n.holder == ps.holder.spec_opp()
                && n.last_passer == Some(ps.holder)
            &&& (ev == PriorityEvent::CastRefused) ==> n.holder == ps.holder.spec_opp() && n.last_passer == Some(
                ps.holder,
            )
            &&& (ev == PriorityEvent::CastDone || ev == PriorityEvent::AbilityActivated) ==> n.holder
                == ps.holder.spec_opp()
            &&& (ev == PriorityEvent::LandPlayed || ev == PriorityEvent::ManaAbilityActivated) ==> n.holder
                == ps.holder
            &&& ev != PriorityEvent::Pass ==> a == PriorityAction::Continue
        }),
{
}

} // verus!
