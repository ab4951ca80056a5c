//! The turn structure: phases, their steps, and the game stage by turn.
use vstd::prelude::*;

use crate::types::{PhaseKind, StepKind};

verus! {

/// A step, and whether players get priority in it.
#[derive(Clone, Copy, Debug, PartialEq, Structural)]
pub struct Step {
    pub kind: StepKind,
    pub prio: bool,
}

/// A phase and its steps in order; main phases have no steps.
pub struct Phase {
    pub kind: PhaseKind,
    pub steps: Vec<Step>,
}

impl Phase {
    /// One of the two main phases.
    pub fn is_main_phase(&self) -> (r: bool)
        ensures
            r == (self.kind == PhaseKind::PreCombatMain || self.kind == PhaseKind::PostCombatMain),
    {
        match self.kind {
            PhaseKind::PreCombatMain | PhaseKind::PostCombatMain => true,
            _ => false,
        }
    }
}

/// Untap (no priority), upkeep, draw.
pub fn beginning_phase() -> (p: Phase)
    ensures
        p.kind == PhaseKind::Beginning,
        p.steps@ == seq![
            Step { kind: StepKind::Untap, prio: false },
            Step { kind: StepKind::Upkeep, prio: true },
            Step { kind: StepKind::Draw, prio: true },
        ],
{
    let steps = vec![
        Step { kind: StepKind::Untap, prio: false },
        Step { kind: StepKind::Upkeep, prio: true },
        Step { kind: StepKind::Draw, prio: true },
    ];
    proof {
        assert(steps@ =~= seq![
            Step { kind: StepKind::Untap, prio: false },
            Step { kind: StepKind::Upkeep, prio: true },
            Step { kind: StepKind::Draw, prio: true },
        ]);
    }
    Phase { kind: PhaseKind::Beginning, steps }
}

/// The first main phase.
pub fn main_phase() -> (p: Phase)
    ensures
        p.kind == PhaseKind::PreCombatMain,
        p.steps@.len() == 0,
{
    Phase { kind: PhaseKind::PreCombatMain, steps: Vec::new() }
}

/// Beginning of combat, attackers, blockers, first-strike damage, damage,
/// end of combat; all with priority.
pub fn combat_phase() -> (p: Phase)
    ensures
        p.kind == PhaseKind::Combat,
        p.steps@ == seq![
            Step { kind: StepKind::BeginCombat, prio: true },
            Step { kind: StepKind::DeclareAttackers, prio: true },
            Step { kind: StepKind::DeclareBlockers, prio: true },
            Step { kind: StepKind::FirstStrikeCombatDamage, prio: true },
            Step { kind: StepKind::CombatDamage, prio: true },
            Step { kind: StepKind::EndCombat, prio: true },
        ],
{
    let steps = vec![
        Step { kind: StepKind::BeginCombat, prio: true },
        Step { kind: StepKind::DeclareAttackers, prio: true },
        Step { kind: StepKind::DeclareBlockers, prio: true },
        Step { kind: StepKind::FirstStrikeCombatDamage, prio: true },
        Step { kind: StepKind::CombatDamage, prio: true },
        Step { kind: StepKind::EndCombat, prio: true },
    ];
    proof {
        assert(steps@ =~= seq![
            Step { kind: StepKind::BeginCombat, prio: true },
            Step { kind: StepKind::DeclareAttackers, prio: true },
            Step { kind: StepKind::DeclareBlockers, prio: true },
            Step { kind: StepKind::FirstStrikeCombatDamage, prio: true },
            Step { kind: StepKind::CombatDamage, prio: true },
            Step { kind: StepKind::EndCombat, prio: true },
        ]);
    }
    Phase { kind: PhaseKind::Combat, steps }
}

/// The second main phase.
pub fn post_combat_main_phase() -> (p: Phase)
    ensures
        p.kind == PhaseKind::PostCombatMain,
        p.steps@.len() == 0,
{
    Phase { kind: PhaseKind::PostCombatMain, steps: Vec::new() }
}

/// End step with priority, cleanup without.
pub fn end_phase() -> (p: Phase)
    ensures
        p.kind == PhaseKind::End,
        p.steps@ == seq![Step { kind: StepKind::End, prio: true }, Step { kind: StepKind::Cleanup, prio: false }],
{
    let steps = vec![Step { kind: StepKind::End, prio: true }, Step { kind: StepKind::Cleanup, prio: false }];
    proof {
        assert(steps@ =~= seq![Step { kind: StepKind::End, prio: true }, Step { kind: StepKind::Cleanup, prio: false }]);
    }
    Phase { kind: PhaseKind::End, steps }
}

/// The stage of the game by turn number.
pub open spec fn spec_stage_label(turn: u8) -> Seq<char> {
    if turn <= 3 {
        "Early"@
    } else if turn <= 5 {
        "Mid"@
    } else {
        "Late"@
    }
}

/// Turns 0-3 are early, 4-5 mid, later turns late.
pub fn stage_label(turn: u8) -> (r: &'static str)
    ensures
        r@ == spec_stage_label(turn),
{
    if turn <= 3 {
        "Early"
    } else if turn <= 5 {
        "Mid"
    } else {
        "Late"
    }
}


/// Turns 0 to 3 are early, turns 4 and 5 mid, every later turn late.
pub proof fn lemma_stage_labels(turn: u8)
    ensures
        turn <= 3 ==> spec_stage_label(turn) == "Early"@,
        4 <= turn <= 5 ==> spec_stage_label(turn) == "Mid"@,
        turn >= 6 ==> spec_stage_label(turn) == "Late"@,
{
}

} // verus!
