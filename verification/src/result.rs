//! Name-based description of a board state, as reported to users.
use vstd::prelude::*;

verus! {

pub struct ScenarioResult {
    pub turn: u8,
    pub stage: String,
    pub on_play: bool,
    pub us: PlayerResult,
    pub opp: PlayerResult,
    pub log: Vec<String>,
    /// Cards on the stack.
    pub stack: Vec<String>,
    /// Life before Doomsday halved it.
    pub life_before_dd: Option<i32>,
    /// Strategy decision log.
    pub decision_log: Vec<String>,
    /// Full text representation.
    pub text_summary: String,
}

pub struct PlayerResult {
    pub deck_name: String,
    pub life: i32,
    pub lands: Vec<PermanentResult>,
    pub permanents: Vec<PermanentResult>,
    pub hand: Vec<CardResult>,
    pub hand_hidden: usize,
    pub land_drop_available: bool,
    pub library: Vec<String>,
    pub graveyard: Vec<String>,
    pub exile: Vec<String>,
}

pub struct PermanentResult {
    pub name: String,
    pub tapped: bool,
    pub counters: i32,
    pub loyalty: i32,
    pub flipped: bool,
}

pub struct CardResult {
    pub name: String,
}

} // verus!
