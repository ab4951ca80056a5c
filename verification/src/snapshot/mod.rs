//! Compact binary board-state snapshot for URL-shareable pile scenarios.
//!
//! Cards are identified as `(set_index, collector_number)` pairs of `u16`,
//! mapped to card names through a [`CardRegistry`].
//!
//! Wire format, version 2 (all multi-byte integers little-endian):
//!
//! ```text
//! HEADER (10 bytes):
//!   [0]     version = 2
//!   [1]     turn
//!   [2]     stage (0=Early, 1=Mid, 2=Late)
//!   [3]     flags: bit0=on_play  bit1=us_land_drop  bit2=opp_land_drop
//!   [4-5]   us_life   (i16)
//!   [6-7]   opp_life  (i16)
//!   [8-9]   life_before_dd (i16; i16::MIN = None)
//! STACK: count (u8), then per card: set_index (u16), collector (u16),
//!        flags (bits0-2 = pile_slot, bit3 = known)
//! PER PLAYER (us first, then opp):
//!   deck_name_len (u8), deck_name (UTF-8)
//!   2 permanent zones (lands, permanents): count (u8), then per entry
//!     set_index (u16), collector (u16), flags (bit0 = tapped, bit1 = flipped,
//!     bits2-4 = pile_slot), counters (u8), loyalty (u8)
//!   4 card zones (hand, library, graveyard, exile), laid out as the stack
//!   hand_hidden (u8)
//! ```
use vstd::prelude::*;

use crate::display::{decimal, push_decimal};

pub mod base64;
pub mod convert;
pub mod registry;
pub mod token;
pub mod wire;
pub mod wire_v3;

pub use base64::{from_base64url, to_base64url};
pub use registry::CardRegistry;
pub use token::{from_url_token, to_url_token};
pub use wire::{decode, encode};
pub use wire_v3::{decode_v3, encode_v3};

verus! {

/// A card identified by set + collector number.
#[derive(Clone, Copy, Debug, PartialEq, Eq, Hash, Structural)]
pub struct CardId {
    pub set_index: u16,
    pub collector_number: u16,
}

impl CardId {
    pub fn new(set_index: u16, collector_number: u16) -> (r: Self)
        ensures
            r.set_index == set_index,
            r.collector_number == collector_number,
    {
        CardId { set_index, collector_number }
    }
}

/// How far into the game the snapshot was taken.
#[derive(Clone, Copy, Debug, PartialEq, Eq, Structural)]
pub enum Stage {
    Early,
    Mid,
    Late,
}

pub open spec fn spec_stage_byte(s: Stage) -> u8 {
    match s {
        Stage::Early => 0,
        Stage::Mid => 1,
        Stage::Late => 2,
    }
}

impl Stage {
    /// The wire byte of a stage.
    pub fn to_byte(self) -> (b: u8)
        ensures
            b == spec_stage_byte(self),
    {
        match self {
            Stage::Early => 0,
            Stage::Mid => 1,
            Stage::Late => 2,
        }
    }
}

/// A card on the battlefield — carries tap / counter / loyalty state.
#[derive(Clone, Debug, PartialEq)]
pub struct PermanentEntry {
    pub id: CardId,
    pub tapped: bool,
    pub flipped: bool,
    /// 0 = not in pile; 1..=5 = slot (1 = top of pile, 5 = bottom).
    pub pile_slot: u8,
    pub counters: u8,
    pub loyalty: u8,
}

/// A card in any non-battlefield zone.
#[derive(Clone, Debug, PartialEq)]
pub struct CardEntry {
    pub id: CardId,
    /// 0 = not in pile; 1..=5 = slot (1 = top of pile, 5 = bottom).
    pub pile_slot: u8,
    /// True if this card is known/revealed (relevant for opponent's hand).
    pub known: bool,
}

#[derive(Clone, Debug, PartialEq)]
pub struct PlayerSnapshot {
    pub deck_name: String,
    pub life: i16,
    pub land_drop_available: bool,
    pub lands: Vec<PermanentEntry>,
    pub permanents: Vec<PermanentEntry>,
    pub hand: Vec<CardEntry>,
    pub library: Vec<CardEntry>,
    pub graveyard: Vec<CardEntry>,
    pub exile: Vec<CardEntry>,
    pub hand_hidden: u8,
}

#[derive(Clone, Debug, PartialEq)]
pub struct BoardSnapshot {
    pub turn: u8,
    pub stage: Stage,
    pub on_play: bool,
    pub life_before_dd: Option<i16>,
    pub stack: Vec<CardEntry>,
    pub us: PlayerSnapshot,
    pub opp: PlayerSnapshot,
}

/// Mathematical model of one player's side of a snapshot.
pub struct PlayerView {
    pub deck_name: Seq<char>,
    pub life: i16,
    pub land_drop_available: bool,
    pub lands: Seq<PermanentEntry>,
    pub permanents: Seq<PermanentEntry>,
    pub hand: Seq<CardEntry>,
    pub library: Seq<CardEntry>,
    pub graveyard: Seq<CardEntry>,
    pub exile: Seq<CardEntry>,
    pub hand_hidden: u8,
}

/// Mathematical model of a snapshot.
pub struct SnapshotView {
    pub turn: u8,
    pub stage: Stage,
    pub on_play: bool,
    pub life_before_dd: Option<i16>,
    pub stack: Seq<CardEntry>,
    pub us: PlayerView,
    pub opp: PlayerView,
}

impl View for PlayerSnapshot {
    type V = PlayerView;

    open spec fn view(&self) -> PlayerView {
        PlayerView {
            deck_name: self.deck_name@,
            life: self.life,
            land_drop_available: self.land_drop_available,
            lands: self.lands@,
            permanents: self.permanents@,
            hand: self.hand@,
            library: self.library@,
            graveyard: self.graveyard@,
            exile: self.exile@,
            hand_hidden: self.hand_hidden,
        }
    }
}

impl View for BoardSnapshot {
    type V = SnapshotView;

    open spec fn view(&self) -> SnapshotView {
        SnapshotView {
            turn: self.turn,
            stage: self.stage,
            on_play: self.on_play,
            life_before_dd: self.life_before_dd,
            stack: self.stack@,
            us: self.us@,
            opp: self.opp@,
        }
    }
}

impl BoardSnapshot {
    /// Per-player snapshot accessor.
    pub fn player(&self, who: crate::types::PlayerId) -> (r: &PlayerSnapshot)
        ensures
            r == (match who {
                crate::types::PlayerId::Us => &self.us,
                crate::types::PlayerId::Opp => &self.opp,
            }),
    {
        match who {
            crate::types::PlayerId::Us => &self.us,
            crate::types::PlayerId::Opp => &self.opp,
        }
    }

    /// Mutable per-player snapshot accessor.
    pub fn player_mut(&mut self, who: crate::types::PlayerId) -> (r: &mut PlayerSnapshot)
        ensures
            *r == (match who {
                crate::types::PlayerId::Us => old(self).us,
                crate::types::PlayerId::Opp => old(self).opp,
            }),
            *final(self) == (match who {
                crate::types::PlayerId::Us => BoardSnapshot { us: *final(r), ..*old(self) },
                crate::types::PlayerId::Opp => BoardSnapshot { opp: *final(r), ..*old(self) },
            }),
    {
        match who {
            crate::types::PlayerId::Us => &mut self.us,
            crate::types::PlayerId::Opp => &mut self.opp,
        }
    }
}

/// Why a snapshot could not be decoded or built.
#[derive(Debug)]
pub enum SnapshotError {
    TooShort,
    BadVersion(u8),
    BadStage(u8),
    BadUtf8,
    BadBase64,
    UnknownCard(String),
}

/// The message that describes an error.
pub open spec fn error_message(e: SnapshotError) -> Seq<char> {
    match e {
        SnapshotError::TooShort => "unexpected end of data"@,
        SnapshotError::BadVersion(v) => "unsupported version "@ + decimal(v as nat),
        SnapshotError::BadStage(s) => "invalid stage "@ + decimal(s as nat),
        SnapshotError::BadUtf8 => "invalid UTF-8 in deck name"@,
        SnapshotError::BadBase64 => "invalid base64url character"@,
        SnapshotError::UnknownCard(name) => "card not in registry: "@ + name@,
    }
}

impl SnapshotError {
    /// The message that describes the error.
    pub fn message(&self) -> (r: String)
        ensures
            r@ == error_message(*self),
    {
        match self {
            SnapshotError::TooShort => String::from_str("unexpected end of data"),
            SnapshotError::BadVersion(v) => {
                let mut m = String::from_str("unsupported version ");
                push_decimal(&mut m, *v as usize);
                m
            },
            SnapshotError::BadStage(s) => {
                let mut m = String::from_str("invalid stage ");
                push_decimal(&mut m, *s as usize);
                m
            },
            SnapshotError::BadUtf8 => String::from_str("invalid UTF-8 in deck name"),
            SnapshotError::BadBase64 => String::from_str("invalid base64url character"),
            SnapshotError::UnknownCard(name) => {
                let mut m = String::from_str("card not in registry: ");
                m.append(name.as_str());
                m
            },
        }
    }
}

} // verus!
