//! What happened during an action, announced for triggers and logs.

use vstd::prelude::*;
use crate::ids::{CardId, ObjectId, PlayerId};
use crate::state::GameResult;
use crate::types::{ManaType, Zone};

verus! {

/// Why a player lost (CR 104.3).
#[derive(Debug, Clone, Copy, PartialEq, Eq, Structural)]
pub enum LossReason {
    LifeReachedZero,
    DrewFromEmptyLibrary,
    Conceded,
    CardEffect,
}

impl LossReason {
    /// How the log says it.
    pub open spec fn spec_describe(&self) -> Seq<char> {
        match self {
            LossReason::LifeReachedZero => "lost: life total reached 0"@,
            LossReason::DrewFromEmptyLibrary => "lost: drew from an empty library"@,
            LossReason::Conceded => "conceded"@,
            LossReason::CardEffect => "lost to a card's effect"@,
        }
    }

    /// How the log says it.
    pub fn describe(&self) -> (s: &'static str)
        ensures
            s@ == self.spec_describe(),
    {
        match self {
            LossReason::LifeReachedZero => "lost: life total reached 0",
            LossReason::DrewFromEmptyLibrary => "lost: drew from an empty library",
            LossReason::Conceded => "conceded",
            LossReason::CardEffect => "lost to a card's effect",
        }
    }
}

/// What damage is dealt to.
#[derive(Debug, Clone, Copy, PartialEq, Eq, Structural)]
pub enum DamageTarget {
    Player(PlayerId),
    Object(ObjectId),
}

/// A game event.
#[derive(Debug)]
pub enum GameEvent {
    ObjectMoved { object: ObjectId, from: Zone, to: Zone },
    LeftBattlefield { object: ObjectId, to: Zone, last_controller: PlayerId },
    CreatureCardMilled { object: ObjectId, milled_player: PlayerId },
    EnteredBattlefield { object: ObjectId, controller: PlayerId },
    Tapped { object: ObjectId },
    Untapped { object: ObjectId },
    GameEnded { result: GameResult },
    PlayerLost { player: PlayerId, reason: LossReason },
    LifeChanged { player: PlayerId, old: i32, new_life: i32 },
    ManaAdded { player: PlayerId, mana_type: ManaType, amount: u32 },
    Discarded { player: PlayerId, object: ObjectId },
    CreatureDied {
        object: ObjectId,
        card_id: CardId,
        controller: PlayerId,
        damaged_by: Vec<ObjectId>,
        last_known_toughness: i32,
        is_token: bool,
    },
    AttackersDeclared { attackers: Vec<(ObjectId, PlayerId)> },
}

} // verus!
