use vstd::prelude::*;

verus! {

/// A game object's identity. Every object the game creates gets a fresh one.
#[derive(Debug, Clone, Copy, PartialEq, Eq, Structural, PartialOrd, Ord, Hash)]
pub struct ObjectId(pub u64);

/// A player's seat, which is also the player's index in `GameState::players`.
#[derive(Debug, Clone, Copy, PartialEq, Eq, Structural, PartialOrd, Ord, Hash)]
pub struct PlayerId(pub u8);

/// A card's entry in the card registry. `CardId(0)` stands for "no card":
/// the identity of a token.
#[derive(Debug, Clone, Copy, PartialEq, Eq, Structural, PartialOrd, Ord, Hash)]
pub struct CardId(pub u32);

impl ObjectId {
    /// The raw number behind the id.
    pub fn raw(&self) -> (r: u64)
        ensures
            r == self.0,
    {
        self.0
    }
}

} // verus!
