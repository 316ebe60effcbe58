//! What a player's choices point at.

use vstd::prelude::*;
use crate::ids::{ObjectId, PlayerId};

verus! {

/// A target (CR 115).
#[derive(Debug, Clone, Copy, PartialEq, Eq, Structural)]
pub enum Target {
    Object(ObjectId),
    Player(PlayerId),
    /// A target that stopped being legal before resolution (CR 608.2b).
    Illegal,
}

} // verus!
