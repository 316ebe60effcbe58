//! A rules engine for a two-player card game: game state, mana payment and
//! automatic tapping, state-based actions, continuous effects and control,
//! tokens, triggered abilities, replacement of entering events, and the
//! structural invariants a game state keeps.

pub mod actions;
pub mod board;
pub mod cards;
pub mod characteristics;
pub mod control;
pub mod effects;
pub mod entry;
pub mod events;
pub mod invariants;
pub mod ids;
pub mod laws;
pub mod mana;
pub mod objects;
pub mod protection;
pub mod random;
pub mod replacement;
pub mod sba;
pub mod state;
pub mod text;
pub mod tokens;
pub mod triggers;
pub mod types;
pub mod util;
pub mod zones;

