//! Heads-up Texas Hold'em: the worth of a hand, the showdown between two
//! players, dealing, and the rules of the table.
//!
//! Hands are scored and compared without a branch on what the cards are,
//! so that the same operations run whatever the players hold.

pub mod cards;
pub mod select;
pub mod sorting;
pub mod strength;
pub mod kickers;
pub mod hand_eval;
pub mod ranking;
pub mod patterns;
pub mod showdown;
pub mod deal;
pub mod state;
pub mod betting;
pub mod settlement;
pub mod lobby;
