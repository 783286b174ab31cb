//! A single-player Blackjack round against an automated dealer.
//!
//! The engine is pure: the deck, both hands, the scripted input lines and
//! the output transcript are plain values, so every rule of the game is
//! stated in a contract and proved. Only the shuffle of the deck and the
//! normalization of an input line lean on outside code, behind trusted
//! wrappers that state what those calls return.

pub mod card;
pub mod console;
pub mod game;
pub mod score;
