//! Core of a two-player card duel.
//!
//! Each round both sides play one card; the higher value wins except for a
//! single inversion (zero beats nine), and cards may carry a word that alters
//! the round's scoring or swaps its winner.  This crate holds the rules
//! engine, the card and deck model with its text format, the score ledger and
//! turn state machine, and the opponent's card-picking heuristic, all with
//! machine-checked contracts.  Rendering, audio, input and scene plumbing are
//! left to the surrounding application.

pub mod deck;
pub mod game_flow;
pub mod numbers;
pub mod oppo_hand;
pub mod state;
pub mod war;
