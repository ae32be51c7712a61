//! Betting engine for a multiplayer turn-based card game.
//!
//! The crate tracks one hand of play from the initial deal through the
//! betting streets to showdown.  Every state change appends a durable
//! event to the hand's logs, chips are conserved across actions, and the
//! broadcast layer fans typed events out to live subscribers only.
use vstd::prelude::*;

pub mod broker;
pub mod engine;
pub mod events;
mod ids;
pub mod model;
pub mod rotation;
pub mod state;
pub mod sums;
pub mod winner;

verus! {

/// Caller identity carried by the surrounding transport layer.
pub struct UserToken(pub String);

/// Table identity carried by the surrounding transport layer.
pub struct TableToken(pub String);

/// Hand identity carried by the surrounding transport layer.
pub struct HandToken(pub String);

} // verus!
