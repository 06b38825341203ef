//! Core of a chat-community engagement tracker: pure level rules, a
//! cooldown-gated grant policy, a progression store keyed by user id,
//! a reconciliation scan over historical events, and the computation of
//! role-change intents when a user's level moves.
//!
//! Everything here is plain data and pure decisions; network delivery of
//! the resulting intents is left to the embedding program.

pub mod level;
pub mod policy;
pub mod scan;
pub mod store;
pub mod transition;
