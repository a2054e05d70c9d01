//! Core of a group-chat moderation backend: a warning ledger, a per-group
//! escalation-policy store, the escalation dispatch engine, and a verified
//! document codec for persisting both stores.

pub mod actions;
pub mod codec;
pub mod data;
pub mod engine;
pub mod error;
pub mod laws;
pub mod ledger;
pub mod logging;
pub mod meta;
pub mod moderation;
pub mod numfmt;
pub mod random;
pub mod settings;
pub mod timespec;
