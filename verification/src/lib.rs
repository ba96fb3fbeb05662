//! Maestro: a cockpit for background jobs (user services, timers, containers).
//!
//! This crate holds the verified core: the normalised data model, the rules
//! each provider applies to turn raw mechanism data into jobs, the routing of
//! actions by global id, and the decisions of the background loops.
pub mod events;
pub mod error;
pub mod model;
pub mod provider;
pub mod registry;
pub mod text;
