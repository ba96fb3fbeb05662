//! The rules of each provider: how raw mechanism data becomes normalised jobs,
//! and which mechanism call each lifecycle action turns into.
pub mod docker;
pub mod systemd;
