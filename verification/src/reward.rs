//! Rewards: their configuration, the payments of one step, and shaping.

pub mod account;
pub mod balance;
pub mod config;
pub mod laws;
pub mod odds;
pub mod paid;
pub mod payments;
pub mod shaping;
pub mod telemetry;
pub mod terms;
