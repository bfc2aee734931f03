//! Accounting and lifecycle engine for a contract-staking scheme.
//!
//! Accounts lock funds ("bond"), direct that stake toward registered
//! contracts, vote on contract quality, and receive era-based rewards.
//! The engine owns the staking ledgers, the era/forcing state machine,
//! the contract registry and the reward distributor.  Outside concerns
//! (authentication, currency transfers, the clock, contract existence)
//! hand in plain values and apply the engine's decisions.

pub mod types;
pub mod model;
pub mod state;
pub mod ledger;
pub mod era;
pub mod registry;
pub mod rewards;
pub mod laws;
