//! A verified reputation ledger: time-decayed trust scores for merchants and
//! agents, driven by escrow outcomes, counterparty ratings and flags.

pub mod types;
pub mod scoring;
pub mod model;
pub mod invariants;
pub mod contract;
pub mod laws;
