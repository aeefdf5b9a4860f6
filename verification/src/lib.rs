//! Incremental tracking of approval stake for a proof-of-stake election.
//!
//! The crate keeps, for every election target, the total active stake that
//! backs it, and keeps two ranked indexes (one of voters, one of targets) in
//! step with that total as stakes and nominations change. Nothing is ever
//! summed up anew: each hook applies the difference that its caller reports.
//!
//! - `types`: stakes, roles, signed changes and the conversion of an amount
//!   to a voter score;
//! - `ledger`: the approval-stake ledger;
//! - `ranking` and `staking`: what the tracker asks of its collaborators, and
//!   an implementation of each that is held in memory;
//! - `tracker`: the hooks;
//! - `invariants`: what the hooks keep true, with the proofs.

pub mod types;
pub mod ledger;
pub mod ranking;
pub mod staking;
pub mod tracker;
pub mod invariants;
