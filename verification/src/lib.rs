//! A DAO-governance contract core: a staking pool with time-weighted,
//! proportional reward accrual, and a timed, quorum-gated proposal
//! lifecycle with double-vote prevention.
//!
//! The hosting environment supplies the caller identity and a monotonic
//! logical clock as parameters to each operation; persistence and event
//! delivery are left to the embedding layer. Every operation is an
//! all-or-nothing transaction: a failed call returns a specific error and
//! leaves the state untouched. Balance arithmetic is checked throughout;
//! overflow is reported, never silently clamped.
//!
//! `model` holds the mathematical view of the ledger and the transition
//! functions that every operation is specified against; `state` holds the
//! contract state and its queries; `staking` and `governance` hold the
//! mutating operations; `laws` holds proved properties that relate several
//! operations.

pub mod governance;
pub mod laws;
pub mod model;
pub mod staking;
pub mod state;
pub mod types;

pub use state::DevKitShowcase;
pub use types::{
    AccountId, Balance, Error, Event, Proposal, ProposalCreated, ProposalExecuted, RewardsClaimed,
    Staked, StakerEntry, StakerInfo, Unstaked, Voted,
};
