//! Plain data of the reputation ledger: outcomes, scores, records, flags,
//! configuration, errors and the events the ledger emits.

use vstd::prelude::*;

verus! {

/// An account on the ledger (merchant, agent, buyer, admin or the contract
/// itself), identified by an integer handle.
pub type Address = u64;

/// Final (or intermediate) state of an escrow that gets recorded against an
/// entity.
#[derive(Clone, Copy, Debug, PartialEq, Eq, Structural)]
pub enum TransactionOutcome {
    Released,
    Refunded,
    Disputed,
    ResolvedSeller,
    ResolvedBuyer,
}

/// Tunable parameters of the score computation and of the flagging rules.
#[derive(Clone, Copy, Debug, PartialEq, Eq, Structural)]
pub struct ReputationConfig {
    pub decay_window_seconds: u64,
    pub min_transactions_threshold: u64,
    pub dispute_penalty_bps: u32,
    pub freeze_threshold_flags: u32,
}

/// Errors returned by the ledger's entry points.
#[derive(Clone, Copy, Debug, PartialEq, Eq, Structural)]
pub enum ReputationError {
    /// Part of the error interface; the ledger is constructed exactly once,
    /// so no entry point returns it.
    AlreadyInitialized,
    NotInitialized,
    Unauthorized,
    EntityNotFound,
    /// Same escrow already rated.
    DuplicateRating,
    /// Rating out of range.
    InvalidRating,
    EntityFrozen,
    /// Same reporter already holds an active flag.
    AlreadyFlagged,
    InvalidParam,
}

/// The numeric code of each error. Reputation errors own the range
/// `4000..=4999`.
pub open spec fn error_code(e: ReputationError) -> u32 {
    match e {
        ReputationError::AlreadyInitialized => 4001,
        ReputationError::NotInitialized => 4002,
        ReputationError::Unauthorized => 4003,
        ReputationError::EntityNotFound => 4004,
        ReputationError::DuplicateRating => 4005,
        ReputationError::InvalidRating => 4006,
        ReputationError::EntityFrozen => 4007,
        ReputationError::AlreadyFlagged => 4008,
        ReputationError::InvalidParam => 4009,
    }
}

impl ReputationError {
    /// Numeric code of the error, inside the range `4000..=4999`.
    pub fn code(&self) -> (c: u32)
        ensures
            c == error_code(*self),
            4000 <= c <= 4999,
    {
        match self {
            ReputationError::AlreadyInitialized => 4001,
            ReputationError::NotInitialized => 4002,
            ReputationError::Unauthorized => 4003,
            ReputationError::EntityNotFound => 4004,
            ReputationError::DuplicateRating => 4005,
            ReputationError::InvalidRating => 4006,
            ReputationError::EntityFrozen => 4007,
            ReputationError::AlreadyFlagged => 4008,
            ReputationError::InvalidParam => 4009,
        }
    }
}

/// Reputation of one entity.
#[derive(Clone, Copy, Debug, PartialEq, Eq, Structural)]
pub struct ReputationScore {
    pub entity: Address,
    /// 0-10000 basis points. Masked to `0` by `get_reputation` until
    /// `total_transactions` reaches `min_transactions_threshold`.
    pub score: u32,
    pub total_transactions: u64,
    pub successful_transactions: u64,
    pub disputed_transactions: u64,
    /// 0-10000 basis points of a 5-star scale, time-decayed like `score`.
    pub avg_rating: u32,
    pub last_updated: u64,
}

/// One escrow outcome recorded against `entity`.
#[derive(Clone, Copy, Debug, PartialEq, Eq, Structural)]
pub struct TransactionRecord {
    pub escrow_id: u64,
    pub entity: Address,
    pub counterparty: Address,
    pub amount: i128,
    pub outcome: TransactionOutcome,
    /// 0-10000, set once by `rate_entity`.
    pub rating: Option<u32>,
    pub recorded_at: u64,
}

/// A report filed against an entity.
#[derive(Clone, Debug, PartialEq, Eq)]
pub struct Flag {
    pub reporter: Address,
    pub entity: Address,
    pub reason: String,
    pub details: Option<String>,
    pub flagged_at: u64,
    pub resolved: bool,
}

/// Field-by-field copy of a flag.
pub fn copy_flag(f: &Flag) -> (r: Flag)
    ensures
        r == *f,
{
    let details = match &f.details {
        Some(d) => Some(d.clone()),
        None => None,
    };
    Flag {
        reporter: f.reporter,
        entity: f.entity,
        reason: f.reason.clone(),
        details,
        flagged_at: f.flagged_at,
        resolved: f.resolved,
    }
}

#[derive(Clone, Copy, Debug, PartialEq, Eq, Structural)]
pub struct TransactionRecordedEvent {
    pub escrow_id: u64,
    pub entity: Address,
    pub outcome: TransactionOutcome,
    pub new_score: u32,
}

#[derive(Clone, Copy, Debug, PartialEq, Eq, Structural)]
pub struct EntityRatedEvent {
    pub rater: Address,
    pub entity: Address,
    pub rating: u32,
    pub escrow_id: u64,
}

#[derive(Clone, Debug, PartialEq, Eq)]
pub struct EntityFlaggedEvent {
    pub reporter: Address,
    pub entity: Address,
    pub reason: String,
    pub flag_count: u32,
}

#[derive(Clone, Copy, Debug, PartialEq, Eq, Structural)]
pub struct EntityFrozenEvent {
    pub entity: Address,
    pub frozen_by: Address,
}

#[derive(Clone, Copy, Debug, PartialEq, Eq, Structural)]
pub struct EntityUnfrozenEvent {
    pub entity: Address,
    pub unfrozen_by: Address,
}

#[derive(Clone, Copy, Debug, PartialEq, Eq, Structural)]
pub struct AdminProposedEvent {
    pub current_admin: Address,
    pub new_admin: Address,
}

#[derive(Clone, Copy, Debug, PartialEq, Eq, Structural)]
pub struct AdminAcceptedEvent {
    pub new_admin: Address,
}

/// Every event the ledger emits, in the order of emission.
#[derive(Clone, Debug, PartialEq, Eq)]
pub enum ReputationEvent {
    TransactionRecorded(TransactionRecordedEvent),
    EntityRated(EntityRatedEvent),
    EntityFlagged(EntityFlaggedEvent),
    EntityFrozen(EntityFrozenEvent),
    EntityUnfrozen(EntityUnfrozenEvent),
    AdminProposed(AdminProposedEvent),
    AdminAccepted(AdminAcceptedEvent),
}

} // verus!
