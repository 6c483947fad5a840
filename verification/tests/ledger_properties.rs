use delego_reputation::contract::ReputationContract;
use delego_reputation::scoring::{outcome_value_bps, recency_weight_bps, SCORE_WINDOW};
use delego_reputation::types::{
    Address, EntityFrozenEvent, ReputationConfig, ReputationError, ReputationEvent,
    TransactionOutcome, TransactionRecordedEvent,
};

const CONTRACT: Address = 77;
const ADMIN: Address = 1;
const ENTITY: Address = 100;
const BUYER: Address = 200;

fn config(threshold: u64) -> ReputationConfig {
    ReputationConfig {
        decay_window_seconds: 100,
        min_transactions_threshold: threshold,
        dispute_penalty_bps: 500,
        freeze_threshold_flags: 2,
    }
}

fn ledger(threshold: u64) -> ReputationContract {
    ReputationContract::__constructor(CONTRACT, ADMIN, config(threshold)).unwrap()
}

#[test]
fn recency_weight_exact_values() {
    assert_eq!(recency_weight_bps(0, 100), 10_000);
    assert_eq!(recency_weight_bps(50, 100), 7_500);
    assert_eq!(recency_weight_bps(100, 100), 5_000);
    assert_eq!(recency_weight_bps(150, 100), 3_750);
    assert_eq!(recency_weight_bps(1_299, 100), 2);
    assert_eq!(recency_weight_bps(1_300, 100), 0);
    assert_eq!(recency_weight_bps(123, 0), 10_000);
}

#[test]
fn recency_weight_never_increases() {
    let mut prev = recency_weight_bps(0, 7);
    for e in 1..200u64 {
        let w = recency_weight_bps(e, 7);
        assert!(w <= prev);
        assert!((0..=10_000).contains(&w));
        prev = w;
    }
}

#[test]
fn outcome_values() {
    assert_eq!(outcome_value_bps(&TransactionOutcome::Released), 10_000);
    assert_eq!(outcome_value_bps(&TransactionOutcome::Refunded), 2_000);
    assert_eq!(outcome_value_bps(&TransactionOutcome::Disputed), 0);
    assert_eq!(outcome_value_bps(&TransactionOutcome::ResolvedSeller), 8_000);
    assert_eq!(outcome_value_bps(&TransactionOutcome::ResolvedBuyer), 2_000);
}

#[test]
fn score_formula_with_dispute_penalty() {
    let mut l = ledger(1);
    l.record_transaction(ADMIN, 1, ENTITY, BUYER, 10, TransactionOutcome::Released, 0).unwrap();
    l.record_transaction(ADMIN, 2, ENTITY, BUYER, 10, TransactionOutcome::Disputed, 0).unwrap();
    // (10000 * 10000 + 10000 * 0) / 20000 - 1 * 500
    assert_eq!(l.get_reputation(ENTITY).unwrap().score, 4_500);
}

#[test]
fn score_formula_weights_by_age() {
    let mut l = ledger(1);
    l.record_transaction(ADMIN, 1, ENTITY, BUYER, 10, TransactionOutcome::Released, 0).unwrap();
    // one half-life later: weights 5000 (Released) and 10000 (Refunded)
    l.record_transaction(ADMIN, 2, ENTITY, BUYER, 10, TransactionOutcome::Refunded, 100).unwrap();
    // (5000 * 10000 + 10000 * 2000) / 15000 = 4666
    let rep = l.get_reputation(ENTITY).unwrap();
    assert_eq!(rep.score, 4_666);
    assert_eq!(rep.last_updated, 100);
}

#[test]
fn lifetime_counts_are_exact() {
    let mut l = ledger(1);
    let outcomes = [
        TransactionOutcome::Released,
        TransactionOutcome::Disputed,
        TransactionOutcome::ResolvedSeller,
        TransactionOutcome::Refunded,
        TransactionOutcome::Disputed,
    ];
    for (i, o) in outcomes.iter().enumerate() {
        l.record_transaction(ADMIN, i as u64, ENTITY, BUYER, 1, *o, 0).unwrap();
    }
    // change escrow 1 from Disputed to ResolvedSeller and escrow 0 to Disputed
    l.record_transaction(ADMIN, 1, ENTITY, BUYER, 1, TransactionOutcome::ResolvedSeller, 0).unwrap();
    l.record_transaction(ADMIN, 0, ENTITY, BUYER, 1, TransactionOutcome::Disputed, 0).unwrap();
    let rep = l.get_reputation(ENTITY).unwrap();
    assert_eq!(rep.total_transactions, 5);
    assert_eq!(rep.successful_transactions, 2);
    assert_eq!(rep.disputed_transactions, 2);
}

#[test]
fn refused_requests_change_nothing() {
    let mut l = ledger(1);
    l.record_transaction(ADMIN, 1, ENTITY, BUYER, 1, TransactionOutcome::Released, 0).unwrap();
    let before = l.get_reputation(ENTITY).unwrap();
    let events_before = l.events().len();
    assert_eq!(
        l.record_transaction(BUYER, 2, ENTITY, BUYER, 1, TransactionOutcome::Disputed, 5),
        Err(ReputationError::Unauthorized)
    );
    assert_eq!(l.get_reputation(ENTITY).unwrap(), before);
    assert_eq!(l.events().len(), events_before);
}

#[test]
fn rating_survives_lifecycle_update() {
    let mut l = ledger(1);
    l.record_transaction(ADMIN, 1, ENTITY, BUYER, 1, TransactionOutcome::Released, 0).unwrap();
    l.rate_entity(BUYER, 1, ENTITY, 7_000, 0).unwrap();
    l.record_transaction(ADMIN, 1, ENTITY, BUYER, 1, TransactionOutcome::ResolvedSeller, 0).unwrap();
    let b = l.get_reputation_breakdown(ENTITY, 0, 10).unwrap();
    assert_eq!(b[0].rating, Some(7_000));
    assert_eq!(l.get_reputation(ENTITY).unwrap().avg_rating, 7_000);
    assert_eq!(l.rate_entity(BUYER, 1, ENTITY, 9_000, 0), Err(ReputationError::DuplicateRating));
}

#[test]
fn events_are_emitted_in_order() {
    let mut l = ledger(1);
    l.record_transaction(ADMIN, 1, ENTITY, BUYER, 1, TransactionOutcome::Released, 0).unwrap();
    l.flag_entity(BUYER, ENTITY, "fraud".to_string(), None, 3).unwrap();
    l.flag_entity(ADMIN, ENTITY, "spam".to_string(), None, 4).unwrap();
    let ev = l.take_events();
    assert_eq!(ev.len(), 4);
    assert_eq!(
        ev[0],
        ReputationEvent::TransactionRecorded(TransactionRecordedEvent {
            escrow_id: 1,
            entity: ENTITY,
            outcome: TransactionOutcome::Released,
            new_score: 10_000,
        })
    );
    assert_eq!(
        ev[3],
        ReputationEvent::EntityFrozen(EntityFrozenEvent { entity: ENTITY, frozen_by: CONTRACT })
    );
    assert!(l.events().is_empty());
    assert!(l.is_frozen(ENTITY));
}

#[test]
fn flags_pagination_and_details() {
    let mut l = ledger(1);
    for r in 0..5u64 {
        l.record_transaction(ADMIN, r, ENTITY, 300 + r, 1, TransactionOutcome::Released, 0).unwrap();
    }
    for r in 0..5u64 {
        l.flag_entity(300 + r, ENTITY, "spam".to_string(), Some(format!("report {r}")), r).unwrap();
    }
    let page = l.get_flags(ENTITY, 3, 10).unwrap();
    assert_eq!(page.len(), 2);
    assert_eq!(page[0].reporter, 303);
    assert_eq!(page[1].details, Some("report 4".to_string()));
    assert_eq!(l.get_flags(ENTITY, u32::MAX, u32::MAX).unwrap().len(), 0);
}

#[test]
fn resolve_does_not_unfreeze() {
    let mut l = ledger(1);
    l.freeze_entity(ADMIN, ENTITY).unwrap();
    l.flag_entity(ADMIN, ENTITY, "fraud".to_string(), None, 0).unwrap();
    l.resolve_flag(ADMIN, ADMIN, ENTITY).unwrap();
    assert!(l.is_frozen(ENTITY));
}

#[test]
fn relation_only_for_recorded_parties() {
    let mut l = ledger(1);
    l.record_transaction(ADMIN, 1, ENTITY, BUYER, 1, TransactionOutcome::Released, 0).unwrap();
    assert!(l.has_relation(BUYER, ENTITY, true));
    assert!(!l.has_relation(ENTITY, 999, true));
    // the entity may not report its counterparty on the strength of its own escrow
    assert_eq!(
        l.flag_entity(ENTITY, BUYER, "fraud".to_string(), None, 0),
        Err(ReputationError::Unauthorized)
    );
    // the counterparty may report the entity
    l.flag_entity(BUYER, ENTITY, "fraud".to_string(), None, 0).unwrap();
}

#[test]
fn error_codes_in_reputation_range() {
    let all = [
        ReputationError::AlreadyInitialized,
        ReputationError::NotInitialized,
        ReputationError::Unauthorized,
        ReputationError::EntityNotFound,
        ReputationError::DuplicateRating,
        ReputationError::InvalidRating,
        ReputationError::EntityFrozen,
        ReputationError::AlreadyFlagged,
        ReputationError::InvalidParam,
    ];
    for (i, e) in all.iter().enumerate() {
        assert_eq!(e.code(), 4001 + i as u32);
    }
}

#[test]
fn threshold_equal_to_window_is_reachable() {
    let mut l = ledger(SCORE_WINDOW as u64);
    for i in 0..SCORE_WINDOW as u64 {
        l.record_transaction(ADMIN, i, ENTITY, BUYER, 1, TransactionOutcome::ResolvedSeller, 0).unwrap();
    }
    assert_eq!(l.get_reputation(ENTITY).unwrap().score, 8_000);
}
