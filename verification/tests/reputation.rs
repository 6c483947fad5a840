use delego_reputation::contract::ReputationContract;
use delego_reputation::scoring::{recency_weight_bps, BPS_SCALE, MAX_HALVINGS, SCORE_WINDOW};
use delego_reputation::types::{Address, ReputationConfig, ReputationError, TransactionOutcome};

const CONTRACT: Address = 9_999;
const ADMIN: Address = 1;

fn default_config() -> ReputationConfig {
    ReputationConfig {
        decay_window_seconds: 90 * 24 * 60 * 60,
        min_transactions_threshold: 5,
        dispute_penalty_bps: 500,
        freeze_threshold_flags: 3,
    }
}

fn setup() -> (ReputationContract, Address) {
    let c = ReputationContract::__constructor(CONTRACT, ADMIN, default_config()).unwrap();
    (c, ADMIN)
}

/// Distinct addresses for the parties of a test.
fn generate(n: u64) -> Address {
    1_000 + n
}

// --- constructor ---

#[test]
fn test_constructor_sets_admin_and_config() {
    let (client, _admin) = setup();
    assert_eq!(client.get_config().unwrap(), default_config());
}

#[test]
#[should_panic]
fn test_constructor_rejects_zero_decay_window() {
    let mut bad = default_config();
    bad.decay_window_seconds = 0;
    ReputationContract::__constructor(CONTRACT, ADMIN, bad).unwrap();
}

#[test]
#[should_panic]
fn test_constructor_rejects_dispute_penalty_over_max() {
    let mut bad = default_config();
    bad.dispute_penalty_bps = 10_001;
    ReputationContract::__constructor(CONTRACT, ADMIN, bad).unwrap();
}

#[test]
#[should_panic]
fn test_constructor_rejects_zero_freeze_threshold() {
    let mut bad = default_config();
    bad.freeze_threshold_flags = 0;
    ReputationContract::__constructor(CONTRACT, ADMIN, bad).unwrap();
}

// --- min_transactions_threshold vs SCORE_WINDOW ---

#[test]
#[should_panic]
fn test_constructor_rejects_threshold_over_window() {
    let mut bad = default_config();
    bad.min_transactions_threshold = SCORE_WINDOW as u64 + 1;
    ReputationContract::__constructor(CONTRACT, ADMIN, bad).unwrap();
}

#[test]
fn test_constructor_accepts_threshold_equal_to_window() {
    let mut cfg = default_config();
    cfg.min_transactions_threshold = SCORE_WINDOW as u64;
    let client = ReputationContract::__constructor(CONTRACT, ADMIN, cfg).unwrap();
    assert_eq!(client.get_config().unwrap(), cfg);
}

#[test]
fn test_update_config_rejects_threshold_over_window() {
    let (mut client, admin) = setup();
    let mut bad = default_config();
    bad.min_transactions_threshold = SCORE_WINDOW as u64 + 1;
    let res = client.update_config(admin, bad);
    assert_eq!(res, Err(ReputationError::InvalidParam));
}

#[test]
fn test_masking_uses_lifetime_counts_not_window() {
    let mut cfg = default_config();
    cfg.min_transactions_threshold = SCORE_WINDOW as u64;
    let mut client = ReputationContract::__constructor(CONTRACT, ADMIN, cfg).unwrap();
    let entity = generate(1);
    let counterparty = generate(2);
    for i in 0..SCORE_WINDOW as u64 {
        client
            .record_transaction(ADMIN, i, entity, counterparty, 1000i128, TransactionOutcome::Released, 0)
            .unwrap();
    }
    let rep = client.get_reputation(entity).unwrap();
    assert_eq!(rep.total_transactions, SCORE_WINDOW as u64);
    assert_eq!(rep.score, 10_000);
}

#[test]
fn test_masking_keeps_score_hidden_below_threshold() {
    let mut cfg = default_config();
    cfg.min_transactions_threshold = SCORE_WINDOW as u64;
    let mut client = ReputationContract::__constructor(CONTRACT, ADMIN, cfg).unwrap();
    let entity = generate(1);
    let counterparty = generate(2);
    for i in 0..(SCORE_WINDOW as u64 - 1) {
        client
            .record_transaction(ADMIN, i, entity, counterparty, 1000i128, TransactionOutcome::Released, 0)
            .unwrap();
    }
    let rep = client.get_reputation(entity).unwrap();
    assert_eq!(rep.total_transactions, SCORE_WINDOW as u64 - 1);
    assert_eq!(rep.score, 0);
}

// --- record_transaction ---

#[test]
fn test_record_transaction_released_scores_full() {
    let (mut client, admin) = setup();
    let entity = generate(1);
    let counterparty = generate(2);
    client
        .record_transaction(admin, 1u64, entity, counterparty, 1000i128, TransactionOutcome::Released, 0)
        .unwrap();
    let rep = client.get_reputation(entity).unwrap();
    // Below min_transactions_threshold (5), so score is masked.
    assert_eq!(rep.score, 0);
    assert_eq!(rep.total_transactions, 1);
    assert_eq!(rep.successful_transactions, 1);
    assert_eq!(rep.disputed_transactions, 0);
}

#[test]
fn test_record_transaction_records_relation_in_both_directions() {
    let (mut client, admin) = setup();
    let entity = generate(1);
    let counterparty = generate(2);
    client
        .record_transaction(admin, 1u64, entity, counterparty, 1000i128, TransactionOutcome::Released, 0)
        .unwrap();
    assert!(client.has_relation(entity, counterparty, false));
    assert!(client.has_relation(counterparty, entity, false));
    assert!(client.has_relation(entity, counterparty, true));
    assert!(client.has_relation(counterparty, entity, true));
    let stranger = generate(3);
    assert!(!client.has_relation(entity, stranger, false));
}

#[test]
fn test_record_transaction_unmasks_score_at_threshold() {
    let (mut client, admin) = setup();
    let entity = generate(1);
    let counterparty = generate(2);
    for i in 0..5u64 {
        client
            .record_transaction(admin, i, entity, counterparty, 1000i128, TransactionOutcome::Released, 0)
            .unwrap();
    }
    let rep = client.get_reputation(entity).unwrap();
    assert_eq!(rep.total_transactions, 5);
    assert_eq!(rep.score, 10_000);
}

#[test]
fn test_record_transaction_unauthorized_caller() {
    let (mut client, _admin) = setup();
    let entity = generate(1);
    let counterparty = generate(2);
    let not_admin = generate(3);
    let res = client.record_transaction(
        not_admin,
        1u64,
        entity,
        counterparty,
        1000i128,
        TransactionOutcome::Released,
        0,
    );
    assert_eq!(res, Err(ReputationError::Unauthorized));
}

#[test]
fn test_record_transaction_rejects_frozen_entity() {
    let (mut client, admin) = setup();
    let entity = generate(1);
    let counterparty = generate(2);
    client.freeze_entity(admin, entity).unwrap();
    let res = client.record_transaction(
        admin,
        1u64,
        entity,
        counterparty,
        1000i128,
        TransactionOutcome::Released,
        0,
    );
    assert_eq!(res, Err(ReputationError::EntityFrozen));
}

#[test]
fn test_record_transaction_allows_lifecycle_update_while_frozen() {
    let (mut client, admin) = setup();
    let entity = generate(1);
    let counterparty = generate(2);
    client
        .record_transaction(admin, 1u64, entity, counterparty, 1000i128, TransactionOutcome::Disputed, 0)
        .unwrap();
    client.freeze_entity(admin, entity).unwrap();
    client
        .record_transaction(
            admin,
            1u64,
            entity,
            counterparty,
            1000i128,
            TransactionOutcome::ResolvedSeller,
            0,
        )
        .unwrap();
    let rep = client.get_reputation(entity).unwrap();
    assert_eq!(rep.disputed_transactions, 0);
    assert_eq!(rep.successful_transactions, 1);
    let res = client.record_transaction(
        admin,
        2u64,
        entity,
        counterparty,
        1000i128,
        TransactionOutcome::Released,
        0,
    );
    assert_eq!(res, Err(ReputationError::EntityFrozen));
}

#[test]
fn test_record_transaction_same_escrow_updates_in_place() {
    let (mut client, admin) = setup();
    let entity = generate(1);
    let counterparty = generate(2);
    client
        .record_transaction(admin, 1u64, entity, counterparty, 1000i128, TransactionOutcome::Disputed, 0)
        .unwrap();
    client
        .record_transaction(
            admin,
            1u64,
            entity,
            counterparty,
            1000i128,
            TransactionOutcome::ResolvedSeller,
            0,
        )
        .unwrap();
    let rep = client.get_reputation(entity).unwrap();
    assert_eq!(rep.total_transactions, 1);
    assert_eq!(rep.disputed_transactions, 0);
    assert_eq!(rep.successful_transactions, 1);
    let breakdown = client.get_reputation_breakdown(entity, 0u32, 10u32).unwrap();
    assert_eq!(breakdown.len(), 1);
    assert!(matches!(breakdown[0].outcome, TransactionOutcome::ResolvedSeller));
}

#[test]
fn test_record_transaction_rejects_entity_mismatch_for_existing_escrow() {
    let (mut client, admin) = setup();
    let entity_a = generate(1);
    let entity_b = generate(2);
    let counterparty = generate(3);
    client
        .record_transaction(admin, 1u64, entity_a, counterparty, 1000i128, TransactionOutcome::Released, 0)
        .unwrap();
    let res = client.record_transaction(
        admin,
        1u64,
        entity_b,
        counterparty,
        1000i128,
        TransactionOutcome::Released,
        0,
    );
    assert_eq!(res, Err(ReputationError::InvalidParam));
}

#[test]
fn test_score_decays_over_time() {
    let (mut client, admin) = setup();
    let entity = generate(1);
    let counterparty = generate(2);
    let mut now: u64 = 0;
    for i in 0..5u64 {
        client
            .record_transaction(admin, i, entity, counterparty, 1000i128, TransactionOutcome::Released, now)
            .unwrap();
    }
    let fresh = client.get_reputation(entity).unwrap();
    assert_eq!(fresh.score, 10_000);

    now += default_config().decay_window_seconds;
    client
        .record_transaction(admin, 99u64, entity, counterparty, 1000i128, TransactionOutcome::Disputed, now)
        .unwrap();
    let decayed = client.get_reputation(entity).unwrap();
    assert!(decayed.score < fresh.score);
}

#[test]
fn test_score_bounded_to_recent_window() {
    let (mut client, admin) = setup();
    let entity = generate(1);
    let counterparty = generate(2);
    for i in 0..10u64 {
        client
            .record_transaction(admin, i, entity, counterparty, 1000i128, TransactionOutcome::Disputed, 0)
            .unwrap();
    }
    for i in 10..(10 + SCORE_WINDOW as u64) {
        client
            .record_transaction(admin, i, entity, counterparty, 1000i128, TransactionOutcome::Released, 0)
            .unwrap();
    }
    let rep = client.get_reputation(entity).unwrap();
    assert_eq!(rep.total_transactions, 10 + SCORE_WINDOW as u64);
    assert_eq!(rep.disputed_transactions, 10);
    assert_eq!(rep.score, 10_000);

    client
        .record_transaction(
            admin,
            10 + SCORE_WINDOW as u64,
            entity,
            counterparty,
            1000i128,
            TransactionOutcome::Disputed,
            0,
        )
        .unwrap();
    let rep = client.get_reputation(entity).unwrap();
    assert!(rep.score < 10_000);
}

// --- rate_entity ---

#[test]
fn test_rate_entity_happy_path() {
    let (mut client, admin) = setup();
    let entity = generate(1);
    let counterparty = generate(2);
    client
        .record_transaction(admin, 1u64, entity, counterparty, 1000i128, TransactionOutcome::Released, 0)
        .unwrap();
    client.rate_entity(counterparty, 1u64, entity, 9000u32, 0).unwrap();
    let breakdown = client.get_reputation_breakdown(entity, 0u32, 10u32).unwrap();
    assert_eq!(breakdown[0].rating, Some(9000u32));
}

#[test]
fn test_rate_entity_updates_avg_rating() {
    let (mut client, admin) = setup();
    let entity = generate(1);
    let counterparty = generate(2);
    for i in 0..5u64 {
        client
            .record_transaction(admin, i, entity, counterparty, 1000i128, TransactionOutcome::Released, 0)
            .unwrap();
    }
    client.rate_entity(counterparty, 0u64, entity, 8000u32, 0).unwrap();
    client.rate_entity(counterparty, 1u64, entity, 10_000u32, 0).unwrap();
    let rep = client.get_reputation(entity).unwrap();
    assert_eq!(rep.avg_rating, 9000);
}

#[test]
fn test_rate_entity_duplicate_rejected() {
    let (mut client, admin) = setup();
    let entity = generate(1);
    let counterparty = generate(2);
    client
        .record_transaction(admin, 1u64, entity, counterparty, 1000i128, TransactionOutcome::Released, 0)
        .unwrap();
    client.rate_entity(counterparty, 1u64, entity, 9000u32, 0).unwrap();
    let res = client.rate_entity(counterparty, 1u64, entity, 8000u32, 0);
    assert_eq!(res, Err(ReputationError::DuplicateRating));
}

#[test]
fn test_rate_entity_invalid_rating_rejected() {
    let (mut client, admin) = setup();
    let entity = generate(1);
    let counterparty = generate(2);
    client
        .record_transaction(admin, 1u64, entity, counterparty, 1000i128, TransactionOutcome::Released, 0)
        .unwrap();
    let res = client.rate_entity(counterparty, 1u64, entity, 10_001u32, 0);
    assert_eq!(res, Err(ReputationError::InvalidRating));
}

#[test]
fn test_rate_entity_wrong_rater_rejected() {
    let (mut client, admin) = setup();
    let entity = generate(1);
    let counterparty = generate(2);
    let stranger = generate(3);
    client
        .record_transaction(admin, 1u64, entity, counterparty, 1000i128, TransactionOutcome::Released, 0)
        .unwrap();
    let res = client.rate_entity(stranger, 1u64, entity, 9000u32, 0);
    assert_eq!(res, Err(ReputationError::Unauthorized));
}

#[test]
fn test_rate_entity_missing_escrow_rejected() {
    let (mut client, _admin) = setup();
    let entity = generate(1);
    let counterparty = generate(2);
    let res = client.rate_entity(counterparty, 1u64, entity, 9000u32, 0);
    assert_eq!(res, Err(ReputationError::EntityNotFound));
}

#[test]
fn test_rate_entity_rejects_disputed_outcome() {
    let (mut client, admin) = setup();
    let entity = generate(1);
    let counterparty = generate(2);
    client
        .record_transaction(admin, 1u64, entity, counterparty, 1000i128, TransactionOutcome::Disputed, 0)
        .unwrap();
    let res = client.rate_entity(counterparty, 1u64, entity, 9000u32, 0);
    assert_eq!(res, Err(ReputationError::InvalidParam));
}

#[test]
fn test_rate_entity_rejects_frozen_entity() {
    let (mut client, admin) = setup();
    let entity = generate(1);
    let counterparty = generate(2);
    client
        .record_transaction(admin, 1u64, entity, counterparty, 1000i128, TransactionOutcome::Released, 0)
        .unwrap();
    client.freeze_entity(admin, entity).unwrap();
    let res = client.rate_entity(counterparty, 1u64, entity, 9000u32, 0);
    assert_eq!(res, Err(ReputationError::EntityFrozen));
}

// --- get_reputation ---

#[test]
fn test_get_reputation_not_found() {
    let (client, _admin) = setup();
    let entity = generate(1);
    assert_eq!(client.get_reputation(entity), Err(ReputationError::EntityNotFound));
}

// --- pagination ---

#[test]
fn test_get_reputation_breakdown_pagination() {
    let (mut client, admin) = setup();
    let entity = generate(1);
    let counterparty = generate(2);
    for i in 0..10u64 {
        client
            .record_transaction(admin, i, entity, counterparty, 1000i128, TransactionOutcome::Released, 0)
            .unwrap();
    }
    let page1 = client.get_reputation_breakdown(entity, 0u32, 4u32).unwrap();
    assert_eq!(page1.len(), 4);
    let page2 = client.get_reputation_breakdown(entity, 4u32, 4u32).unwrap();
    assert_eq!(page2.len(), 4);
    let page3 = client.get_reputation_breakdown(entity, 8u32, 4u32).unwrap();
    assert_eq!(page3.len(), 2);
    let out_of_range = client.get_reputation_breakdown(entity, 100u32, 4u32).unwrap();
    assert_eq!(out_of_range.len(), 0);
}

// --- flagging ---

/// Establishes `reporter` as a genuine counterparty of `entity`.
fn make_transacting_counterparty(
    client: &mut ReputationContract,
    admin: Address,
    entity: Address,
    reporter: Address,
    escrow_id: u64,
) {
    client
        .record_transaction(admin, escrow_id, entity, reporter, 1000i128, TransactionOutcome::Released, 0)
        .unwrap();
}

#[test]
fn test_flag_entity_happy_path() {
    let (mut client, admin) = setup();
    let entity = generate(1);
    let reporter = generate(2);
    make_transacting_counterparty(&mut client, admin, entity, reporter, 1u64);
    client
        .flag_entity(reporter, entity, "fraud".to_string(), Some("fake goods".to_string()), 0)
        .unwrap();
    let flags = client.get_flags(entity, 0u32, 10u32).unwrap();
    assert_eq!(flags.len(), 1);
    assert!(!flags[0].resolved);
    assert!(!client.is_frozen(entity));
}

#[test]
fn test_flag_entity_rejects_non_counterparty_non_admin() {
    let (mut client, _admin) = setup();
    let entity = generate(1);
    let stranger = generate(2);
    let res = client.flag_entity(stranger, entity, "fraud".to_string(), None, 0);
    assert_eq!(res, Err(ReputationError::Unauthorized));
}

#[test]
fn test_flag_entity_allows_admin_without_transaction() {
    let (mut client, admin) = setup();
    let entity = generate(1);
    client.flag_entity(admin, entity, "fraud".to_string(), None, 0).unwrap();
    let flags = client.get_flags(entity, 0u32, 10u32).unwrap();
    assert_eq!(flags.len(), 1);
}

#[test]
fn test_flag_entity_same_reporter_rejected_while_active() {
    let (mut client, admin) = setup();
    let entity = generate(1);
    let reporter = generate(2);
    make_transacting_counterparty(&mut client, admin, entity, reporter, 1u64);
    client.flag_entity(reporter, entity, "fraud".to_string(), None, 0).unwrap();
    let res = client.flag_entity(reporter, entity, "spam".to_string(), None, 0);
    assert_eq!(res, Err(ReputationError::AlreadyFlagged));
}

#[test]
fn test_flag_entity_auto_freezes_at_threshold() {
    let (mut client, admin) = setup();
    let entity = generate(1);
    for i in 0..3u64 {
        let reporter = generate(10 + i);
        make_transacting_counterparty(&mut client, admin, entity, reporter, i);
        client.flag_entity(reporter, entity, "fraud".to_string(), None, 0).unwrap();
    }
    assert!(client.is_frozen(entity));
}

#[test]
fn test_resolve_flag_happy_path() {
    let (mut client, admin) = setup();
    let entity = generate(1);
    let reporter = generate(2);
    make_transacting_counterparty(&mut client, admin, entity, reporter, 1u64);
    client.flag_entity(reporter, entity, "fraud".to_string(), None, 0).unwrap();
    client.resolve_flag(admin, reporter, entity).unwrap();
    let flags = client.get_flags(entity, 0u32, 10u32).unwrap();
    assert!(flags[0].resolved);
    client.flag_entity(reporter, entity, "spam".to_string(), None, 0).unwrap();
    let flags = client.get_flags(entity, 0u32, 10u32).unwrap();
    assert_eq!(flags.len(), 2);
}

#[test]
fn test_resolve_flag_unauthorized() {
    let (mut client, admin) = setup();
    let entity = generate(1);
    let reporter = generate(2);
    let not_admin = generate(3);
    make_transacting_counterparty(&mut client, admin, entity, reporter, 1u64);
    client.flag_entity(reporter, entity, "fraud".to_string(), None, 0).unwrap();
    let res = client.resolve_flag(not_admin, reporter, entity);
    assert_eq!(res, Err(ReputationError::Unauthorized));
}

#[test]
fn test_resolve_flag_missing() {
    let (mut client, admin) = setup();
    let entity = generate(1);
    let reporter = generate(2);
    let res = client.resolve_flag(admin, reporter, entity);
    assert_eq!(res, Err(ReputationError::EntityNotFound));
}

// --- freeze / unfreeze ---

#[test]
fn test_freeze_and_unfreeze_entity() {
    let (mut client, admin) = setup();
    let entity = generate(1);
    assert!(!client.is_frozen(entity));
    client.freeze_entity(admin, entity).unwrap();
    assert!(client.is_frozen(entity));
    client.unfreeze_entity(admin, entity).unwrap();
    assert!(!client.is_frozen(entity));
}

#[test]
fn test_freeze_entity_unauthorized() {
    let (mut client, _admin) = setup();
    let entity = generate(1);
    let not_admin = generate(2);
    let res = client.freeze_entity(not_admin, entity);
    assert_eq!(res, Err(ReputationError::Unauthorized));
}

// --- update_config ---

#[test]
fn test_update_config_happy_path() {
    let (mut client, admin) = setup();
    let mut new_config = default_config();
    new_config.min_transactions_threshold = 1;
    client.update_config(admin, new_config).unwrap();
    assert_eq!(client.get_config().unwrap(), new_config);
}

#[test]
fn test_get_config_parity() {
    let (mut client, admin) = setup();
    let mut new_config = default_config();
    new_config.freeze_threshold_flags = 1;
    client.update_config(admin, new_config).unwrap();
    assert_eq!(client.get_config().unwrap(), new_config);
}

#[test]
fn test_update_config_unauthorized() {
    let (mut client, _admin) = setup();
    let not_admin = generate(1);
    let res = client.update_config(not_admin, default_config());
    assert_eq!(res, Err(ReputationError::Unauthorized));
}

#[test]
fn test_update_config_rejects_invalid() {
    let (mut client, admin) = setup();
    let mut bad = default_config();
    bad.decay_window_seconds = 0;
    let res = client.update_config(admin, bad);
    assert_eq!(res, Err(ReputationError::InvalidParam));
}

// --- admin transfer ---

#[test]
fn test_propose_and_accept_admin() {
    let (mut client, admin) = setup();
    let new_admin = generate(1);
    client.propose_admin(admin, new_admin).unwrap();
    client.accept_admin(new_admin).unwrap();
    let entity = generate(2);
    let res = client.freeze_entity(admin, entity);
    assert_eq!(res, Err(ReputationError::Unauthorized));
    client.freeze_entity(new_admin, entity).unwrap();
    assert!(client.is_frozen(entity));
}

#[test]
fn test_propose_admin_unauthorized() {
    let (mut client, _admin) = setup();
    let not_admin = generate(1);
    let new_admin = generate(2);
    let res = client.propose_admin(not_admin, new_admin);
    assert_eq!(res, Err(ReputationError::Unauthorized));
}

#[test]
fn test_accept_admin_wrong_caller() {
    let (mut client, admin) = setup();
    let new_admin = generate(1);
    let stranger = generate(2);
    client.propose_admin(admin, new_admin).unwrap();
    let res = client.accept_admin(stranger);
    assert_eq!(res, Err(ReputationError::Unauthorized));
}

#[test]
fn test_accept_admin_no_pending_transfer() {
    let (mut client, _admin) = setup();
    let stranger = generate(1);
    let res = client.accept_admin(stranger);
    assert_eq!(res, Err(ReputationError::Unauthorized));
}

// --- recency_weight_bps decay curve ---

/// The half-life shift still produces a non-zero base at the cutoff.
#[test]
fn test_max_halvings_invariant() {
    assert!(
        BPS_SCALE >> MAX_HALVINGS != 0,
        "BPS_SCALE >> MAX_HALVINGS == 0: MAX_HALVINGS must be lowered \
         (or BPS_SCALE raised) so that the shift still produces a non-zero \
         base at the declared cutoff",
    );
}

/// Expected outputs for every full half-life from 0 through MAX_HALVINGS,
/// with a decay window of one second.
#[test]
fn test_recency_weight_decay_curve() {
    let decay_window: u64 = 1;
    let max = MAX_HALVINGS;
    assert_eq!(
        recency_weight_bps(0, decay_window),
        BPS_SCALE,
        "weight at 0 half-lives should equal BPS_SCALE"
    );
    assert_eq!(
        recency_weight_bps(max, decay_window),
        0,
        "weight at MAX_HALVINGS ({max}) half-lives should be 0"
    );
    let mut prev = recency_weight_bps(0, decay_window);
    for k in 1..max {
        let curr = recency_weight_bps(k, decay_window);
        assert!(
            curr < prev,
            "decay curve not strictly decreasing at half-life {k}: \
             weight[{k}]={curr} is not less than weight[{}]={prev}",
            k - 1,
        );
        prev = curr;
    }
}
