//! Properties of the ledger that span entry points or hold in every
//! reachable state.

use vstd::prelude::*;
use crate::types::{
    Address, EntityFlaggedEvent, Flag, ReputationConfig, ReputationError, ReputationEvent, TransactionOutcome,
    TransactionRecord,
};
use crate::scoring::{
    avg_rating_of, elapsed_since, lemma_recency_weight_endpoints, outcome_value, recency_weight, score_of,
    score_sums, score_window, window_start, MAX_HALVINGS, SCORE_WINDOW,
};
use crate::model::{
    active_flag_count, config_valid, count_disputed, count_successful, has_active_flag,
    is_active_by, page, records_of, LedgerOp, ReputationView,
};

verus! {

/// In every consistent state the lifetime counters are exact: the total is
/// the number of escrows recorded against the entity, and the successful and
/// disputed counts are the numbers of those escrows whose current outcome is
/// successful or `Disputed`, however long the history grows.
pub proof fn law_lifetime_counts_exact(s: ReputationView, e: Address)
    requires
        s.wf(),
    ensures
        s.reputation(e).total_transactions == s.history(e).len(),
        s.reputation(e).successful_transactions == count_successful(s.history(e), s.records),
        s.reputation(e).disputed_transactions == count_disputed(s.history(e), s.records),
{
    assert(s.entity_wf(e));
}

/// In every consistent state stored scores and average ratings lie in
/// `0..=10000`, stored ratings lie in `0..=10000`, and the configuration is
/// valid.
pub proof fn law_values_in_range(s: ReputationView, e: Address, id: u64)
    requires
        s.wf(),
    ensures
        s.reputation(e).score <= 10_000,
        s.reputation(e).avg_rating <= 10_000,
        s.records.contains_key(id) ==> (s.records[id].rating matches Some(x) ==> x <= 10_000),
        config_valid(s.config),
{
    assert(s.entity_wf(e));
    assert(s.record_wf(id));
}

/// Recording an escrow that is already on file for the same entity updates
/// it in place: it succeeds for the admin even while the entity is frozen,
/// stores the new outcome, and leaves the history and the total count
/// unchanged.
pub proof fn law_lifecycle_update_in_place(
    s: ReputationView,
    escrow_id: u64,
    entity: Address,
    counterparty: Address,
    amount: i128,
    outcome: TransactionOutcome,
    now: u64,
)
    requires
        s.wf(),
        s.records.contains_key(escrow_id),
        s.records[escrow_id].entity == entity,
    ensures
        s.record_transaction(s.admin, escrow_id, entity, counterparty, amount, outcome, now) is Ok,
        ({
            let t = s.record_transaction(s.admin, escrow_id, entity, counterparty, amount, outcome, now)->Ok_0;
            &&& t.history(entity) == s.history(entity)
            &&& t.reputation(entity).total_transactions == s.reputation(entity).total_transactions
            &&& t.records[escrow_id].outcome == outcome
            &&& t.records[escrow_id].rating == s.records[escrow_id].rating
        }),
{
}

/// A brand-new escrow for a frozen entity is refused, and the state is left
/// as it was.
pub proof fn law_frozen_rejects_new_escrows(
    s: ReputationView,
    escrow_id: u64,
    entity: Address,
    counterparty: Address,
    amount: i128,
    outcome: TransactionOutcome,
    now: u64,
)
    requires
        s.is_frozen(entity),
        !s.records.contains_key(escrow_id),
    ensures
        s.record_transaction(s.admin, escrow_id, entity, counterparty, amount, outcome, now)
            == Err::<ReputationView, ReputationError>(ReputationError::EntityFrozen),
{
}

/// Recording a new escrow notes the relation between the entity and its
/// counterparty in both directions, makes the counterparty eligible to
/// report the entity (but not the entity to report the counterparty), and
/// appends the escrow to the entity's
/// history as one more lifetime transaction.
pub proof fn law_new_escrow_recorded_both_ways(
    s: ReputationView,
    escrow_id: u64,
    entity: Address,
    counterparty: Address,
    amount: i128,
    outcome: TransactionOutcome,
    now: u64,
)
    requires
        s.wf(),
        !s.records.contains_key(escrow_id),
        !s.is_frozen(entity),
        s.history(entity).len() < u64::MAX,
    ensures
        s.record_transaction(s.admin, escrow_id, entity, counterparty, amount, outcome, now) is Ok,
        ({
            let t = s.record_transaction(s.admin, escrow_id, entity, counterparty, amount, outcome, now)->Ok_0;
            &&& t.has_relation(entity, counterparty, true)
            &&& t.has_relation(counterparty, entity, true)
            &&& t.has_transacted(entity, counterparty)
            &&& (entity != counterparty ==> t.has_transacted(counterparty, entity)
                == s.has_transacted(counterparty, entity))
            &&& t.history(entity) == s.history(entity).push(escrow_id)
            &&& t.reputation(entity).total_transactions == s.reputation(entity).total_transactions + 1
        }),
{
    assert(s.entity_wf(entity));
}

/// An escrow can be rated only once by its counterparty: once a rating has
/// been accepted, rating the same escrow again is refused with
/// `DuplicateRating` (or `InvalidRating` if the new rating is out of range).
pub proof fn law_rating_at_most_once(
    s: ReputationView,
    rater: Address,
    escrow_id: u64,
    entity: Address,
    rating: u32,
    now: u64,
    rating2: u32,
    now2: u64,
)
    requires
        s.rate_entity(rater, escrow_id, entity, rating, now) is Ok,
    ensures
        ({
            let t = s.rate_entity(rater, escrow_id, entity, rating, now)->Ok_0;
            t.rate_entity(rater, escrow_id, entity, rating2, now2) == if rating2 > 10_000 {
                Err::<ReputationView, ReputationError>(ReputationError::InvalidRating)
            } else {
                Err::<ReputationView, ReputationError>(ReputationError::DuplicateRating)
            }
        }),
{
    let t = s.rate_entity(rater, escrow_id, entity, rating, now)->Ok_0;
    assert(t.rated_by(rater)[t.rated_by(rater).len() - 1] == escrow_id);
}

/// A reporter holds at most one unresolved flag per entity: right after a
/// flag is accepted, the same reporter's next flag is refused with
/// `AlreadyFlagged`.
pub proof fn law_one_active_flag_per_reporter(
    s: ReputationView,
    reporter: Address,
    entity: Address,
    reason: String,
    details: Option<String>,
    now: u64,
    reason2: String,
    details2: Option<String>,
    now2: u64,
)
    requires
        s.flag_entity(reporter, entity, reason, details, now) is Ok,
    ensures
        s.flag_entity(reporter, entity, reason, details, now)->Ok_0.flag_entity(
            reporter,
            entity,
            reason2,
            details2,
            now2,
        ) == Err::<ReputationView, ReputationError>(ReputationError::AlreadyFlagged),
{
    let t = s.flag_entity(reporter, entity, reason, details, now)->Ok_0;
    let flags = t.flags_of(entity);
    assert(is_active_by(flags, reporter, flags.len() - 1));
}

/// Once a reporter's flag is resolved, the same reporter may flag the
/// entity again; resolving never unfreezes the entity.
pub proof fn law_resolved_flag_allows_reflag(
    s: ReputationView,
    admin: Address,
    reporter: Address,
    entity: Address,
    reason: String,
    details: Option<String>,
    now: u64,
)
    requires
        s.wf(),
        s.resolve_flag(admin, reporter, entity) is Ok,
    ensures
        s.resolve_flag(admin, reporter, entity)->Ok_0.is_frozen(entity) == s.is_frozen(entity),
        s.resolve_flag(admin, reporter, entity)->Ok_0.flag_entity(
            reporter,
            entity,
            reason,
            details,
            now,
        ) is Ok <==> s.flag_entity(reporter, entity, reason, details, now) != Err::<
            ReputationView,
            ReputationError,
        >(ReputationError::Unauthorized),
{
    let t = s.resolve_flag(admin, reporter, entity)->Ok_0;
    let flags = s.flags_of(entity);
    let k = crate::model::first_active(flags, reporter);
    let w = choose|i: int| is_active_by(flags, reporter, i);
    crate::invariants::lemma_first_active_exists(flags, reporter, w);
    assert(s.entity_wf(entity));
    let flags2 = t.flags_of(entity);
    assert(!has_active_flag(flags2, reporter)) by {
        if has_active_flag(flags2, reporter) {
            let j = choose|j: int| is_active_by(flags2, reporter, j);
            assert(j != k);
            assert(flags2[j] == flags[j]);
        }
    }
}

/// Filing a flag freezes the entity exactly when it was not frozen yet and
/// the unresolved flags reach the configured threshold; a frozen entity
/// stays frozen.
pub proof fn law_flags_auto_freeze(
    s: ReputationView,
    reporter: Address,
    entity: Address,
    reason: String,
    details: Option<String>,
    now: u64,
)
    requires
        s.flag_entity(reporter, entity, reason, details, now) is Ok,
    ensures
        ({
            let t = s.flag_entity(reporter, entity, reason, details, now)->Ok_0;
            t.is_frozen(entity) <==> (s.is_frozen(entity) || active_flag_count(t.flags_of(entity)) as u32
                >= s.config.freeze_threshold_flags)
        }),
{
}

/// The two-step admin handover: after the admin proposes `new_admin` and
/// `new_admin` accepts, `new_admin` is the admin, nothing is pending, and
/// the former admin's admin actions are refused while the new admin's are
/// accepted.
pub proof fn law_admin_handover(
    s: ReputationView,
    new_admin: Address,
    entity: Address,
)
    requires
        new_admin != s.admin,
    ensures
        ({
            let t = s.propose_admin(s.admin, new_admin)->Ok_0;
            let u = t.accept_admin(new_admin)->Ok_0;
            &&& s.propose_admin(s.admin, new_admin) is Ok
            &&& t.accept_admin(new_admin) is Ok
            &&& u.admin == new_admin
            &&& u.pending_admin is None
            &&& u.freeze_entity(s.admin, entity) == Err::<ReputationView, ReputationError>(
                ReputationError::Unauthorized,
            )
            &&& u.freeze_entity(new_admin, entity) is Ok
            &&& u.accept_admin(new_admin) == Err::<ReputationView, ReputationError>(
                ReputationError::Unauthorized,
            )
        }),
{
}

/// The public view of a reputation hides the score and the average rating
/// until the entity has reached the configured number of lifetime
/// transactions, and shows the stored values from then on.
pub proof fn law_masking(s: ReputationView, e: Address)
    requires
        s.reputations.contains_key(e),
    ensures
        s.get_reputation(e) is Ok,
        ({
            let r = s.get_reputation(e)->Ok_0;
            let stored = s.reputations[e];
            &&& r.total_transactions == stored.total_transactions
            &&& r.successful_transactions == stored.successful_transactions
            &&& r.disputed_transactions == stored.disputed_transactions
            &&& (stored.total_transactions < s.config.min_transactions_threshold ==> r.score == 0
                && r.avg_rating == 0)
            &&& (stored.total_transactions >= s.config.min_transactions_threshold ==> r.score
                == stored.score && r.avg_rating == stored.avg_rating)
        }),
{
}

/// Over a run of `Released` records the weighted value is exactly full
/// value times the weight, and no dispute counts.
proof fn lemma_released_sums(
    ids: Seq<u64>,
    records: Map<u64, TransactionRecord>,
    now: u64,
    window: u64,
)
    requires
        forall|i: int|
            0 <= i < ids.len() ==> #[trigger] records.contains_key(ids[i])
                && records[ids[i]].outcome == TransactionOutcome::Released,
    ensures
        score_sums(ids, records, now, window).weighted_value == 10_000 * score_sums(
            ids,
            records,
            now,
            window,
        ).weight,
        score_sums(ids, records, now, window).disputed_recent == 0,
    decreases ids.len(),
{
    if ids.len() > 0 {
        let p = ids.drop_last();
        assert forall|i: int| 0 <= i < p.len() implies #[trigger] records.contains_key(p[i])
            && records[p[i]].outcome == TransactionOutcome::Released by {
            assert(p[i] == ids[i]);
            assert(records.contains_key(ids[i]));
        }
        lemma_released_sums(p, records, now, window);
        assert(records.contains_key(ids[ids.len() - 1]));
    }
}

/// A record that is still weighted makes the weight sum positive.
proof fn lemma_weight_positive(
    ids: Seq<u64>,
    records: Map<u64, TransactionRecord>,
    now: u64,
    window: u64,
    k: int,
)
    requires
        0 <= k < ids.len(),
        records.contains_key(ids[k]),
        recency_weight(elapsed_since(now, records[ids[k]].recorded_at), window) > 0,
    ensures
        score_sums(ids, records, now, window).weight > 0,
    decreases ids.len(),
{
    crate::scoring::lemma_score_sums_bounds(ids.drop_last(), records, now, window);
    if k < ids.len() - 1 {
        assert(ids.drop_last()[k] == ids[k]);
        lemma_weight_positive(ids.drop_last(), records, now, window, k);
        if records.contains_key(ids.last()) {
            let r = records[ids.last()];
            lemma_recency_weight_endpoints(elapsed_since(now, r.recorded_at), window);
        }
    }
}

/// An entity whose scoring window holds only `Released` records, at least
/// one of them younger than `MAX_HALVINGS` half-lives, scores the full
/// 10000 when recomputed.
pub proof fn law_released_window_scores_full(s: ReputationView, e: Address, now: u64, k: int)
    requires
        s.wf(),
        forall|i: int|
            0 <= i < score_window(s.history(e)).len() ==> #[trigger] s.records.contains_key(
                score_window(s.history(e))[i],
            ) && s.records[score_window(s.history(e))[i]].outcome == TransactionOutcome::Released,
        0 <= k < score_window(s.history(e)).len(),
        elapsed_since(now, s.records[score_window(s.history(e))[k]].recorded_at)
            / s.config.decay_window_seconds < MAX_HALVINGS,
    ensures
        s.recomputed(e, now).score == 10_000,
{
    let ids = score_window(s.history(e));
    let window = s.config.decay_window_seconds;
    lemma_released_sums(ids, s.records, now, window);
    let el = elapsed_since(now, s.records[ids[k]].recorded_at);
    crate::scoring::lemma_weight_within_half_life(el, window);
    lemma_weight_positive(ids, s.records, now, window, k);
    let sums = score_sums(ids, s.records, now, window);
    assert(sums.weighted_value / sums.weight == 10_000) by (nonlinear_arith)
        requires
            sums.weighted_value == 10_000 * sums.weight,
            sums.weight > 0,
    ;
}

/// Only the most recent `SCORE_WINDOW` escrows feed the score: escrows
/// recorded before them are outside the window.
pub proof fn law_score_window_is_most_recent(older: Seq<u64>, recent: Seq<u64>)
    requires
        recent.len() >= SCORE_WINDOW,
    ensures
        score_window(older + recent) == score_window(recent),
{
    let h = older + recent;
    assert(window_start(h.len()) == older.len() + window_start(recent.len()));
    assert(score_window(h) =~= score_window(recent));
}

/// In every consistent state a page of an entity's breakdown holds exactly
/// the records of the corresponding page of its history, in order.
pub proof fn law_breakdown_is_complete(s: ReputationView, e: Address, offset: u32, limit: u32)
    requires
        s.wf(),
    ensures
        s.reputation_breakdown(e, offset, limit).len() == page(s.history(e), offset, limit).len(),
        forall|i: int|
            0 <= i < page(s.history(e), offset, limit).len() ==> #[trigger] s.reputation_breakdown(
                e,
                offset,
                limit,
            )[i] == s.records[page(s.history(e), offset, limit)[i]],
{
    assert(s.entity_wf(e));
    let p = page(s.history(e), offset, limit);
    assert forall|i: int| 0 <= i < p.len() implies #[trigger] s.records.contains_key(p[i]) by {
        let h = s.history(e);
        assert(p[i] == h[offset + i]);
    }
    lemma_records_of_complete(p, s.records);
}

/// `records_of` over ids that all have records is a plain lookup.
proof fn lemma_records_of_complete(ids: Seq<u64>, records: Map<u64, TransactionRecord>)
    requires
        forall|i: int| 0 <= i < ids.len() ==> #[trigger] records.contains_key(ids[i]),
    ensures
        records_of(ids, records).len() == ids.len(),
        forall|i: int|
            0 <= i < ids.len() ==> #[trigger] records_of(ids, records)[i] == records[ids[i]],
    decreases ids.len(),
{
    if ids.len() > 0 {
        let p = ids.drop_last();
        assert forall|i: int| 0 <= i < p.len() implies #[trigger] records.contains_key(p[i]) by {
            assert(p[i] == ids[i]);
        }
        lemma_records_of_complete(p, records);
        assert(records.contains_key(ids[ids.len() - 1]));
        assert forall|i: int| 0 <= i < ids.len() implies #[trigger] records_of(ids, records)[i]
            == records[ids[i]] by {
            if i < ids.len() - 1 {
                assert(p[i] == ids[i]);
            }
        }
    }
}

/// Every operation that succeeds keeps the ledger invariant (exact lifetime
/// counters, values in range, consistent histories, one unresolved flag per
/// reporter), provided a new escrow's lifetime count still fits in `u64`.
pub proof fn law_every_operation_keeps_invariant(s: ReputationView, op: LedgerOp)
    requires
        s.wf(),
        s.step(op) is Ok,
        op matches LedgerOp::RecordTransaction { escrow_id, entity, .. } ==> (
        !s.records.contains_key(escrow_id) ==> s.history(entity).len() < u64::MAX),
    ensures
        s.step(op)->Ok_0.wf(),
{
    match op {
        LedgerOp::RecordTransaction { caller, escrow_id, entity, counterparty, amount, outcome, now } => {
            crate::invariants::lemma_record_transaction_wf(
                s,
                caller,
                escrow_id,
                entity,
                counterparty,
                amount,
                outcome,
                now,
            );
        },
        LedgerOp::RateEntity { rater, escrow_id, entity, rating, now } => {
            crate::invariants::lemma_rate_entity_wf(s, rater, escrow_id, entity, rating, now);
        },
        LedgerOp::FlagEntity { reporter, entity, reason, details, now } => {
            crate::invariants::lemma_flag_entity_wf(s, reporter, entity, reason, details, now);
        },
        LedgerOp::ResolveFlag { admin, reporter, entity } => {
            crate::invariants::lemma_resolve_flag_wf(s, admin, reporter, entity);
        },
        _ => {
            crate::invariants::lemma_wf_frame(s, s.step(op)->Ok_0);
        },
    }
}

/// Ratings are never forgotten: once `rater` has rated `escrow_id`, every
/// operation keeps it on file, so `rater` can never rate that escrow again.
pub proof fn law_ratings_persist(s: ReputationView, op: LedgerOp, rater: Address, escrow_id: u64)
    requires
        s.step(op) is Ok,
        s.rated_by(rater).contains(escrow_id),
    ensures
        s.step(op)->Ok_0.rated_by(rater).contains(escrow_id),
        forall|entity: Address, rating: u32, now: u64|
            #![trigger s.step(op)->Ok_0.rate_entity(rater, escrow_id, entity, rating, now)]
            s.step(op)->Ok_0.rate_entity(rater, escrow_id, entity, rating, now) is Err,
{
    let t = s.step(op)->Ok_0;
    if let LedgerOp::RateEntity { rater: r2, escrow_id: e2, entity, rating, now } = op {
        if r2 == rater {
            let k = choose|k: int| 0 <= k < s.rated_by(rater).len() && s.rated_by(rater)[k] == escrow_id;
            assert(t.rated_by(rater)[k] == escrow_id);
        }
    }
}

/// The effect of a successful report: the flag is appended as unresolved,
/// the event carries the number of unresolved flags, and the entity ends up
/// frozen exactly when it was frozen before or that number reaches the
/// threshold. A report is accepted exactly from the admin or from an address
/// recorded as the counterparty of one of the entity's own escrows, when
/// that address holds no unresolved flag against the entity.
pub proof fn law_flag_entity_effect(
    s: ReputationView,
    reporter: Address,
    entity: Address,
    reason: String,
    details: Option<String>,
    now: u64,
)
    ensures
        s.flag_entity(reporter, entity, reason, details, now) is Ok <==> ((reporter == s.admin
            || s.has_transacted(entity, reporter)) && !has_active_flag(
            s.flags_of(entity),
            reporter,
        )),
        s.flag_entity(reporter, entity, reason, details, now) is Ok ==> ({
            let t = s.flag_entity(reporter, entity, reason, details, now)->Ok_0;
            let n = active_flag_count(s.flags_of(entity)) + 1;
            let added = Flag { reporter, entity, reason, details, flagged_at: now, resolved: false };
            &&& t.flags_of(entity) == s.flags_of(entity).push(added)
            &&& t.events[s.events.len() as int] == ReputationEvent::EntityFlagged(
                EntityFlaggedEvent { reporter, entity, reason, flag_count: n as u32 },
            )
            &&& t.is_frozen(entity) == (s.is_frozen(entity) || n as u32
                >= s.config.freeze_threshold_flags)
            &&& t.records == s.records
            &&& t.reputations == s.reputations
        }),
{
    let f = s.flags_of(entity);
    let added = Flag { reporter, entity, reason, details, flagged_at: now, resolved: false };
    assert(f.push(added).drop_last() =~= f);
}

/// Recomputing an entity's reputation at `now` sets its score to the score
/// formula and its average rating to the rating formula over the most recent
/// `SCORE_WINDOW` escrows of its history, both within `0..=10000`, sets
/// `last_updated` to `now`, and keeps the entity and its lifetime counters.
pub proof fn law_recomputed_reputation(s: ReputationView, e: Address, now: u64)
    ensures
        ({
            let sums = score_sums(
                score_window(s.history(e)),
                s.records,
                now,
                s.config.decay_window_seconds,
            );
            let r = s.recomputed(e, now);
            let before = s.reputation(e);
            &&& r.score == score_of(sums, s.config.dispute_penalty_bps)
            &&& r.avg_rating == avg_rating_of(sums)
            &&& r.score <= 10_000
            &&& r.avg_rating <= 10_000
            &&& r.last_updated == now
            &&& r.entity == before.entity
            &&& r.total_transactions == before.total_transactions
            &&& r.successful_transactions == before.successful_transactions
            &&& r.disputed_transactions == before.disputed_transactions
        }),
        s.with_recomputed(e, now).reputations == s.reputations.insert(e, s.recomputed(e, now)),
{
}

/// The recency weight of escrow `id`'s record at `now`; zero where the
/// escrow has no record.
pub open spec fn weight_at(records: Map<u64, TransactionRecord>, now: u64, window: u64, id: u64) -> int {
    if records.contains_key(id) {
        recency_weight(elapsed_since(now, records[id].recorded_at), window)
    } else {
        0
    }
}

/// `f(ids[0]) + f(ids[1]) + ...`.
pub open spec fn total(ids: Seq<u64>, f: spec_fn(u64) -> int) -> int
    decreases ids.len(),
{
    if ids.len() == 0 {
        0
    } else {
        total(ids.drop_last(), f) + f(ids.last())
    }
}

/// Per escrow: its recency weight.
pub open spec fn weight_term(records: Map<u64, TransactionRecord>, now: u64, window: u64) -> spec_fn(u64) -> int {
    |id: u64| weight_at(records, now, window, id)
}

/// Per escrow: its recency weight times the value of its outcome.
pub open spec fn value_term(records: Map<u64, TransactionRecord>, now: u64, window: u64) -> spec_fn(u64) -> int {
    |id: u64|
        if records.contains_key(id) {
            weight_at(records, now, window, id) * outcome_value(records[id].outcome)
        } else {
            0
        }
}

/// Per escrow: its recency weight where it carries a rating, else zero.
pub open spec fn rated_weight_term(records: Map<u64, TransactionRecord>, now: u64, window: u64) -> spec_fn(u64) -> int {
    |id: u64|
        if records.contains_key(id) && records[id].rating is Some {
            weight_at(records, now, window, id)
        } else {
            0
        }
}

/// Per escrow: its recency weight times its rating, zero where unrated.
pub open spec fn rating_term(records: Map<u64, TransactionRecord>, now: u64, window: u64) -> spec_fn(u64) -> int {
    |id: u64|
        if records.contains_key(id) && records[id].rating is Some {
            weight_at(records, now, window, id) * records[id].rating->Some_0
        } else {
            0
        }
}

/// The escrows among `ids` whose record is `Disputed` and still carries a
/// positive recency weight at `now`.
pub open spec fn weighted_disputes(ids: Seq<u64>, records: Map<u64, TransactionRecord>, now: u64, window: u64) -> Seq<u64> {
    ids.filter(
        |id: u64|
            records.contains_key(id) && records[id].outcome == TransactionOutcome::Disputed && weight_at(
                records,
                now,
                window,
                id,
            ) > 0,
    )
}

/// The running sums of the score formula are the plain sums of the
/// per-escrow terms.
proof fn lemma_sums_are_totals(ids: Seq<u64>, records: Map<u64, TransactionRecord>, now: u64, window: u64)
    ensures
        score_sums(ids, records, now, window).weight == total(ids, weight_term(records, now, window)),
        score_sums(ids, records, now, window).weighted_value == total(ids, value_term(records, now, window)),
        score_sums(ids, records, now, window).rating_weight == total(ids, rated_weight_term(records, now, window)),
        score_sums(ids, records, now, window).rating_weighted == total(ids, rating_term(records, now, window)),
        score_sums(ids, records, now, window).disputed_recent == weighted_disputes(ids, records, now, window).len(),
    decreases ids.len(),
{
    reveal(Seq::filter);
    if ids.len() > 0 {
        lemma_sums_are_totals(ids.drop_last(), records, now, window);
    }
}

/// The score is the recency-weighted mean of the outcome values over the
/// scoring window, `sum(weight * value) / sum(weight)` (zero when no record
/// carries weight), less `dispute_penalty_bps` for each `Disputed` record
/// of the window that still carries a positive weight, clamped into
/// `0..=10000`. The average rating is the recency-weighted mean
/// `sum(weight * rating) / sum(weight)` over the rated records of the
/// window, clamped, or zero when no rated record carries weight.
pub proof fn law_score_and_rating_are_weighted_means(s: ReputationView, e: Address, now: u64)
    ensures
        ({
            let ids = score_window(s.history(e));
            let rs = s.records;
            let win = s.config.decay_window_seconds;
            let weight = total(ids, weight_term(rs, now, win));
            let value = total(ids, value_term(rs, now, win));
            let mean = if weight > 0 {
                value / weight
            } else {
                0
            };
            let raw = mean - weighted_disputes(ids, rs, now, win).len() * s.config.dispute_penalty_bps;
            let rated_weight = total(ids, rated_weight_term(rs, now, win));
            let rated_value = total(ids, rating_term(rs, now, win));
            &&& s.recomputed(e, now).score == if raw < 0 {
                0
            } else if raw > 10_000 {
                10_000
            } else {
                raw
            }
            &&& s.recomputed(e, now).avg_rating == if rated_weight > 0 {
                if rated_value / rated_weight > 10_000 {
                    10_000
                } else if rated_value / rated_weight < 0 {
                    0
                } else {
                    rated_value / rated_weight
                }
            } else {
                0
            }
        }),
{
    lemma_sums_are_totals(score_window(s.history(e)), s.records, now, s.config.decay_window_seconds);
}

/// The escrows among `ids` whose recorded outcome is `Disputed`.
pub open spec fn disputed_ids(ids: Seq<u64>, records: Map<u64, TransactionRecord>) -> Seq<u64> {
    ids.filter(|id: u64| records[id].outcome == TransactionOutcome::Disputed)
}

/// Sums over fresh `Released`/`Disputed` records: each weighs 10000, each
/// `Released` one is worth 10000, and each `Disputed` one is a still
/// weighted dispute.
proof fn lemma_fresh_outcome_sums(ids: Seq<u64>, records: Map<u64, TransactionRecord>, now: u64, window: u64)
    requires
        forall|i: int|
            0 <= i < ids.len() ==> #[trigger] records.contains_key(ids[i]) && records[ids[i]].recorded_at
                >= now && (records[ids[i]].outcome == TransactionOutcome::Released
                || records[ids[i]].outcome == TransactionOutcome::Disputed),
    ensures
        score_sums(ids, records, now, window).weighted_value == 100_000_000 * (ids.len()
            - disputed_ids(ids, records).len()),
        score_sums(ids, records, now, window).weight == 10_000 * ids.len(),
        score_sums(ids, records, now, window).disputed_recent == disputed_ids(ids, records).len(),
    decreases ids.len(),
{
    reveal(Seq::filter);
    if ids.len() > 0 {
        let p = ids.drop_last();
        assert forall|i: int| 0 <= i < p.len() implies #[trigger] records.contains_key(p[i])
            && records[p[i]].recorded_at >= now && (records[p[i]].outcome
            == TransactionOutcome::Released || records[p[i]].outcome
            == TransactionOutcome::Disputed) by {
            assert(p[i] == ids[i]);
            assert(records.contains_key(ids[i]));
        }
        lemma_fresh_outcome_sums(p, records, now, window);
        assert(records.contains_key(ids[ids.len() - 1]));
        lemma_recency_weight_endpoints(0, window);
        assert(disputed_ids(p, records).len() <= p.len()) by {
            p.lemma_filter_len(|id: u64| records[id].outcome == TransactionOutcome::Disputed);
        }
    }
}

/// The dispute penalty is charged once per dispute: when every record in an
/// entity's scoring window was recorded no earlier than `now` and is either
/// `Released` or `Disputed`, with `k` of the `n` disputed, the recomputed
/// score is `10000 * (n - k) / n - k * dispute_penalty_bps`, clamped into
/// `0..=10000`.
pub proof fn law_dispute_penalty_per_dispute(s: ReputationView, e: Address, now: u64)
    requires
        s.wf(),
        score_window(s.history(e)).len() > 0,
        forall|i: int|
            0 <= i < score_window(s.history(e)).len() ==> {
                let id = #[trigger] score_window(s.history(e))[i];
                &&& s.records.contains_key(id)
                &&& s.records[id].recorded_at >= now
                &&& (s.records[id].outcome == TransactionOutcome::Released || s.records[id].outcome
                    == TransactionOutcome::Disputed)
            },
    ensures
        ({
            let w = score_window(s.history(e));
            let n = w.len() as int;
            let k = disputed_ids(w, s.records).len() as int;
            let raw = 10_000 * (n - k) / n - k * s.config.dispute_penalty_bps;
            s.recomputed(e, now).score == if raw < 0 {
                0
            } else if raw > 10_000 {
                10_000
            } else {
                raw
            }
        }),
{
    let w = score_window(s.history(e));
    let window = s.config.decay_window_seconds;
    lemma_fresh_outcome_sums(w, s.records, now, window);
    let n = w.len() as int;
    let k = disputed_ids(w, s.records).len() as int;
    assert(0 <= 10_000 * (n - k)) by {
        w.lemma_filter_len(|id: u64| s.records[id].outcome == TransactionOutcome::Disputed);
    }
    let sums = score_sums(w, s.records, now, window);
    assert(sums.weighted_value / sums.weight == 10_000 * (n - k) / n) by {
        lemma_cancel_factor(10_000 * (n - k), n, 10_000);
    }
}

/// `(c * x) / (c * y) == x / y` for `c, y > 0` and `x >= 0`.
proof fn lemma_cancel_factor(x: int, y: int, c: int)
    requires
        x >= 0,
        y > 0,
        c > 0,
    ensures
        (c * x) / (c * y) == x / y,
        (x * c) / (y * c) == x / y,
{
    vstd::arithmetic::div_mod::lemma_div_denominator(c * x, c, y);
    vstd::arithmetic::div_mod::lemma_div_multiples_vanish(x, c);
    vstd::arithmetic::mul::lemma_mul_is_commutative(x, c);
    vstd::arithmetic::mul::lemma_mul_is_commutative(y, c);
}

/// Rating units over ids whose records are fresh or exactly one decay
/// window old: a fresh rating counts twice, an aged one once.
pub open spec fn rating_units(ids: Seq<u64>, records: Map<u64, TransactionRecord>, now: u64) -> (
    int,
    int,
)
    decreases ids.len(),
{
    if ids.len() == 0 {
        (0, 0)
    } else {
        let (num, den) = rating_units(ids.drop_last(), records, now);
        let r = records[ids.last()];
        match r.rating {
            Some(x) => if r.recorded_at == now {
                (num + 2 * x, den + 2)
            } else {
                (num + x, den + 1)
            },
            None => (num, den),
        }
    }
}

/// Over fresh or one-window-old records, the rating sums are 5000 rating
/// units.
proof fn lemma_half_life_rating_sums(
    ids: Seq<u64>,
    records: Map<u64, TransactionRecord>,
    now: u64,
    window: u64,
)
    requires
        window > 0,
        forall|i: int|
            0 <= i < ids.len() ==> #[trigger] records.contains_key(ids[i]) && (
            records[ids[i]].recorded_at == now || records[ids[i]].recorded_at + window == now),
    ensures
        score_sums(ids, records, now, window).rating_weighted == 5_000 * rating_units(
            ids,
            records,
            now,
        ).0,
        score_sums(ids, records, now, window).rating_weight == 5_000 * rating_units(
            ids,
            records,
            now,
        ).1,
    decreases ids.len(),
{
    if ids.len() > 0 {
        let p = ids.drop_last();
        assert forall|i: int| 0 <= i < p.len() implies #[trigger] records.contains_key(p[i]) && (
        records[p[i]].recorded_at == now || records[p[i]].recorded_at + window == now) by {
            assert(p[i] == ids[i]);
            assert(records.contains_key(ids[i]));
        }
        lemma_half_life_rating_sums(p, records, now, window);
        let r = records[ids.last()];
        assert(records.contains_key(ids[ids.len() - 1]));
        lemma_recency_weight_endpoints(0, window);
        let wt = recency_weight(elapsed_since(now, r.recorded_at), window);
        if r.recorded_at != now {
            assert(elapsed_since(now, r.recorded_at) == window);
            assert(window / window == 1 && window % window == 0) by (nonlinear_arith)
                requires
                    window > 0,
            ;
            crate::scoring::lemma_halving_base_values(1);
            assert(recency_weight(window, window) == 5_000);
            assert(wt == 5_000);
        } else {
            assert(elapsed_since(now, r.recorded_at) == 0);
            assert(wt == 10_000);
        }
        if let Some(x) = r.rating {
            if r.recorded_at != now {
                assert(wt * x == 5_000 * x);
            } else {
                assert(wt * x == 5_000 * (2 * x)) by (nonlinear_arith)
                    requires
                        wt == 10_000,
                ;
            }
        }
    }
}

/// Ratings are weighted by age: over a scoring window whose records were
/// recorded either at `now` or exactly one decay window earlier, the
/// average rating counts each fresh rating twice as much as an aged one
/// (a rating one window old counts half), i.e. it is
/// `(sum of aged ratings + 2 * sum of fresh ratings) / (aged + 2 * fresh)`
/// over the rated records, clamped, or zero when nothing is rated.
pub proof fn law_avg_rating_weighted_by_age(s: ReputationView, e: Address, now: u64)
    requires
        s.wf(),
        forall|i: int|
            0 <= i < score_window(s.history(e)).len() ==> {
                let id = #[trigger] score_window(s.history(e))[i];
                &&& s.records.contains_key(id)
                &&& (s.records[id].recorded_at == now || s.records[id].recorded_at
                    + s.config.decay_window_seconds == now)
            },
    ensures
        ({
            let (num, den) = rating_units(score_window(s.history(e)), s.records, now);
            s.recomputed(e, now).avg_rating == if den > 0 {
                if num / den > 10_000 {
                    10_000
                } else {
                    num / den
                }
            } else {
                0
            }
        }),
{
    let w = score_window(s.history(e));
    let window = s.config.decay_window_seconds;
    lemma_half_life_rating_sums(w, s.records, now, window);
    lemma_rating_units_nonneg(w, s.records, now);
    let (num, den) = rating_units(w, s.records, now);
    if den > 0 {
        lemma_cancel_factor(num, den, 5_000);
    }
}

/// Rating units are non-negative.
proof fn lemma_rating_units_nonneg(ids: Seq<u64>, records: Map<u64, TransactionRecord>, now: u64)
    ensures
        rating_units(ids, records, now).0 >= 0,
        rating_units(ids, records, now).1 >= 0,
    decreases ids.len(),
{
    if ids.len() > 0 {
        lemma_rating_units_nonneg(ids.drop_last(), records, now);
    }
}

/// The unresolved flags of a sequence, counted by filtering.
proof fn lemma_active_count_is_unresolved(flags: Seq<Flag>)
    ensures
        active_flag_count(flags) == flags.filter(|f: Flag| !f.resolved).len(),
    decreases flags.len(),
{
    reveal(Seq::filter);
    if flags.len() > 0 {
        lemma_active_count_is_unresolved(flags.drop_last());
    }
}

/// The count that a report publishes and that drives freezing is the number
/// of unresolved flags against the entity after the report: resolved flags
/// never count toward an automatic freeze.
pub proof fn law_flag_count_is_unresolved_flags(
    s: ReputationView,
    reporter: Address,
    entity: Address,
    reason: String,
    details: Option<String>,
    now: u64,
)
    requires
        s.flag_entity(reporter, entity, reason, details, now) is Ok,
    ensures
        ({
            let t = s.flag_entity(reporter, entity, reason, details, now)->Ok_0;
            let n = t.flags_of(entity).filter(|f: Flag| !f.resolved).len();
            &&& t.events[s.events.len() as int] == ReputationEvent::EntityFlagged(
                EntityFlaggedEvent { reporter, entity, reason, flag_count: n as u32 },
            )
            &&& t.is_frozen(entity) == (s.is_frozen(entity) || n as u32
                >= s.config.freeze_threshold_flags)
        }),
{
    let t = s.flag_entity(reporter, entity, reason, details, now)->Ok_0;
    lemma_active_count_is_unresolved(t.flags_of(entity));
}

/// Resolving changes exactly one flag: the first unresolved flag of the
/// reporter becomes resolved with everything else about it kept, every
/// other flag of the entity (other reporters' unresolved flags included)
/// is unchanged, and the number of unresolved flags drops by exactly one.
pub proof fn law_resolve_flag_changes_one_flag(
    s: ReputationView,
    admin: Address,
    reporter: Address,
    entity: Address,
)
    requires
        s.resolve_flag(admin, reporter, entity) is Ok,
    ensures
        ({
            let f = s.flags_of(entity);
            let g = s.resolve_flag(admin, reporter, entity)->Ok_0.flags_of(entity);
            &&& g.len() == f.len()
            &&& exists|i: int|
                {
                    &&& 0 <= i < f.len()
                    &&& f[i].reporter == reporter
                    &&& !f[i].resolved
                    &&& forall|j: int| 0 <= j < i ==> !(f[j].reporter == reporter && !f[j].resolved)
                    &&& g[i] == (Flag { resolved: true, ..f[i] })
                    &&& forall|j: int| 0 <= j < f.len() && j != i ==> g[j] == f[j]
                }
            &&& g.filter(|x: Flag| !x.resolved).len() + 1 == f.filter(|x: Flag| !x.resolved).len()
        }),
{
    let f = s.flags_of(entity);
    let k = crate::model::first_active(f, reporter);
    let w = choose|i: int| is_active_by(f, reporter, i);
    crate::invariants::lemma_first_active_exists(f, reporter, w);
    let g = s.resolve_flag(admin, reporter, entity)->Ok_0.flags_of(entity);
    assert(g == f.update(k, Flag { resolved: true, ..f[k] }));
    assert(is_active_by(f, reporter, k));
    assert forall|j: int| 0 <= j < f.len() && j != k implies g[j] == f[j] by {}
    assert(forall|j: int| 0 <= j < k ==> !(f[j].reporter == reporter && !f[j].resolved)) by {
        assert forall|j: int| 0 <= j < k implies !(f[j].reporter == reporter && !f[j].resolved) by {
            assert(!is_active_by(f, reporter, j));
        }
    }
    assert(g[k] == (Flag { resolved: true, ..f[k] }));
    lemma_active_count_update(f, k);
    lemma_active_count_is_unresolved(f);
    lemma_active_count_is_unresolved(g);
}

/// Resolving an unresolved flag lowers the unresolved count by one.
proof fn lemma_active_count_update(f: Seq<Flag>, k: int)
    requires
        0 <= k < f.len(),
        !f[k].resolved,
    ensures
        active_flag_count(f.update(k, Flag { resolved: true, ..f[k] })) + 1 == active_flag_count(f),
    decreases f.len(),
{
    let g = f.update(k, Flag { resolved: true, ..f[k] });
    if k == f.len() - 1 {
        assert(g.drop_last() =~= f.drop_last());
    } else {
        assert(g.drop_last() =~= f.drop_last().update(k, Flag { resolved: true, ..f[k] }));
        lemma_active_count_update(f.drop_last(), k);
    }
}

/// A successful configuration update stores exactly the given
/// configuration; it succeeds exactly for the admin and a configuration
/// with a positive decay window, a penalty of at most 10000, a positive
/// freeze threshold and a transaction threshold of at most `SCORE_WINDOW`.
pub proof fn law_update_config_stores_given(s: ReputationView, admin: Address, c: ReputationConfig)
    ensures
        s.update_config(admin, c) is Ok <==> (admin == s.admin && c.decay_window_seconds > 0
            && c.dispute_penalty_bps <= 10_000 && c.freeze_threshold_flags > 0
            && c.min_transactions_threshold <= SCORE_WINDOW),
        s.update_config(admin, c) is Ok ==> s.update_config(admin, c)->Ok_0.config == c,
{
}

} // verus!
