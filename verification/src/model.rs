//! The abstract state of the reputation ledger, its invariant, and the
//! effect of every entry point as a function on that state.

use vstd::prelude::*;
use crate::types::{
    Address, AdminAcceptedEvent, AdminProposedEvent, EntityFlaggedEvent, EntityFrozenEvent,
    EntityRatedEvent, EntityUnfrozenEvent, Flag, ReputationConfig, ReputationError,
    ReputationEvent, ReputationScore, TransactionOutcome, TransactionRecord,
    TransactionRecordedEvent,
};
use crate::scoring::{
    avg_rating_of, score_of, score_sums, score_window, SCORE_WINDOW,
};

verus! {

/// `true` for the outcomes that count toward `successful_transactions`.
pub open spec fn is_successful(o: TransactionOutcome) -> bool {
    o == TransactionOutcome::Released || o == TransactionOutcome::ResolvedSeller
}

/// A configuration the ledger accepts.
pub open spec fn config_valid(c: ReputationConfig) -> bool {
    &&& c.decay_window_seconds > 0
    &&& c.dispute_penalty_bps <= 10_000
    &&& c.freeze_threshold_flags > 0
    &&& c.min_transactions_threshold <= SCORE_WINDOW
}

/// The reputation of an entity with nothing recorded yet.
pub open spec fn default_reputation(e: Address) -> ReputationScore {
    ReputationScore {
        entity: e,
        score: 0,
        total_transactions: 0,
        successful_transactions: 0,
        disputed_transactions: 0,
        avg_rating: 0,
        last_updated: 0,
    }
}

/// How many of `ids` have a recorded successful outcome.
pub open spec fn count_successful(ids: Seq<u64>, records: Map<u64, TransactionRecord>) -> nat
    decreases ids.len(),
{
    if ids.len() == 0 {
        0
    } else {
        count_successful(ids.drop_last(), records) + if records.contains_key(ids.last())
            && is_successful(records[ids.last()].outcome) {
            1nat
        } else {
            0nat
        }
    }
}

/// How many of `ids` have a recorded `Disputed` outcome.
pub open spec fn count_disputed(ids: Seq<u64>, records: Map<u64, TransactionRecord>) -> nat
    decreases ids.len(),
{
    if ids.len() == 0 {
        0
    } else {
        count_disputed(ids.drop_last(), records) + if records.contains_key(ids.last())
            && records[ids.last()].outcome == TransactionOutcome::Disputed {
            1nat
        } else {
            0nat
        }
    }
}

/// The records of `ids`, in order, skipping ids without a record.
pub open spec fn records_of(ids: Seq<u64>, records: Map<u64, TransactionRecord>) -> Seq<TransactionRecord>
    decreases ids.len(),
{
    if ids.len() == 0 {
        Seq::empty()
    } else {
        let prev = records_of(ids.drop_last(), records);
        if records.contains_key(ids.last()) {
            prev.push(records[ids.last()])
        } else {
            prev
        }
    }
}

/// Number of unresolved flags.
pub open spec fn active_flag_count(flags: Seq<Flag>) -> nat
    decreases flags.len(),
{
    if flags.len() == 0 {
        0
    } else {
        active_flag_count(flags.drop_last()) + if !flags.last().resolved {
            1nat
        } else {
            0nat
        }
    }
}

/// Flag `i` is an unresolved flag filed by `reporter`.
pub open spec fn is_active_by(flags: Seq<Flag>, reporter: Address, i: int) -> bool {
    0 <= i < flags.len() && flags[i].reporter == reporter && !flags[i].resolved
}

/// `reporter` holds an unresolved flag.
pub open spec fn has_active_flag(flags: Seq<Flag>, reporter: Address) -> bool {
    exists|i: int| is_active_by(flags, reporter, i)
}

/// Flag `i` is the first unresolved flag filed by `reporter`.
pub open spec fn is_first_active(flags: Seq<Flag>, reporter: Address, i: int) -> bool {
    &&& is_active_by(flags, reporter, i)
    &&& forall|j: int| 0 <= j < i ==> !is_active_by(flags, reporter, j)
}

/// Index of the first unresolved flag filed by `reporter`.
pub open spec fn first_active(flags: Seq<Flag>, reporter: Address) -> int {
    choose|i: int| is_first_active(flags, reporter, i)
}

/// No reporter holds two unresolved flags.
pub open spec fn one_active_flag_per_reporter(flags: Seq<Flag>) -> bool {
    forall|i: int, j: int|
        0 <= i < j < flags.len() && !flags[i].resolved && !flags[j].resolved ==> #[trigger] flags[i].reporter
            != #[trigger] flags[j].reporter
}

/// The end of the page `offset..offset + limit` (saturating) of a sequence of
/// length `len`.
pub open spec fn page_end(offset: u32, limit: u32, len: nat) -> int {
    let want: int = if offset + limit > u32::MAX {
        u32::MAX as int
    } else {
        offset + limit
    };
    if want < len {
        want
    } else {
        len as int
    }
}

/// The page `offset..offset + limit` of `s`.
pub open spec fn page<T>(s: Seq<T>, offset: u32, limit: u32) -> Seq<T> {
    let end = page_end(offset, limit, s.len());
    if offset < end {
        s.subrange(offset as int, end)
    } else {
        Seq::empty()
    }
}

/// `t` with `b` added to the set of `a`.
pub open spec fn relate(t: Map<Address, Set<Address>>, a: Address, b: Address) -> Map<
    Address,
    Set<Address>,
> {
    let old_set = if t.contains_key(a) {
        t[a]
    } else {
        Set::empty()
    };
    t.insert(a, old_set.insert(b))
}

/// Lifetime counters after a brand-new escrow with `outcome`.
pub open spec fn counts_after_new(rep: ReputationScore, outcome: TransactionOutcome) -> ReputationScore {
    ReputationScore {
        total_transactions: (rep.total_transactions + 1) as u64,
        successful_transactions: if is_successful(outcome) {
            (rep.successful_transactions + 1) as u64
        } else {
            rep.successful_transactions
        },
        disputed_transactions: if outcome == TransactionOutcome::Disputed {
            (rep.disputed_transactions + 1) as u64
        } else {
            rep.disputed_transactions
        },
        ..rep
    }
}

/// `x - 1`, or zero.
pub open spec fn dec_saturating(x: u64) -> u64 {
    if x > 0 {
        (x - 1) as u64
    } else {
        0
    }
}

/// Lifetime counters after an escrow on file changes from `prior` to `new`.
pub open spec fn counts_after_change(
    rep: ReputationScore,
    prior: TransactionOutcome,
    new: TransactionOutcome,
) -> ReputationScore {
    let s1 = if is_successful(prior) {
        dec_saturating(rep.successful_transactions)
    } else {
        rep.successful_transactions
    };
    let d1 = if prior == TransactionOutcome::Disputed {
        dec_saturating(rep.disputed_transactions)
    } else {
        rep.disputed_transactions
    };
    ReputationScore {
        successful_transactions: if is_successful(new) {
            (s1 + 1) as u64
        } else {
            s1
        },
        disputed_transactions: if new == TransactionOutcome::Disputed {
            (d1 + 1) as u64
        } else {
            d1
        },
        ..rep
    }
}


/// One call of an entry point that changes the ledger, with its arguments.
pub enum LedgerOp {
    RecordTransaction {
        caller: Address,
        escrow_id: u64,
        entity: Address,
        counterparty: Address,
        amount: i128,
        outcome: TransactionOutcome,
        now: u64,
    },
    RateEntity { rater: Address, escrow_id: u64, entity: Address, rating: u32, now: u64 },
    FlagEntity {
        reporter: Address,
        entity: Address,
        reason: String,
        details: Option<String>,
        now: u64,
    },
    ResolveFlag { admin: Address, reporter: Address, entity: Address },
    FreezeEntity { admin: Address, entity: Address },
    UnfreezeEntity { admin: Address, entity: Address },
    UpdateConfig { admin: Address, config: ReputationConfig },
    ProposeAdmin { current_admin: Address, new_admin: Address },
    AcceptAdmin { caller: Address },
}

/// The abstract state of the ledger.
#[verifier::ext_equal]
pub struct ReputationView {
    /// The ledger's own address (it freezes entities automatically in its
    /// own name).
    pub contract_address: Address,
    pub admin: Address,
    pub pending_admin: Option<Address>,
    pub config: ReputationConfig,
    pub reputations: Map<Address, ReputationScore>,
    /// Escrow ids of each entity, oldest first.
    pub histories: Map<Address, Seq<u64>>,
    pub records: Map<u64, TransactionRecord>,
    pub flags: Map<Address, Seq<Flag>>,
    pub frozen: Map<Address, bool>,
    /// Escrow ids each rater has rated.
    pub rated: Map<Address, Seq<u64>>,
    /// `transacted[e]` holds `c` once `c` was the counterparty of one of
    /// `e`'s escrows when that escrow was first recorded.
    pub transacted: Map<Address, Set<Address>>,
    /// `relations[a]` holds `b` once `a` and `b` were the entity and the
    /// counterparty, either way round, of a newly recorded escrow.
    pub relations: Map<Address, Set<Address>>,
    pub events: Seq<ReputationEvent>,
}

/// The state of a freshly deployed ledger, or the error deployment fails with.
pub open spec fn initial_state(
    contract_address: Address,
    admin: Address,
    config: ReputationConfig,
) -> Result<ReputationView, ReputationError> {
    if !config_valid(config) {
        Err(ReputationError::InvalidParam)
    } else {
        Ok(
            ReputationView {
                contract_address,
                admin,
                pending_admin: None,
                config,
                reputations: Map::empty(),
                histories: Map::empty(),
                records: Map::empty(),
                flags: Map::empty(),
                frozen: Map::empty(),
                rated: Map::empty(),
                transacted: Map::empty(),
                relations: Map::empty(),
                events: Seq::empty(),
            },
        )
    }
}

/// An entry point returned `result` and left `post`, as `transition`
/// prescribes for the state `pre`: on success the new state, on failure
/// the error with the state unchanged.
pub open spec fn applied(
    transition: Result<ReputationView, ReputationError>,
    pre: ReputationView,
    result: Result<(), ReputationError>,
    post: ReputationView,
) -> bool {
    match transition {
        Ok(next) => result == Ok::<(), ReputationError>(()) && post == next,
        Err(e) => result == Err::<(), ReputationError>(e) && post == pre,
    }
}

/// The state after recording an escrow, before the recomputation.
pub open spec fn recorded_state(
    pre: ReputationView,
    escrow_id: u64,
    entity: Address,
    counterparty: Address,
    amount: i128,
    outcome: TransactionOutcome,
    now: u64,
) -> ReputationView {
    let is_new = !pre.records.contains_key(escrow_id);
    let record = TransactionRecord {
        escrow_id,
        entity,
        counterparty,
        amount,
        outcome,
        rating: if is_new {
            None
        } else {
            pre.records[escrow_id].rating
        },
        recorded_at: now,
    };
    if is_new {
        ReputationView {
            records: pre.records.insert(escrow_id, record),
            histories: pre.histories.insert(entity, pre.history(entity).push(escrow_id)),
            transacted: relate(pre.transacted, entity, counterparty),
            relations: relate(relate(pre.relations, entity, counterparty), counterparty, entity),
            reputations: pre.reputations.insert(
                entity,
                counts_after_new(pre.reputation(entity), outcome),
            ),
            ..pre
        }
    } else {
        ReputationView {
            records: pre.records.insert(escrow_id, record),
            reputations: pre.reputations.insert(
                entity,
                counts_after_change(pre.reputation(entity), pre.records[escrow_id].outcome, outcome),
            ),
            ..pre
        }
    }
}

impl ReputationView {
    /// Escrow ids recorded against `e`, oldest first.
    pub open spec fn history(self, e: Address) -> Seq<u64> {
        if self.histories.contains_key(e) {
            self.histories[e]
        } else {
            Seq::empty()
        }
    }

    /// Stored reputation of `e`, or the empty one.
    pub open spec fn reputation(self, e: Address) -> ReputationScore {
        if self.reputations.contains_key(e) {
            self.reputations[e]
        } else {
            default_reputation(e)
        }
    }

    pub open spec fn is_frozen(self, e: Address) -> bool {
        self.frozen.contains_key(e) && self.frozen[e]
    }

    pub open spec fn flags_of(self, e: Address) -> Seq<Flag> {
        if self.flags.contains_key(e) {
            self.flags[e]
        } else {
            Seq::empty()
        }
    }

    pub open spec fn rated_by(self, r: Address) -> Seq<u64> {
        if self.rated.contains_key(r) {
            self.rated[r]
        } else {
            Seq::empty()
        }
    }

    /// `b` was the counterparty of one of `a`'s escrows when that escrow was
    /// first recorded.
    pub open spec fn has_transacted(self, a: Address, b: Address) -> bool {
        self.transacted.contains_key(a) && self.transacted[a].contains(b)
    }

    /// `a` and `b` were, in this order, the entity and the counterparty or
    /// the counterparty and the entity of a newly recorded escrow.
    pub open spec fn is_related(self, a: Address, b: Address) -> bool {
        self.relations.contains_key(a) && self.relations[a].contains(b)
    }

    /// Everything the ledger keeps about one entity is consistent.
    pub open spec fn entity_wf(self, e: Address) -> bool {
        let h = self.history(e);
        let rep = self.reputation(e);
        &&& rep.total_transactions == h.len()
        &&& rep.successful_transactions == count_successful(h, self.records)
        &&& rep.disputed_transactions == count_disputed(h, self.records)
        &&& h.no_duplicates()
        &&& forall|i: int|
            0 <= i < h.len() ==> #[trigger] self.records.contains_key(h[i])
                && self.records[h[i]].entity == e
        &&& rep.entity == e
        &&& rep.score <= 10_000
        &&& rep.avg_rating <= 10_000
        &&& one_active_flag_per_reporter(self.flags_of(e))
    }

    /// A stored record is consistent with its key and listed in its entity's
    /// history.
    pub open spec fn record_wf(self, id: u64) -> bool {
        self.records.contains_key(id) ==> {
            &&& self.records[id].escrow_id == id
            &&& (self.records[id].rating matches Some(x) ==> x <= 10_000)
            &&& self.history(self.records[id].entity).contains(id)
        }
    }

    /// The ledger invariant: a valid configuration, exact lifetime counters,
    /// scores in range, histories that refer to their own records without
    /// repetition, ratings in range, and at most one unresolved flag per
    /// reporter and entity.
    pub open spec fn wf(self) -> bool {
        &&& config_valid(self.config)
        &&& forall|e: Address| #[trigger] self.entity_wf(e)
        &&& forall|id: u64| #[trigger] self.record_wf(id)
    }

    /// The reputation of `e` recomputed at `now` from its score window.
    pub open spec fn recomputed(self, e: Address, now: u64) -> ReputationScore {
        let sums = score_sums(
            score_window(self.history(e)),
            self.records,
            now,
            self.config.decay_window_seconds,
        );
        ReputationScore {
            score: score_of(sums, self.config.dispute_penalty_bps) as u32,
            avg_rating: avg_rating_of(sums) as u32,
            last_updated: now,
            ..self.reputation(e)
        }
    }

    /// The state with the reputation of `e` recomputed at `now`.
    pub open spec fn with_recomputed(self, e: Address, now: u64) -> ReputationView {
        ReputationView { reputations: self.reputations.insert(e, self.recomputed(e, now)), ..self }
    }

    pub open spec fn record_transaction(
        self,
        caller: Address,
        escrow_id: u64,
        entity: Address,
        counterparty: Address,
        amount: i128,
        outcome: TransactionOutcome,
        now: u64,
    ) -> Result<ReputationView, ReputationError> {
        let is_new = !self.records.contains_key(escrow_id);
        if caller != self.admin {
            Err(ReputationError::Unauthorized)
        } else if !is_new && self.records[escrow_id].entity != entity {
            Err(ReputationError::InvalidParam)
        } else if is_new && self.is_frozen(entity) {
            Err(ReputationError::EntityFrozen)
        } else {
            let s1 = recorded_state(self, escrow_id, entity, counterparty, amount, outcome, now);
            let s2 = s1.with_recomputed(entity, now);
            Ok(
                ReputationView {
                    events: s2.events.push(
                        ReputationEvent::TransactionRecorded(
                            TransactionRecordedEvent {
                                escrow_id,
                                entity,
                                outcome,
                                new_score: s2.reputations[entity].score,
                            },
                        ),
                    ),
                    ..s2
                },
            )
        }
    }

    pub open spec fn rate_entity(
        self,
        rater: Address,
        escrow_id: u64,
        entity: Address,
        rating: u32,
        now: u64,
    ) -> Result<ReputationView, ReputationError> {
        if rating > 10_000 {
            Err(ReputationError::InvalidRating)
        } else if self.is_frozen(entity) {
            Err(ReputationError::EntityFrozen)
        } else if !self.records.contains_key(escrow_id) {
            Err(ReputationError::EntityNotFound)
        } else if self.records[escrow_id].entity != entity || self.records[escrow_id].counterparty
            != rater {
            Err(ReputationError::Unauthorized)
        } else if self.records[escrow_id].outcome == TransactionOutcome::Disputed {
            Err(ReputationError::InvalidParam)
        } else if self.rated_by(rater).contains(escrow_id) {
            Err(ReputationError::DuplicateRating)
        } else {
            let s1 = ReputationView {
                rated: self.rated.insert(rater, self.rated_by(rater).push(escrow_id)),
                records: self.records.insert(
                    escrow_id,
                    TransactionRecord { rating: Some(rating), ..self.records[escrow_id] },
                ),
                ..self
            };
            let s2 = s1.with_recomputed(entity, now);
            Ok(
                ReputationView {
                    events: s2.events.push(
                        ReputationEvent::EntityRated(
                            EntityRatedEvent { rater, entity, rating, escrow_id },
                        ),
                    ),
                    ..s2
                },
            )
        }
    }

    /// The reputation of `e` as the public reads it: score and average
    /// rating masked to zero below the transaction threshold.
    pub open spec fn get_reputation(self, e: Address) -> Result<ReputationScore, ReputationError> {
        if !self.reputations.contains_key(e) {
            Err(ReputationError::EntityNotFound)
        } else {
            let rep = self.reputations[e];
            if rep.total_transactions < self.config.min_transactions_threshold {
                Ok(ReputationScore { score: 0, avg_rating: 0, ..rep })
            } else {
                Ok(rep)
            }
        }
    }

    /// The records of a page of `e`'s history.
    pub open spec fn reputation_breakdown(self, e: Address, offset: u32, limit: u32) -> Seq<
        TransactionRecord,
    > {
        records_of(page(self.history(e), offset, limit), self.records)
    }

    /// Whether `a` and `b` met on a recorded escrow: in the stored direction
    /// only when `directed`, in either direction otherwise. Recording an
    /// escrow stores both directions.
    pub open spec fn has_relation(self, a: Address, b: Address, directed: bool) -> bool {
        if directed {
            self.is_related(a, b)
        } else {
            self.is_related(a, b) || self.is_related(b, a)
        }
    }

    pub open spec fn flag_entity(
        self,
        reporter: Address,
        entity: Address,
        reason: String,
        details: Option<String>,
        now: u64,
    ) -> Result<ReputationView, ReputationError> {
        if reporter != self.admin && !self.has_transacted(entity, reporter) {
            Err(ReputationError::Unauthorized)
        } else if has_active_flag(self.flags_of(entity), reporter) {
            Err(ReputationError::AlreadyFlagged)
        } else {
            let flags = self.flags_of(entity).push(
                Flag {
                    reporter,
                    entity,
                    reason,
                    details,
                    flagged_at: now,
                    resolved: false,
                },
            );
            let active = active_flag_count(flags) as u32;
            let flagged = ReputationEvent::EntityFlagged(
                EntityFlaggedEvent { reporter, entity, reason, flag_count: active },
            );
            let s1 = ReputationView {
                flags: self.flags.insert(entity, flags),
                events: self.events.push(flagged),
                ..self
            };
            if active >= self.config.freeze_threshold_flags && !self.is_frozen(entity) {
                Ok(
                    ReputationView {
                        frozen: s1.frozen.insert(entity, true),
                        events: s1.events.push(
                            ReputationEvent::EntityFrozen(
                                EntityFrozenEvent { entity, frozen_by: self.contract_address },
                            ),
                        ),
                        ..s1
                    },
                )
            } else {
                Ok(s1)
            }
        }
    }

    pub open spec fn resolve_flag(self, admin: Address, reporter: Address, entity: Address) -> Result<
        ReputationView,
        ReputationError,
    > {
        let flags = self.flags_of(entity);
        if admin != self.admin {
            Err(ReputationError::Unauthorized)
        } else if !has_active_flag(flags, reporter) {
            Err(ReputationError::EntityNotFound)
        } else {
            let i = first_active(flags, reporter);
            Ok(
                ReputationView {
                    flags: self.flags.insert(
                        entity,
                        flags.update(i, Flag { resolved: true, ..flags[i] }),
                    ),
                    ..self
                },
            )
        }
    }

    pub open spec fn freeze_entity(self, admin: Address, entity: Address) -> Result<
        ReputationView,
        ReputationError,
    > {
        if admin != self.admin {
            Err(ReputationError::Unauthorized)
        } else {
            Ok(
                ReputationView {
                    frozen: self.frozen.insert(entity, true),
                    events: self.events.push(
                        ReputationEvent::EntityFrozen(EntityFrozenEvent { entity, frozen_by: admin }),
                    ),
                    ..self
                },
            )
        }
    }

    pub open spec fn unfreeze_entity(self, admin: Address, entity: Address) -> Result<
        ReputationView,
        ReputationError,
    > {
        if admin != self.admin {
            Err(ReputationError::Unauthorized)
        } else {
            Ok(
                ReputationView {
                    frozen: self.frozen.insert(entity, false),
                    events: self.events.push(
                        ReputationEvent::EntityUnfrozen(
                            EntityUnfrozenEvent { entity, unfrozen_by: admin },
                        ),
                    ),
                    ..self
                },
            )
        }
    }

    pub open spec fn update_config(self, admin: Address, config: ReputationConfig) -> Result<
        ReputationView,
        ReputationError,
    > {
        if admin != self.admin {
            Err(ReputationError::Unauthorized)
        } else if !config_valid(config) {
            Err(ReputationError::InvalidParam)
        } else {
            Ok(ReputationView { config, ..self })
        }
    }

    pub open spec fn propose_admin(self, current_admin: Address, new_admin: Address) -> Result<
        ReputationView,
        ReputationError,
    > {
        if current_admin != self.admin {
            Err(ReputationError::Unauthorized)
        } else {
            Ok(
                ReputationView {
                    pending_admin: Some(new_admin),
                    events: self.events.push(
                        ReputationEvent::AdminProposed(AdminProposedEvent { current_admin, new_admin }),
                    ),
                    ..self
                },
            )
        }
    }

    pub open spec fn accept_admin(self, caller: Address) -> Result<ReputationView, ReputationError> {
        if self.pending_admin != Some(caller) {
            Err(ReputationError::Unauthorized)
        } else {
            Ok(
                ReputationView {
                    admin: caller,
                    pending_admin: None,
                    events: self.events.push(
                        ReputationEvent::AdminAccepted(AdminAcceptedEvent { new_admin: caller }),
                    ),
                    ..self
                },
            )
        }
    }
    /// The effect of one operation.
    pub open spec fn step(self, op: LedgerOp) -> Result<ReputationView, ReputationError> {
        match op {
            LedgerOp::RecordTransaction {
                caller,
                escrow_id,
                entity,
                counterparty,
                amount,
                outcome,
                now,
            } => self.record_transaction(caller, escrow_id, entity, counterparty, amount, outcome, now),
            LedgerOp::RateEntity { rater, escrow_id, entity, rating, now } => self.rate_entity(
                rater,
                escrow_id,
                entity,
                rating,
                now,
            ),
            LedgerOp::FlagEntity { reporter, entity, reason, details, now } => self.flag_entity(
                reporter,
                entity,
                reason,
                details,
                now,
            ),
            LedgerOp::ResolveFlag { admin, reporter, entity } => self.resolve_flag(
                admin,
                reporter,
                entity,
            ),
            LedgerOp::FreezeEntity { admin, entity } => self.freeze_entity(admin, entity),
            LedgerOp::UnfreezeEntity { admin, entity } => self.unfreeze_entity(admin, entity),
            LedgerOp::UpdateConfig { admin, config } => self.update_config(admin, config),
            LedgerOp::ProposeAdmin { current_admin, new_admin } => self.propose_admin(
                current_admin,
                new_admin,
            ),
            LedgerOp::AcceptAdmin { caller } => self.accept_admin(caller),
        }
    }
}

} // verus!
