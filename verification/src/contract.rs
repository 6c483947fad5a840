//! The reputation ledger: one value holding the whole contract state, with
//! an entry point per operation of the reputation contract.

use vstd::prelude::*;
use std::collections::{HashMap, HashSet};
use crate::types::{
    Address, AdminAcceptedEvent, AdminProposedEvent, EntityFlaggedEvent, EntityFrozenEvent,
    EntityRatedEvent, EntityUnfrozenEvent, Flag, ReputationConfig, ReputationError,
    ReputationEvent, ReputationScore, TransactionOutcome, TransactionRecord,
    TransactionRecordedEvent, copy_flag,
};
use crate::scoring::{
    clamp_to_bps, lemma_score_sums_bounds, outcome_value_bps, recency_weight_bps, score_sums,
    score_window, window_start, BPS_SCALE, SCORE_WINDOW,
};
use crate::model::{
    active_flag_count, applied, config_valid, counts_after_change, counts_after_new,
    dec_saturating, has_active_flag, initial_state, is_active_by, is_first_active,
    is_successful, page, page_end, recorded_state, records_of, relate, ReputationView,
};
use crate::invariants::{
    lemma_first_active_unique, lemma_flag_entity_wf, lemma_rate_entity_wf,
    lemma_record_transaction_wf, lemma_recorded_state_wf, lemma_resolve_flag_wf, lemma_wf_frame,
    rated_state,
};

verus! {

broadcast use vstd::std_specs::hash::group_hash_axioms;

/// The whole state of one deployed reputation contract.
pub struct ReputationContract {
    contract_address: Address,
    admin: Address,
    pending_admin: Option<Address>,
    config: ReputationConfig,
    reputations: HashMap<Address, ReputationScore>,
    histories: HashMap<Address, Vec<u64>>,
    records: HashMap<u64, TransactionRecord>,
    flags: HashMap<Address, Vec<Flag>>,
    frozen: HashMap<Address, bool>,
    rated: HashMap<Address, Vec<u64>>,
    transacted: HashMap<Address, HashSet<Address>>,
    relations: HashMap<Address, HashSet<Address>>,
    events: Vec<ReputationEvent>,
}

impl View for ReputationContract {
    type V = ReputationView;

    closed spec fn view(&self) -> ReputationView {
        ReputationView {
            contract_address: self.contract_address,
            admin: self.admin,
            pending_admin: self.pending_admin,
            config: self.config,
            reputations: self.reputations@,
            histories: self.histories@.map_values(|v: Vec<u64>| v@),
            records: self.records@,
            flags: self.flags@.map_values(|v: Vec<Flag>| v@),
            frozen: self.frozen@,
            rated: self.rated@.map_values(|v: Vec<u64>| v@),
            transacted: self.transacted@.map_values(|s: HashSet<Address>| s@),
            relations: self.relations@.map_values(|s: HashSet<Address>| s@),
            events: self.events@,
        }
    }
}

impl ReputationContract {
    /// The ledger invariant (see [`ReputationView::wf`]).
    pub open spec fn wf(&self) -> bool {
        self@.wf()
    }

    /// Deploys the ledger with `admin` and `config`; `contract_address` is
    /// the ledger's own address. Fails with `InvalidParam` on an invalid
    /// configuration.
    pub fn __constructor(
        contract_address: Address,
        admin: Address,
        config: ReputationConfig,
    ) -> (r: Result<ReputationContract, ReputationError>)
        ensures
            match r {
                Ok(c) => initial_state(contract_address, admin, config) == Ok::<
                    ReputationView,
                    ReputationError,
                >(c@) && c.wf(),
                Err(e) => initial_state(contract_address, admin, config) == Err::<
                    ReputationView,
                    ReputationError,
                >(e),
            },
    {
        Self::validate_config(&config)?;
        let c = ReputationContract {
            contract_address,
            admin,
            pending_admin: None,
            config,
            reputations: HashMap::new(),
            histories: HashMap::new(),
            records: HashMap::new(),
            flags: HashMap::new(),
            frozen: HashMap::new(),
            rated: HashMap::new(),
            transacted: HashMap::new(),
            relations: HashMap::new(),
            events: Vec::new(),
        };
        proof {
            assert(c@ =~= initial_state(contract_address, admin, config).unwrap());
            assert forall|e: Address| #[trigger] c@.entity_wf(e) by {
                assert(c@.history(e) =~= Seq::<u64>::empty());
            }
            assert forall|id: u64| #[trigger] c@.record_wf(id) by {}
        }
        Ok(c)
    }

    /// `Ok` exactly for the configurations the ledger accepts, else
    /// `InvalidParam`.
    pub fn validate_config(config: &ReputationConfig) -> (r: Result<(), ReputationError>)
        ensures
            r is Ok <==> config_valid(*config),
            r is Err ==> r == Err::<(), ReputationError>(ReputationError::InvalidParam),
    {
        if config.decay_window_seconds == 0 {
            return Err(ReputationError::InvalidParam);
        }
        if config.dispute_penalty_bps as i128 > BPS_SCALE {
            return Err(ReputationError::InvalidParam);
        }
        if config.freeze_threshold_flags == 0 {
            return Err(ReputationError::InvalidParam);
        }
        if config.min_transactions_threshold > SCORE_WINDOW as u64 {
            return Err(ReputationError::InvalidParam);
        }
        Ok(())
    }

    /// The current configuration.
    pub fn get_config(&self) -> (r: Result<ReputationConfig, ReputationError>)
        ensures
            r == Ok::<ReputationConfig, ReputationError>(self@.config),
    {
        Ok(self.config)
    }

    /// The current admin.
    fn require_admin(&self) -> (r: Result<Address, ReputationError>)
        ensures
            r == Ok::<Address, ReputationError>(self@.admin),
    {
        Ok(self.admin)
    }

    /// `Ok` exactly when `caller` is the admin, else `Unauthorized`.
    fn require_caller_is_admin(&self, caller: Address) -> (r: Result<(), ReputationError>)
        ensures
            r is Ok <==> caller == self@.admin,
            r is Err ==> r == Err::<(), ReputationError>(ReputationError::Unauthorized),
    {
        let admin = self.require_admin()?;
        if caller != admin {
            return Err(ReputationError::Unauthorized);
        }
        Ok(())
    }

    /// The stored reputation of `entity`, or the empty one.
    fn load_or_default_reputation(&self, entity: Address) -> (r: ReputationScore)
        ensures
            r == self@.reputation(entity),
    {
        match self.reputations.get(&entity) {
            Some(rep) => *rep,
            None => ReputationScore {
                entity,
                score: 0,
                total_transactions: 0,
                successful_transactions: 0,
                disputed_transactions: 0,
                avg_rating: 0,
                last_updated: 0,
            },
        }
    }

    /// Recomputes and stores `entity`'s `score`, `avg_rating` and
    /// `last_updated` at `now` from the most recent `SCORE_WINDOW` records of
    /// its history; the lifetime counters are left as they are.
    fn recompute_score(&mut self, entity: Address, now: u64) -> (r: Result<
        ReputationScore,
        ReputationError,
    >)
        ensures
            final(self)@ == old(self)@.with_recomputed(entity, now),
            r == Ok::<ReputationScore, ReputationError>(old(self)@.recomputed(entity, now)),
    {
        let config = self.get_config()?;
        let mut rep = self.load_or_default_reputation(entity);
        let empty: Vec<u64> = Vec::new();
        let history: &Vec<u64> = match self.histories.get(&entity) {
            Some(h) => h,
            None => &empty,
        };
        assert(history@ == self@.history(entity));
        let len = history.len();
        let window = SCORE_WINDOW as usize;
        let start = if len > window {
            len - window
        } else {
            0
        };
        let ghost records = self@.records;
        let ghost decay = config.decay_window_seconds;
        let mut weighted_value_sum: i128 = 0;
        let mut weight_sum: i128 = 0;
        let mut rating_weighted_sum: i128 = 0;
        let mut rating_weight_sum: i128 = 0;
        let mut disputed_recent: i128 = 0;
        let mut i = start;
        while i < len
            invariant
                start <= i <= len,
                len == history@.len(),
                start == window_start(len as nat),
                records == self@.records,
                decay == config.decay_window_seconds,
                ({
                    let s = score_sums(history@.subrange(start as int, i as int), records, now, decay);
                    &&& weighted_value_sum == s.weighted_value
                    &&& weight_sum == s.weight
                    &&& rating_weighted_sum == s.rating_weighted
                    &&& rating_weight_sum == s.rating_weight
                    &&& disputed_recent == s.disputed_recent
                }),
            decreases len - i,
        {
            let escrow_id = history[i];
            proof {
                lemma_score_sums_bounds(history@.subrange(start as int, i as int), records, now, decay);
                assert(history@.subrange(start as int, i + 1).drop_last() =~= history@.subrange(
                    start as int,
                    i as int,
                ));
                assert(history@.subrange(start as int, i + 1).last() == escrow_id);
            }
            i += 1;
            match self.records.get(&escrow_id) {
                None => {},
                Some(record) => {
                    let elapsed = now.saturating_sub(record.recorded_at);
                    let weight = recency_weight_bps(elapsed, config.decay_window_seconds);
                    let value = outcome_value_bps(&record.outcome);
                    assert(0 <= weight * value <= 100_000_000) by (nonlinear_arith)
                        requires
                            0 <= weight <= 10_000,
                            0 <= value <= 10_000,
                    ;
                    weighted_value_sum = weighted_value_sum + weight * value;
                    weight_sum = weight_sum + weight;
                    if record.outcome == TransactionOutcome::Disputed && weight > 0 {
                        disputed_recent = disputed_recent + 1;
                    }
                    match record.rating {
                        Some(rating) => {
                            assert(0 <= weight * rating <= 42_949_672_950_000) by (nonlinear_arith)
                                requires
                                    0 <= weight <= 10_000,
                                    0 <= rating <= 4_294_967_295,
                            ;
                            rating_weighted_sum = rating_weighted_sum + weight * (rating as i128);
                            rating_weight_sum = rating_weight_sum + weight;
                        },
                        None => {},
                    }
                },
            }
        }
        proof {
            assert(history@.subrange(start as int, len as int) == score_window(history@));
            lemma_score_sums_bounds(score_window(history@), records, now, decay);
        }
        let base_score = if weight_sum > 0 {
            weighted_value_sum / weight_sum
        } else {
            0
        };
        assert(0 <= disputed_recent * (config.dispute_penalty_bps as int) <= 200 * 4_294_967_295)
            by (nonlinear_arith)
            requires
                0 <= disputed_recent <= 200,
                0 <= config.dispute_penalty_bps <= 4_294_967_295,
        ;
        let penalty = disputed_recent * (config.dispute_penalty_bps as i128);
        rep.score = clamp_to_bps(base_score - penalty) as u32;
        rep.avg_rating = if rating_weight_sum > 0 {
            clamp_to_bps(rating_weighted_sum / rating_weight_sum) as u32
        } else {
            0
        };
        rep.last_updated = now;
        self.reputations.insert(entity, rep);
        proof {
            assert(self@ =~= old(self)@.with_recomputed(entity, now));
        }
        Ok(rep)
    }

    /// `true` for the outcomes that count toward `successful_transactions`.
    pub fn is_successful_outcome(outcome: &TransactionOutcome) -> (r: bool)
        ensures
            r == is_successful(*outcome),
    {
        match outcome {
            TransactionOutcome::Released | TransactionOutcome::ResolvedSeller => true,
            _ => false,
        }
    }

    /// Whether `entity` is frozen.
    pub fn is_frozen(&self, entity: Address) -> (r: bool)
        ensures
            r == self@.is_frozen(entity),
    {
        match self.frozen.get(&entity) {
            Some(f) => *f,
            None => false,
        }
    }

    /// Adds `b` to the set of `a` in `pairs`.
    fn insert_pair(pairs: &mut HashMap<Address, HashSet<Address>>, a: Address, b: Address)
        ensures
            final(pairs)@.map_values(|s: HashSet<Address>| s@) == relate(
                old(pairs)@.map_values(|s: HashSet<Address>| s@),
                a,
                b,
            ),
    {
        let mut set = match pairs.remove(&a) {
            Some(s) => s,
            None => HashSet::new(),
        };
        set.insert(b);
        pairs.insert(a, set);
        proof {
            assert(pairs@.map_values(|s: HashSet<Address>| s@) =~= relate(
                old(pairs)@.map_values(|s: HashSet<Address>| s@),
                a,
                b,
            ));
        }
    }

    /// Appends `escrow_id` to `entity`'s history; returns the new length.
    fn push_history(&mut self, entity: Address, escrow_id: u64) -> (n: usize)
        ensures
            final(self)@ == (ReputationView {
                histories: old(self)@.histories.insert(
                    entity,
                    old(self)@.history(entity).push(escrow_id),
                ),
                ..old(self)@
            }),
            n == old(self)@.history(entity).len() + 1,
    {
        let mut history = match self.histories.remove(&entity) {
            Some(h) => h,
            None => Vec::new(),
        };
        history.push(escrow_id);
        let n = history.len();
        self.histories.insert(entity, history);
        proof {
            assert(self@.histories =~= old(self)@.histories.insert(
                entity,
                old(self)@.history(entity).push(escrow_id),
            ));
            assert(self@ =~= (ReputationView {
                histories: old(self)@.histories.insert(
                    entity,
                    old(self)@.history(entity).push(escrow_id),
                ),
                ..old(self)@
            }));
        }
        n
    }

    /// Increments `entity`'s lifetime counters for a brand-new escrow.
    fn apply_new_transaction_counts(&mut self, entity: Address, outcome: &TransactionOutcome)
        requires
            old(self)@.reputation(entity).total_transactions < u64::MAX,
            old(self)@.reputation(entity).successful_transactions <= old(self)@.reputation(
                entity,
            ).total_transactions,
            old(self)@.reputation(entity).disputed_transactions <= old(self)@.reputation(
                entity,
            ).total_transactions,
        ensures
            final(self)@ == (ReputationView {
                reputations: old(self)@.reputations.insert(
                    entity,
                    counts_after_new(old(self)@.reputation(entity), *outcome),
                ),
                ..old(self)@
            }),
    {
        let mut rep = self.load_or_default_reputation(entity);
        rep.total_transactions = rep.total_transactions + 1;
        if Self::is_successful_outcome(outcome) {
            rep.successful_transactions = rep.successful_transactions + 1;
        }
        if matches!(outcome, TransactionOutcome::Disputed) {
            rep.disputed_transactions = rep.disputed_transactions + 1;
        }
        self.reputations.insert(entity, rep);
        proof {
            assert(self@ =~= (ReputationView {
                reputations: old(self)@.reputations.insert(
                    entity,
                    counts_after_new(old(self)@.reputation(entity), *outcome),
                ),
                ..old(self)@
            }));
        }
    }

    /// Adjusts `entity`'s lifetime counters when an escrow on file changes
    /// outcome from `prior` to `new`, leaving `total_transactions` alone.
    fn apply_outcome_change_counts(
        &mut self,
        entity: Address,
        prior: &TransactionOutcome,
        new: &TransactionOutcome,
    )
        requires
            is_successful(*new) ==> (if is_successful(*prior) {
                dec_saturating(old(self)@.reputation(entity).successful_transactions)
            } else {
                old(self)@.reputation(entity).successful_transactions
            }) < u64::MAX,
            *new == TransactionOutcome::Disputed ==> (if *prior == TransactionOutcome::Disputed {
                dec_saturating(old(self)@.reputation(entity).disputed_transactions)
            } else {
                old(self)@.reputation(entity).disputed_transactions
            }) < u64::MAX,
        ensures
            final(self)@ == (ReputationView {
                reputations: old(self)@.reputations.insert(
                    entity,
                    counts_after_change(old(self)@.reputation(entity), *prior, *new),
                ),
                ..old(self)@
            }),
    {
        let mut rep = self.load_or_default_reputation(entity);
        if Self::is_successful_outcome(prior) {
            rep.successful_transactions = rep.successful_transactions.saturating_sub(1);
        }
        if matches!(prior, TransactionOutcome::Disputed) {
            rep.disputed_transactions = rep.disputed_transactions.saturating_sub(1);
        }
        if Self::is_successful_outcome(new) {
            rep.successful_transactions = rep.successful_transactions + 1;
        }
        if matches!(new, TransactionOutcome::Disputed) {
            rep.disputed_transactions = rep.disputed_transactions + 1;
        }
        self.reputations.insert(entity, rep);
        proof {
            assert(self@ =~= (ReputationView {
                reputations: old(self)@.reputations.insert(
                    entity,
                    counts_after_change(old(self)@.reputation(entity), *prior, *new),
                ),
                ..old(self)@
            }));
        }
    }

    /// Records a transaction outcome for `entity`; admin only. A new escrow
    /// is appended to `entity`'s history and counted once; an escrow already
    /// on file is updated in place (its rating kept), which is allowed even
    /// while `entity` is frozen. `now` is the ledger time.
    pub fn record_transaction(
        &mut self,
        caller: Address,
        escrow_id: u64,
        entity: Address,
        counterparty: Address,
        amount: i128,
        outcome: TransactionOutcome,
        now: u64,
    ) -> (result: Result<(), ReputationError>)
        requires
            old(self).wf(),
        ensures
            final(self).wf(),
            applied(
                old(self)@.record_transaction(
                    caller,
                    escrow_id,
                    entity,
                    counterparty,
                    amount,
                    outcome,
                    now,
                ),
                old(self)@,
                result,
                final(self)@,
            ),
    {
        let ghost pre = self@;
        let admin = self.require_admin()?;
        if caller != admin {
            return Err(ReputationError::Unauthorized);
        }
        let existing: Option<TransactionRecord> = match self.records.get(&escrow_id) {
            Some(r) => Some(*r),
            None => None,
        };
        match existing {
            Some(prior) => {
                if prior.entity != entity {
                    return Err(ReputationError::InvalidParam);
                }
            },
            None => {
                if self.is_frozen(entity) {
                    return Err(ReputationError::EntityFrozen);
                }
            },
        }
        let rating = match existing {
            Some(r) => r.rating,
            None => None,
        };
        let record = TransactionRecord {
            escrow_id,
            entity,
            counterparty,
            amount,
            outcome,
            rating,
            recorded_at: now,
        };
        self.records.insert(escrow_id, record);
        match existing {
            None => {
                let n = self.push_history(entity, escrow_id);
                proof {
                    assert(pre.entity_wf(entity));
                    assert(usize::MAX <= u64::MAX);
                    assert(n == pre.history(entity).len() + 1);
                    assert(pre.history(entity).len() < u64::MAX);
                    lemma_recorded_state_wf(pre, escrow_id, entity, counterparty, amount, outcome, now);
                }
                Self::insert_pair(&mut self.transacted, entity, counterparty);
                Self::insert_pair(&mut self.relations, entity, counterparty);
                Self::insert_pair(&mut self.relations, counterparty, entity);
                assert(self@.reputation(entity) == pre.reputation(entity));
                self.apply_new_transaction_counts(entity, &outcome);
            },
            Some(prior) => {
                proof {
                    lemma_recorded_state_wf(pre, escrow_id, entity, counterparty, amount, outcome, now);
                }
                self.apply_outcome_change_counts(entity, &prior.outcome, &outcome);
            },
        }
        assert(self@ =~= recorded_state(pre, escrow_id, entity, counterparty, amount, outcome, now));
        let score = self.recompute_score(entity, now)?;
        self.events.push(
            ReputationEvent::TransactionRecorded(
                TransactionRecordedEvent { escrow_id, entity, outcome, new_score: score.score },
            ),
        );
        proof {
            lemma_record_transaction_wf(pre, caller, escrow_id, entity, counterparty, amount, outcome, now);
            assert(self@ =~= pre.record_transaction(caller, escrow_id, entity, counterparty, amount, outcome, now)->Ok_0);
        }
        Ok(())
    }

    /// Whether `ids` lists `id`.
    fn contains_id(ids: &Vec<u64>, id: u64) -> (r: bool)
        ensures
            r == ids@.contains(id),
    {
        let mut i: usize = 0;
        while i < ids.len()
            invariant
                0 <= i <= ids.len(),
                forall|j: int| 0 <= j < i ==> ids@[j] != id,
            decreases ids.len() - i,
        {
            if ids[i] == id {
                return true;
            }
            i += 1;
        }
        false
    }

    /// Rates the entity on the other side of a completed escrow. `rater`
    /// must be the escrow's recorded counterparty, the rating at most 10000,
    /// the escrow not disputed, `entity` not frozen, and each escrow may be
    /// rated at most once per rater. `now` is the ledger time.
    pub fn rate_entity(
        &mut self,
        rater: Address,
        escrow_id: u64,
        entity: Address,
        rating: u32,
        now: u64,
    ) -> (result: Result<(), ReputationError>)
        requires
            old(self).wf(),
        ensures
            final(self).wf(),
            applied(
                old(self)@.rate_entity(rater, escrow_id, entity, rating, now),
                old(self)@,
                result,
                final(self)@,
            ),
    {
        let ghost pre = self@;
        if rating as i128 > BPS_SCALE {
            return Err(ReputationError::InvalidRating);
        }
        if self.is_frozen(entity) {
            return Err(ReputationError::EntityFrozen);
        }
        let mut record: TransactionRecord = match self.records.get(&escrow_id) {
            Some(r) => *r,
            None => {
                return Err(ReputationError::EntityNotFound);
            },
        };
        if record.entity != entity || record.counterparty != rater {
            return Err(ReputationError::Unauthorized);
        }
        if matches!(record.outcome, TransactionOutcome::Disputed) {
            return Err(ReputationError::InvalidParam);
        }
        let already_rated = match self.rated.get(&rater) {
            Some(ids) => Self::contains_id(ids, escrow_id),
            None => false,
        };
        if already_rated {
            return Err(ReputationError::DuplicateRating);
        }
        let mut rated = match self.rated.remove(&rater) {
            Some(ids) => ids,
            None => Vec::new(),
        };
        rated.push(escrow_id);
        self.rated.insert(rater, rated);
        record.rating = Some(rating);
        self.records.insert(escrow_id, record);
        proof {
            lemma_rate_entity_wf(pre, rater, escrow_id, entity, rating, now);
            assert(self@.rated =~= rated_state(pre, rater, escrow_id, rating).rated);
            assert(self@ =~= rated_state(pre, rater, escrow_id, rating));
        }
        self.recompute_score(entity, now)?;
        self.events.push(
            ReputationEvent::EntityRated(EntityRatedEvent { rater, entity, rating, escrow_id }),
        );
        proof {
            assert(self@ =~= pre.rate_entity(rater, escrow_id, entity, rating, now)->Ok_0);
        }
        Ok(())
    }

    /// Whether `counterparty` was the counterparty of one of `entity`'s
    /// escrows when that escrow was first recorded.
    fn has_transacted_with(&self, entity: Address, counterparty: Address) -> (r: bool)
        ensures
            r == self@.has_transacted(entity, counterparty),
    {
        match self.transacted.get(&entity) {
            Some(set) => set.contains(&counterparty),
            None => false,
        }
    }

    /// Whether `a` and `b` met on a recorded escrow: in the stored direction
    /// only when `directed`, in either direction otherwise. Recording an
    /// escrow stores both directions.
    pub fn has_relation(&self, a: Address, b: Address, directed: bool) -> (r: bool)
        ensures
            r == self@.has_relation(a, b, directed),
    {
        if directed {
            self.is_related(a, b)
        } else {
            self.is_related(a, b) || self.is_related(b, a)
        }
    }

    /// Whether `a` and `b` were, in this order, the entity and the
    /// counterparty or the counterparty and the entity of a newly recorded
    /// escrow.
    fn is_related(&self, a: Address, b: Address) -> (r: bool)
        ensures
            r == self@.is_related(a, b),
    {
        match self.relations.get(&a) {
            Some(set) => set.contains(&b),
            None => false,
        }
    }

    /// Whether `reporter` holds an unresolved flag in `flags`.
    fn has_active_flag_by(flags: &Vec<Flag>, reporter: Address) -> (r: bool)
        ensures
            r == has_active_flag(flags@, reporter),
    {
        let mut i: usize = 0;
        while i < flags.len()
            invariant
                0 <= i <= flags.len(),
                forall|j: int| 0 <= j < i ==> !is_active_by(flags@, reporter, j),
            decreases flags.len() - i,
        {
            if flags[i].reporter == reporter && !flags[i].resolved {
                assert(is_active_by(flags@, reporter, i as int));
                return true;
            }
            i += 1;
        }
        false
    }

    /// Index of the first unresolved flag filed by `reporter`, if any.
    fn find_active_flag(flags: &Vec<Flag>, reporter: Address) -> (r: Option<usize>)
        ensures
            match r {
                Some(i) => is_first_active(flags@, reporter, i as int),
                None => !has_active_flag(flags@, reporter),
            },
    {
        let mut i: usize = 0;
        while i < flags.len()
            invariant
                0 <= i <= flags.len(),
                forall|j: int| 0 <= j < i ==> !is_active_by(flags@, reporter, j),
            decreases flags.len() - i,
        {
            if flags[i].reporter == reporter && !flags[i].resolved {
                return Some(i);
            }
            i += 1;
        }
        None
    }

    /// Number of unresolved flags.
    fn count_active(flags: &Vec<Flag>) -> (n: usize)
        ensures
            n == active_flag_count(flags@),
    {
        let mut n: usize = 0;
        let mut i: usize = 0;
        while i < flags.len()
            invariant
                0 <= i <= flags.len(),
                n <= i,
                n == active_flag_count(flags@.subrange(0, i as int)),
            decreases flags.len() - i,
        {
            assert(flags@.subrange(0, i + 1).drop_last() =~= flags@.subrange(0, i as int));
            if !flags[i].resolved {
                n += 1;
            }
            i += 1;
        }
        assert(flags@.subrange(0, flags.len() as int) =~= flags@);
        n
    }

    /// Reports `entity`. Only the admin or an address that was recorded as
    /// the counterparty of one of `entity`'s own escrows may report (the
    /// entity of an escrow may not report its counterparty on that ground),
    /// and a reporter may hold at most one unresolved flag per entity. Once the unresolved flags reach
    /// `freeze_threshold_flags`, `entity` is frozen in the ledger's own name.
    /// `now` is the ledger time.
    pub fn flag_entity(
        &mut self,
        reporter: Address,
        entity: Address,
        reason: String,
        details: Option<String>,
        now: u64,
    ) -> (result: Result<(), ReputationError>)
        requires
            old(self).wf(),
        ensures
            final(self).wf(),
            applied(
                old(self)@.flag_entity(reporter, entity, reason, details, now),
                old(self)@,
                result,
                final(self)@,
            ),
    {
        let ghost pre = self@;
        let config = self.get_config()?;
        let admin = self.require_admin()?;
        if reporter != admin && !self.has_transacted_with(entity, reporter) {
            return Err(ReputationError::Unauthorized);
        }
        let already_flagged = match self.flags.get(&entity) {
            Some(fs) => Self::has_active_flag_by(fs, reporter),
            None => false,
        };
        if already_flagged {
            return Err(ReputationError::AlreadyFlagged);
        }
        let mut flags = match self.flags.remove(&entity) {
            Some(fs) => fs,
            None => Vec::new(),
        };
        flags.push(
            Flag {
                reporter,
                entity,
                reason: reason.clone(),
                details,
                flagged_at: now,
                resolved: false,
            },
        );
        let active_count = Self::count_active(&flags) as u32;
        self.flags.insert(entity, flags);
        self.events.push(
            ReputationEvent::EntityFlagged(
                EntityFlaggedEvent { reporter, entity, reason, flag_count: active_count },
            ),
        );
        if active_count >= config.freeze_threshold_flags && !self.is_frozen(entity) {
            self.frozen.insert(entity, true);
            let frozen_by = self.contract_address;
            self.events.push(ReputationEvent::EntityFrozen(EntityFrozenEvent { entity, frozen_by }));
        }
        proof {
            lemma_flag_entity_wf(pre, reporter, entity, reason, details, now);
            assert(self@.flags =~= pre.flag_entity(reporter, entity, reason, details, now)->Ok_0.flags);
            assert(self@ =~= pre.flag_entity(reporter, entity, reason, details, now)->Ok_0);
        }
        Ok(())
    }

    /// Marks `reporter`'s unresolved flag against `entity` resolved; admin
    /// only. Does not unfreeze `entity`.
    pub fn resolve_flag(&mut self, admin: Address, reporter: Address, entity: Address) -> (result:
        Result<(), ReputationError>)
        requires
            old(self).wf(),
        ensures
            final(self).wf(),
            applied(old(self)@.resolve_flag(admin, reporter, entity), old(self)@, result, final(self)@),
    {
        let ghost pre = self@;
        self.require_caller_is_admin(admin)?;
        let found = match self.flags.get(&entity) {
            Some(fs) => Self::find_active_flag(fs, reporter),
            None => None,
        };
        let idx = match found {
            Some(i) => i,
            None => {
                return Err(ReputationError::EntityNotFound);
            },
        };
        let mut flags = match self.flags.remove(&entity) {
            Some(fs) => fs,
            None => Vec::new(),
        };
        proof {
            lemma_first_active_unique(pre.flags_of(entity), reporter, idx as int);
        }
        let mut flag = copy_flag(&flags[idx]);
        flag.resolved = true;
        flags.set(idx, flag);
        self.flags.insert(entity, flags);
        proof {
            lemma_resolve_flag_wf(pre, admin, reporter, entity);
            assert(self@.flags =~= pre.resolve_flag(admin, reporter, entity)->Ok_0.flags);
            assert(self@ =~= pre.resolve_flag(admin, reporter, entity)->Ok_0);
        }
        Ok(())
    }

    /// Freezes `entity`; admin only.
    pub fn freeze_entity(&mut self, admin: Address, entity: Address) -> (result: Result<
        (),
        ReputationError,
    >)
        requires
            old(self).wf(),
        ensures
            final(self).wf(),
            applied(old(self)@.freeze_entity(admin, entity), old(self)@, result, final(self)@),
    {
        self.require_caller_is_admin(admin)?;
        self.frozen.insert(entity, true);
        self.events.push(
            ReputationEvent::EntityFrozen(EntityFrozenEvent { entity, frozen_by: admin }),
        );
        proof {
            lemma_wf_frame(old(self)@, self@);
            assert(self@ =~= old(self)@.freeze_entity(admin, entity)->Ok_0);
        }
        Ok(())
    }

    /// Unfreezes `entity`; admin only.
    pub fn unfreeze_entity(&mut self, admin: Address, entity: Address) -> (result: Result<
        (),
        ReputationError,
    >)
        requires
            old(self).wf(),
        ensures
            final(self).wf(),
            applied(old(self)@.unfreeze_entity(admin, entity), old(self)@, result, final(self)@),
    {
        self.require_caller_is_admin(admin)?;
        self.frozen.insert(entity, false);
        self.events.push(
            ReputationEvent::EntityUnfrozen(EntityUnfrozenEvent { entity, unfrozen_by: admin }),
        );
        proof {
            lemma_wf_frame(old(self)@, self@);
            assert(self@ =~= old(self)@.unfreeze_entity(admin, entity)->Ok_0);
        }
        Ok(())
    }

    /// Replaces the configuration; admin only, and only with a valid one.
    pub fn update_config(&mut self, admin: Address, config: ReputationConfig) -> (result: Result<
        (),
        ReputationError,
    >)
        requires
            old(self).wf(),
        ensures
            final(self).wf(),
            applied(old(self)@.update_config(admin, config), old(self)@, result, final(self)@),
    {
        self.require_caller_is_admin(admin)?;
        Self::validate_config(&config)?;
        self.config = config;
        proof {
            lemma_wf_frame(old(self)@, self@);
            assert(self@ =~= old(self)@.update_config(admin, config)->Ok_0);
        }
        Ok(())
    }

    /// Proposes `new_admin`; must be called by the current admin.
    pub fn propose_admin(&mut self, current_admin: Address, new_admin: Address) -> (result: Result<
        (),
        ReputationError,
    >)
        requires
            old(self).wf(),
        ensures
            final(self).wf(),
            applied(old(self)@.propose_admin(current_admin, new_admin), old(self)@, result, final(self)@),
    {
        self.require_caller_is_admin(current_admin)?;
        self.pending_admin = Some(new_admin);
        self.events.push(
            ReputationEvent::AdminProposed(AdminProposedEvent { current_admin, new_admin }),
        );
        proof {
            lemma_wf_frame(old(self)@, self@);
            assert(self@ =~= old(self)@.propose_admin(current_admin, new_admin)->Ok_0);
        }
        Ok(())
    }

    /// Accepts a proposed admin transfer; must be called by the pending
    /// admin.
    pub fn accept_admin(&mut self, caller: Address) -> (result: Result<(), ReputationError>)
        requires
            old(self).wf(),
        ensures
            final(self).wf(),
            applied(old(self)@.accept_admin(caller), old(self)@, result, final(self)@),
    {
        let pending = match self.pending_admin {
            Some(p) => p,
            None => {
                return Err(ReputationError::Unauthorized);
            },
        };
        if caller != pending {
            return Err(ReputationError::Unauthorized);
        }
        self.admin = caller;
        self.pending_admin = None;
        self.events.push(
            ReputationEvent::AdminAccepted(AdminAcceptedEvent { new_admin: caller }),
        );
        proof {
            lemma_wf_frame(old(self)@, self@);
            assert(self@ =~= old(self)@.accept_admin(caller)->Ok_0);
        }
        Ok(())
    }

    /// `entity`'s reputation; `score` and `avg_rating` read `0` while
    /// `total_transactions` is below `min_transactions_threshold`.
    pub fn get_reputation(&self, entity: Address) -> (r: Result<ReputationScore, ReputationError>)
        ensures
            r == self@.get_reputation(entity),
    {
        let config = self.get_config()?;
        let mut record = match self.reputations.get(&entity) {
            Some(rep) => *rep,
            None => {
                return Err(ReputationError::EntityNotFound);
            },
        };
        if record.total_transactions < config.min_transactions_threshold {
            record.score = 0;
            record.avg_rating = 0;
        }
        Ok(record)
    }

    /// The records of `entity`'s history from `offset`, at most `limit` of
    /// them, oldest first.
    pub fn get_reputation_breakdown(&self, entity: Address, offset: u32, limit: u32) -> (r: Result<
        Vec<TransactionRecord>,
        ReputationError,
    >)
        ensures
            r is Ok,
            r matches Ok(v) ==> v@ == self@.reputation_breakdown(entity, offset, limit),
    {
        let empty: Vec<u64> = Vec::new();
        let history: &Vec<u64> = match self.histories.get(&entity) {
            Some(h) => h,
            None => &empty,
        };
        assert(history@ == self@.history(entity));
        let mut result: Vec<TransactionRecord> = Vec::new();
        let wanted = offset.saturating_add(limit) as usize;
        let end = if wanted < history.len() {
            wanted
        } else {
            history.len()
        };
        assert(end == page_end(offset, limit, history@.len()));
        let start = offset as usize;
        if start >= end {
            return Ok(result);
        }
        let mut i = start;
        while i < end
            invariant
                start <= i <= end,
                end <= history@.len(),
                result@ == records_of(history@.subrange(start as int, i as int), self@.records),
            decreases end - i,
        {
            let escrow_id = history[i];
            assert(history@.subrange(start as int, i + 1).drop_last() =~= history@.subrange(
                start as int,
                i as int,
            ));
            match self.records.get(&escrow_id) {
                Some(record) => {
                    result.push(*record);
                },
                None => {},
            }
            i += 1;
        }
        Ok(result)
    }

    /// `entity`'s flags from `offset`, at most `limit` of them, oldest first.
    pub fn get_flags(&self, entity: Address, offset: u32, limit: u32) -> (r: Result<
        Vec<Flag>,
        ReputationError,
    >)
        ensures
            r is Ok,
            r matches Ok(v) ==> v@ == page(self@.flags_of(entity), offset, limit),
    {
        let empty: Vec<Flag> = Vec::new();
        let flags: &Vec<Flag> = match self.flags.get(&entity) {
            Some(f) => f,
            None => &empty,
        };
        assert(flags@ == self@.flags_of(entity));
        let mut result: Vec<Flag> = Vec::new();
        let wanted = offset.saturating_add(limit) as usize;
        let end = if wanted < flags.len() {
            wanted
        } else {
            flags.len()
        };
        let start = offset as usize;
        if start >= end {
            return Ok(result);
        }
        let mut i = start;
        while i < end
            invariant
                start <= i <= end,
                end <= flags@.len(),
                result@ =~= flags@.subrange(start as int, i as int),
            decreases end - i,
        {
            result.push(copy_flag(&flags[i]));
            i += 1;
        }
        Ok(result)
    }

    /// The events emitted so far, oldest first.
    pub fn events(&self) -> (r: &Vec<ReputationEvent>)
        ensures
            r@ == self@.events,
    {
        &self.events
    }

    /// Hands out the events emitted so far and forgets them.
    pub fn take_events(&mut self) -> (r: Vec<ReputationEvent>)
        requires
            old(self).wf(),
        ensures
            final(self).wf(),
            r@ == old(self)@.events,
            final(self)@ == (ReputationView { events: Seq::empty(), ..old(self)@ }),
    {
        let mut taken: Vec<ReputationEvent> = Vec::new();
        std::mem::swap(&mut taken, &mut self.events);
        proof {
            lemma_wf_frame(old(self)@, self@);
            assert(self@ =~= (ReputationView { events: Seq::empty(), ..old(self)@ }));
        }
        taken
    }
}

} // verus!
