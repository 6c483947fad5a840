//! Proofs that every entry point keeps the ledger invariant.

use vstd::prelude::*;
use crate::types::{
    Address, Flag, TransactionOutcome, TransactionRecord,
};
use crate::scoring::{
    avg_rating_of, score_of, score_sums, score_window,
};
use crate::model::{
    config_valid, count_disputed, count_successful, counts_after_change, is_active_by,
    is_first_active, first_active, is_successful, one_active_flag_per_reporter, recorded_state,
    ReputationView,
};

verus! {

/// Counting over `s` only looks at the records of `s`'s elements.
pub proof fn lemma_count_frame(
    s: Seq<u64>,
    r1: Map<u64, TransactionRecord>,
    r2: Map<u64, TransactionRecord>,
)
    requires
        forall|i: int|
            0 <= i < s.len() ==> (#[trigger] r1.contains_key(s[i]) <==> r2.contains_key(s[i])),
        forall|i: int|
            0 <= i < s.len() && #[trigger] r1.contains_key(s[i]) ==> r1[s[i]].outcome
                == r2[s[i]].outcome,
    ensures
        count_successful(s, r1) == count_successful(s, r2),
        count_disputed(s, r1) == count_disputed(s, r2),
    decreases s.len(),
{
    if s.len() > 0 {
        let p = s.drop_last();
        assert forall|i: int| 0 <= i < p.len() implies (#[trigger] r1.contains_key(p[i])
            <==> r2.contains_key(p[i])) by {
            assert(p[i] == s[i]);
        }
        assert forall|i: int| 0 <= i < p.len() && #[trigger] r1.contains_key(p[i]) implies r1[p[i]].outcome
            == r2[p[i]].outcome by {
            assert(p[i] == s[i]);
        }
        lemma_count_frame(p, r1, r2);
        assert(r1.contains_key(s[s.len() - 1]) <==> r2.contains_key(s[s.len() - 1]));
    }
}

/// Counts never exceed the number of ids.
pub proof fn lemma_count_le_len(s: Seq<u64>, r: Map<u64, TransactionRecord>)
    ensures
        count_successful(s, r) <= s.len(),
        count_disputed(s, r) <= s.len(),
    decreases s.len(),
{
    if s.len() > 0 {
        lemma_count_le_len(s.drop_last(), r);
    }
}

/// The contribution of one id, listed once, separates from the rest.
pub proof fn lemma_count_split(s: Seq<u64>, r: Map<u64, TransactionRecord>, id: u64)
    requires
        s.no_duplicates(),
        s.contains(id),
    ensures
        count_successful(s, r) == count_successful(s, r.remove(id)) + if r.contains_key(id)
            && is_successful(r[id].outcome) {
            1nat
        } else {
            0nat
        },
        count_disputed(s, r) == count_disputed(s, r.remove(id)) + if r.contains_key(id)
            && r[id].outcome == TransactionOutcome::Disputed {
            1nat
        } else {
            0nat
        },
        count_successful(s, r.remove(id)) < s.len(),
        count_disputed(s, r.remove(id)) < s.len(),
    decreases s.len(),
{
    let p = s.drop_last();
    let last = s.last();
    assert(p.no_duplicates()) by {
        assert forall|i: int, j: int| 0 <= i < p.len() && 0 <= j < p.len() && i != j implies p[i]
            != p[j] by {
            assert(p[i] == s[i] && p[j] == s[j]);
        }
    }
    lemma_count_le_len(p, r.remove(id));
    if last == id {
        assert(!p.contains(id)) by {
            if p.contains(id) {
                let k = choose|k: int| 0 <= k < p.len() && p[k] == id;
                assert(s[k] == s[s.len() - 1]);
            }
        }
        lemma_count_frame(p, r, r.remove(id));
    } else {
        let k = choose|k: int| 0 <= k < s.len() && s[k] == id;
        assert(k < s.len() - 1);
        assert(p[k] == id);
        lemma_count_split(p, r, id);
    }
}

/// Recomputing a reputation keeps the invariant.
pub proof fn lemma_with_recomputed_wf(s: ReputationView, e: Address, now: u64)
    requires
        s.wf(),
    ensures
        s.with_recomputed(e, now).wf(),
{
    let t = s.with_recomputed(e, now);
    let sums = score_sums(score_window(s.history(e)), s.records, now, s.config.decay_window_seconds);
    assert(0 <= score_of(sums, s.config.dispute_penalty_bps) <= 10_000);
    assert(0 <= avg_rating_of(sums) <= 10_000);
    assert forall|x: Address| #[trigger] t.entity_wf(x) by {
        assert(s.entity_wf(x));
        assert(t.history(x) == s.history(x));
        assert(t.flags_of(x) == s.flags_of(x));
    }
    assert forall|id: u64| #[trigger] t.record_wf(id) by {
        assert(s.record_wf(id));
    }
}

/// One entity stays consistent when a new escrow is recorded.
#[verifier::spinoff_prover]
proof fn lemma_recorded_new_entity_wf(
    pre: ReputationView,
    escrow_id: u64,
    entity: Address,
    counterparty: Address,
    amount: i128,
    outcome: TransactionOutcome,
    now: u64,
    x: Address,
)
    requires
        pre.wf(),
        !pre.records.contains_key(escrow_id),
        pre.history(entity).len() < u64::MAX,
    ensures
        recorded_state(pre, escrow_id, entity, counterparty, amount, outcome, now).entity_wf(x),
{
    let post = recorded_state(pre, escrow_id, entity, counterparty, amount, outcome, now);
    let h = pre.history(entity);
    assert(pre.entity_wf(entity));
    assert(pre.entity_wf(x));
    lemma_count_le_len(h, pre.records);
    assert(!h.contains(escrow_id)) by {
        if h.contains(escrow_id) {
            let k = choose|k: int| 0 <= k < h.len() && h[k] == escrow_id;
            assert(pre.records.contains_key(h[k]));
        }
    }
    let hx = pre.history(x);
    assert(post.flags_of(x) == pre.flags_of(x));
    if x == entity {
        let h2 = h.push(escrow_id);
        assert(post.history(x) == h2);
        assert(h2.drop_last() =~= h);
        lemma_count_frame(h, pre.records, post.records);
        assert(h2.no_duplicates()) by {
            assert forall|i: int, j: int|
                0 <= i < h2.len() && 0 <= j < h2.len() && i != j implies h2[i] != h2[j] by {
                if i < h.len() && j < h.len() {
                    assert(h[i] != h[j]);
                } else if i < h.len() {
                    assert(h.contains(h[i]));
                } else {
                    assert(h.contains(h[j]));
                }
            }
        }
        assert forall|i: int| 0 <= i < h2.len() implies #[trigger] post.records.contains_key(h2[i])
            && post.records[h2[i]].entity == x by {
            if i < h.len() {
                assert(h2[i] == h[i]);
                assert(pre.records.contains_key(h[i]));
            }
        }
    } else {
        assert(post.history(x) == hx);
        assert forall|i: int| 0 <= i < hx.len() implies hx[i] != escrow_id by {
            assert(pre.records.contains_key(hx[i]));
        }
        lemma_count_frame(hx, pre.records, post.records);
        assert forall|i: int| 0 <= i < hx.len() implies #[trigger] post.records.contains_key(hx[i])
            && post.records[hx[i]].entity == x by {
            assert(pre.records.contains_key(hx[i]));
        }
    }
    let hp = post.history(x);
    let repp = post.reputation(x);
    assert(repp.total_transactions == hp.len());
    assert(repp.successful_transactions == count_successful(hp, post.records));
    assert(repp.disputed_transactions == count_disputed(hp, post.records));
    assert(hp.no_duplicates());
    assert(forall|i: int| 0 <= i < hp.len() ==> #[trigger] post.records.contains_key(hp[i]) && post.records[hp[i]].entity == x);
    assert(repp.entity == x);
    assert(repp.score <= 10_000);
    assert(repp.avg_rating <= 10_000);
    assert(one_active_flag_per_reporter(post.flags_of(x)));
    assert(post.entity_wf(x));

}

/// One entity stays consistent when an escrow on file is updated.
#[verifier::spinoff_prover]
proof fn lemma_recorded_existing_entity_wf(
    pre: ReputationView,
    escrow_id: u64,
    entity: Address,
    counterparty: Address,
    amount: i128,
    outcome: TransactionOutcome,
    now: u64,
    x: Address,
)
    requires
        pre.wf(),
        pre.records.contains_key(escrow_id),
        pre.records[escrow_id].entity == entity,
    ensures
        recorded_state(pre, escrow_id, entity, counterparty, amount, outcome, now).entity_wf(x),
{
    let post = recorded_state(pre, escrow_id, entity, counterparty, amount, outcome, now);
    let h = pre.history(entity);
    let prior = pre.records[escrow_id];
    assert(pre.entity_wf(entity));
    assert(pre.entity_wf(x));
    assert(pre.record_wf(escrow_id));
    let hx = pre.history(x);
    assert(post.history(x) == hx);
    assert(post.flags_of(x) == pre.flags_of(x));
    if x != entity {
        assert forall|i: int| 0 <= i < hx.len() implies hx[i] != escrow_id by {
            assert(pre.records.contains_key(hx[i]));
        }
        lemma_count_frame(hx, pre.records, post.records);
        assert forall|i: int| 0 <= i < hx.len() implies #[trigger] post.records.contains_key(hx[i])
            && post.records[hx[i]].entity == x by {
            assert(pre.records.contains_key(hx[i]));
        }
    } else {
        assert(h.contains(escrow_id));
        lemma_count_split(h, pre.records, escrow_id);
        lemma_count_split(h, post.records, escrow_id);
        assert(post.records.remove(escrow_id) =~= pre.records.remove(escrow_id));
        assert forall|i: int| 0 <= i < hx.len() implies #[trigger] post.records.contains_key(hx[i])
            && post.records[hx[i]].entity == x by {
            assert(pre.records.contains_key(hx[i]));
        }
        let rep = pre.reputation(entity);
        let rep2 = post.reputation(entity);
        assert(post.records[escrow_id].outcome == outcome);
        assert(rep2 == counts_after_change(rep, prior.outcome, outcome));
        assert(rep2.successful_transactions == count_successful(h, post.records));
        assert(rep2.disputed_transactions == count_disputed(h, post.records));
    }
    let hp = post.history(x);
    let repp = post.reputation(x);
    assert(repp.total_transactions == hp.len());
    assert(repp.successful_transactions == count_successful(hp, post.records));
    assert(repp.disputed_transactions == count_disputed(hp, post.records));
    assert(hp.no_duplicates());
    assert(forall|i: int| 0 <= i < hp.len() ==> #[trigger] post.records.contains_key(hp[i]) && post.records[hp[i]].entity == x);
    assert(repp.entity == x);
    assert(repp.score <= 10_000);
    assert(repp.avg_rating <= 10_000);
    assert(one_active_flag_per_reporter(post.flags_of(x)));
    assert(post.entity_wf(x));

}

/// Recording an escrow keeps the invariant, as long as a new escrow's
/// lifetime count still fits.
pub proof fn lemma_recorded_state_wf(
    pre: ReputationView,
    escrow_id: u64,
    entity: Address,
    counterparty: Address,
    amount: i128,
    outcome: TransactionOutcome,
    now: u64,
)
    requires
        pre.wf(),
        pre.records.contains_key(escrow_id) ==> pre.records[escrow_id].entity == entity,
        !pre.records.contains_key(escrow_id) ==> pre.history(entity).len() < u64::MAX,
    ensures
        recorded_state(pre, escrow_id, entity, counterparty, amount, outcome, now).wf(),
        pre.reputation(entity).successful_transactions <= pre.reputation(entity).total_transactions,
        pre.reputation(entity).disputed_transactions <= pre.reputation(entity).total_transactions,
        pre.records.contains_key(escrow_id) ==> {
            let rep = pre.reputation(entity);
            let prior = pre.records[escrow_id].outcome;
            let s1 = if is_successful(prior) {
                rep.successful_transactions - 1
            } else {
                rep.successful_transactions as int
            };
            let d1 = if prior == TransactionOutcome::Disputed {
                rep.disputed_transactions - 1
            } else {
                rep.disputed_transactions as int
            };
            &&& 0 <= s1 < u64::MAX
            &&& 0 <= d1 < u64::MAX
        },
{
    let post = recorded_state(pre, escrow_id, entity, counterparty, amount, outcome, now);
    let h = pre.history(entity);
    assert(pre.entity_wf(entity));
    lemma_count_le_len(h, pre.records);
    if !pre.records.contains_key(escrow_id) {
        assert forall|x: Address| #[trigger] post.entity_wf(x) by {
            lemma_recorded_new_entity_wf(pre, escrow_id, entity, counterparty, amount, outcome, now, x);
        }
        assert forall|id: u64| #[trigger] post.record_wf(id) by {
            assert(pre.record_wf(id));
            if id != escrow_id && pre.records.contains_key(id) {
                if pre.records[id].entity == entity {
                    assert(h.push(escrow_id).contains(id)) by {
                        let k = choose|k: int| 0 <= k < h.len() && h[k] == id;
                        assert(h.push(escrow_id)[k] == id);
                    }
                }
            }
            if id == escrow_id {
                assert(h.push(escrow_id)[h.len() as int] == escrow_id);
            }
        }
    } else {
        assert(pre.record_wf(escrow_id));
        assert(h.contains(escrow_id));
        lemma_count_split(h, pre.records, escrow_id);
        assert forall|x: Address| #[trigger] post.entity_wf(x) by {
            lemma_recorded_existing_entity_wf(pre, escrow_id, entity, counterparty, amount, outcome, now, x);
        }
        assert forall|id: u64| #[trigger] post.record_wf(id) by {
            assert(pre.record_wf(id));
        }
    }
}

/// Recording an escrow keeps the invariant.
pub proof fn lemma_record_transaction_wf(
    pre: ReputationView,
    caller: Address,
    escrow_id: u64,
    entity: Address,
    counterparty: Address,
    amount: i128,
    outcome: TransactionOutcome,
    now: u64,
)
    requires
        pre.wf(),
        pre.record_transaction(caller, escrow_id, entity, counterparty, amount, outcome, now) is Ok,
        !pre.records.contains_key(escrow_id) ==> pre.history(entity).len() < u64::MAX,
    ensures
        pre.record_transaction(caller, escrow_id, entity, counterparty, amount, outcome, now)->Ok_0.wf(),
{
    let s1 = recorded_state(pre, escrow_id, entity, counterparty, amount, outcome, now);
    lemma_recorded_state_wf(pre, escrow_id, entity, counterparty, amount, outcome, now);
    lemma_with_recomputed_wf(s1, entity, now);
    let s2 = s1.with_recomputed(entity, now);
    let post = pre.record_transaction(caller, escrow_id, entity, counterparty, amount, outcome, now)->Ok_0;
    assert(post.records == s2.records);
    assert forall|x: Address| #[trigger] post.entity_wf(x) by {
        assert(s2.entity_wf(x));
        assert(post.history(x) == s2.history(x));
        assert(post.flags_of(x) == s2.flags_of(x));
        assert(post.reputation(x) == s2.reputation(x));
    }
    assert forall|id: u64| #[trigger] post.record_wf(id) by {
        assert(s2.record_wf(id));
    }
}

/// The state after a rating, before the recomputation.
pub open spec fn rated_state(
    pre: ReputationView,
    rater: Address,
    escrow_id: u64,
    rating: u32,
) -> ReputationView {
    ReputationView {
        rated: pre.rated.insert(rater, pre.rated_by(rater).push(escrow_id)),
        records: pre.records.insert(
            escrow_id,
            TransactionRecord { rating: Some(rating), ..pre.records[escrow_id] },
        ),
        ..pre
    }
}

/// Rating an escrow keeps the invariant.
pub proof fn lemma_rate_entity_wf(
    pre: ReputationView,
    rater: Address,
    escrow_id: u64,
    entity: Address,
    rating: u32,
    now: u64,
)
    requires
        pre.wf(),
        pre.rate_entity(rater, escrow_id, entity, rating, now) is Ok,
    ensures
        rated_state(pre, rater, escrow_id, rating).wf(),
        pre.rate_entity(rater, escrow_id, entity, rating, now)->Ok_0 == ({
            let s2 = rated_state(pre, rater, escrow_id, rating).with_recomputed(entity, now);
            ReputationView {
                events: s2.events.push(
                    crate::types::ReputationEvent::EntityRated(
                        crate::types::EntityRatedEvent { rater, entity, rating, escrow_id },
                    ),
                ),
                ..s2
            }
        }),
        pre.rate_entity(rater, escrow_id, entity, rating, now)->Ok_0.wf(),
{
    let s1 = rated_state(pre, rater, escrow_id, rating);
    assert forall|x: Address| #[trigger] s1.entity_wf(x) by {
        assert(pre.entity_wf(x));
        let hx = pre.history(x);
        assert(s1.history(x) == hx);
        assert(s1.flags_of(x) == pre.flags_of(x));
        lemma_count_frame(hx, pre.records, s1.records);
        assert forall|i: int| 0 <= i < hx.len() implies #[trigger] s1.records.contains_key(hx[i])
            && s1.records[hx[i]].entity == x by {
            assert(pre.records.contains_key(hx[i]));
        }
    }
    assert forall|id: u64| #[trigger] s1.record_wf(id) by {
        assert(pre.record_wf(id));
    }
    lemma_with_recomputed_wf(s1, entity, now);
    let s2 = s1.with_recomputed(entity, now);
    let post = pre.rate_entity(rater, escrow_id, entity, rating, now)->Ok_0;
    assert forall|x: Address| #[trigger] post.entity_wf(x) by {
        assert(s2.entity_wf(x));
        assert(post.history(x) == s2.history(x));
        assert(post.flags_of(x) == s2.flags_of(x));
        assert(post.reputation(x) == s2.reputation(x));
    }
    assert forall|id: u64| #[trigger] post.record_wf(id) by {
        assert(s2.record_wf(id));
    }
}

/// The invariant depends only on the configuration, histories,
/// reputations, records and flags.
pub proof fn lemma_wf_frame(pre: ReputationView, post: ReputationView)
    requires
        pre.wf(),
        config_valid(post.config),
        post.histories == pre.histories,
        post.reputations == pre.reputations,
        post.records == pre.records,
        post.flags == pre.flags,
    ensures
        post.wf(),
{
    assert forall|x: Address| #[trigger] post.entity_wf(x) by {
        assert(pre.entity_wf(x));
        assert(post.history(x) == pre.history(x));
        assert(post.flags_of(x) == pre.flags_of(x));
        assert(post.reputation(x) == pre.reputation(x));
    }
    assert forall|id: u64| #[trigger] post.record_wf(id) by {
        assert(pre.record_wf(id));
        if post.records.contains_key(id) {
            assert(post.history(post.records[id].entity) == pre.history(pre.records[id].entity));
        }
    }
}

/// Filing a flag keeps the invariant.
pub proof fn lemma_flag_entity_wf(
    pre: ReputationView,
    reporter: Address,
    entity: Address,
    reason: String,
    details: Option<String>,
    now: u64,
)
    requires
        pre.wf(),
        pre.flag_entity(reporter, entity, reason, details, now) is Ok,
    ensures
        pre.flag_entity(reporter, entity, reason, details, now)->Ok_0.wf(),
{
    let post = pre.flag_entity(reporter, entity, reason, details, now)->Ok_0;
    let flags = pre.flags_of(entity);
    let nf = Flag { reporter, entity, reason, details, flagged_at: now, resolved: false };
    let flags2 = flags.push(nf);
    assert(post.flags_of(entity) == flags2);
    assert forall|x: Address| #[trigger] post.entity_wf(x) by {
        assert(pre.entity_wf(x));
        assert(post.history(x) == pre.history(x));
        assert(post.reputation(x) == pre.reputation(x));
        if x == entity {
            assert forall|i: int, j: int|
                0 <= i < j < flags2.len() && !flags2[i].resolved && !flags2[j].resolved implies #[trigger] flags2[i].reporter
                != #[trigger] flags2[j].reporter by {
                if j == flags.len() {
                    assert(!is_active_by(flags, reporter, i));
                } else {
                    assert(flags2[i] == flags[i] && flags2[j] == flags[j]);
                }
            }
        } else {
            assert(post.flags_of(x) == pre.flags_of(x));
        }
        assert(post.entity_wf(x));
    }
    assert forall|id: u64| #[trigger] post.record_wf(id) by {
        assert(pre.record_wf(id));
        if post.records.contains_key(id) {
            assert(post.history(post.records[id].entity) == pre.history(pre.records[id].entity));
        }
    }
}

/// Resolving a flag keeps the invariant.
pub proof fn lemma_resolve_flag_wf(pre: ReputationView, admin: Address, reporter: Address, entity: Address)
    requires
        pre.wf(),
        pre.resolve_flag(admin, reporter, entity) is Ok,
    ensures
        pre.resolve_flag(admin, reporter, entity)->Ok_0.wf(),
{
    let post = pre.resolve_flag(admin, reporter, entity)->Ok_0;
    let flags = pre.flags_of(entity);
    let k = first_active(flags, reporter);
    assert(is_first_active(flags, reporter, k)) by {
        let w = choose|i: int| is_active_by(flags, reporter, i);
        lemma_first_active_exists(flags, reporter, w);
    }
    let flags2 = flags.update(k, Flag { resolved: true, ..flags[k] });
    assert(post.flags_of(entity) == flags2);
    assert forall|x: Address| #[trigger] post.entity_wf(x) by {
        assert(pre.entity_wf(x));
        assert(post.history(x) == pre.history(x));
        assert(post.reputation(x) == pre.reputation(x));
        if x == entity {
            assert forall|i: int, j: int|
                0 <= i < j < flags2.len() && !flags2[i].resolved && !flags2[j].resolved implies #[trigger] flags2[i].reporter
                != #[trigger] flags2[j].reporter by {
                assert(flags2[i] == flags[i] && flags2[j] == flags[j]);
            }
        } else {
            assert(post.flags_of(x) == pre.flags_of(x));
        }
        assert(post.entity_wf(x));
    }
    assert forall|id: u64| #[trigger] post.record_wf(id) by {
        assert(pre.record_wf(id));
        if post.records.contains_key(id) {
            assert(post.history(post.records[id].entity) == pre.history(pre.records[id].entity));
        }
    }
}

/// Whenever a reporter holds an unresolved flag, there is a first one, and
/// `first_active` picks it.
pub proof fn lemma_first_active_exists(flags: Seq<Flag>, reporter: Address, w: int)
    requires
        is_active_by(flags, reporter, w),
    ensures
        is_first_active(flags, reporter, first_active(flags, reporter)),
    decreases w,
{
    if exists|j: int| 0 <= j < w && is_active_by(flags, reporter, j) {
        let j = choose|j: int| 0 <= j < w && is_active_by(flags, reporter, j);
        lemma_first_active_exists(flags, reporter, j);
    } else {
        assert(is_first_active(flags, reporter, w));
    }
}

/// There is only one first unresolved flag of a reporter.
pub proof fn lemma_first_active_unique(flags: Seq<Flag>, reporter: Address, i: int)
    requires
        is_first_active(flags, reporter, i),
    ensures
        first_active(flags, reporter) == i,
{
    lemma_first_active_exists(flags, reporter, i);
    let k = first_active(flags, reporter);
    if k < i {
        assert(!is_active_by(flags, reporter, k));
    } else if k > i {
        assert(!is_active_by(flags, reporter, i));
    }
}

} // verus!
