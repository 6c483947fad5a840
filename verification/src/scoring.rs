//! The score formula: outcome values, the time-decayed recency weight and
//! the weighted averages over an entity's most recent records.

use vstd::prelude::*;
use vstd::arithmetic::power2::{pow2, lemma2_to64};
use vstd::bits::lemma_u64_shr_is_div;
use crate::types::{
    TransactionOutcome, TransactionRecord,
};

verus! {

/// Maximum basis points value (100.00%), the scale of ratings, scores and
/// recency weights.
pub const BPS_SCALE: i128 = 10_000;

/// Once this many half-lives have elapsed the recency weight is treated as
/// zero outright. `BPS_SCALE >> MAX_HALVINGS` is still non-zero, so the cutoff
/// is reached before the halving itself rounds down to zero.
pub const MAX_HALVINGS: u64 = 13;

/// How many of an entity's most recent transactions feed its score.
pub const SCORE_WINDOW: u32 = 200;

/// Contribution of an outcome toward the score, in basis points.
pub open spec fn outcome_value(outcome: TransactionOutcome) -> int {
    match outcome {
        TransactionOutcome::Released => 10_000,
        TransactionOutcome::Refunded => 2_000,
        TransactionOutcome::Disputed => 0,
        TransactionOutcome::ResolvedSeller => 8_000,
        TransactionOutcome::ResolvedBuyer => 2_000,
    }
}

/// Maps a transaction outcome to its contribution toward `score`.
pub fn outcome_value_bps(outcome: &TransactionOutcome) -> (v: i128)
    ensures
        v == outcome_value(*outcome),
        0 <= v <= 10_000,
{
    match outcome {
        TransactionOutcome::Released => 10_000,
        TransactionOutcome::Refunded => 2_000,
        TransactionOutcome::Disputed => 0,
        TransactionOutcome::ResolvedSeller => 8_000,
        TransactionOutcome::ResolvedBuyer => 2_000,
    }
}

/// Full weight halved `k` times: `10000 / 2^k`.
pub open spec fn halving_base(k: nat) -> int {
    10_000int / (pow2(k) as int)
}

/// Time-decayed recency weight in basis points: an exact halving for each
/// full `window` elapsed, with a linear interpolation toward the next
/// halving for the remainder, and zero from `MAX_HALVINGS` half-lives on.
pub open spec fn recency_weight(elapsed: u64, window: u64) -> int {
    if window == 0 {
        10_000
    } else if elapsed / window >= MAX_HALVINGS {
        0
    } else {
        let base = halving_base((elapsed / window) as nat);
        if base == 0 {
            0
        } else {
            let decrement = (base * ((elapsed % window) as int)) / (2 * (window as int));
            if base - decrement < 0 {
                0
            } else {
                base - decrement
            }
        }
    }
}

/// The concrete values of `halving_base` below the cutoff.
pub proof fn lemma_halving_base_values(k: nat)
    requires
        k <= MAX_HALVINGS,
    ensures
        k == 0 ==> halving_base(k) == 10000,
        k == 1 ==> halving_base(k) == 5000,
        k == 2 ==> halving_base(k) == 2500,
        k == 3 ==> halving_base(k) == 1250,
        k == 4 ==> halving_base(k) == 625,
        k == 5 ==> halving_base(k) == 312,
        k == 6 ==> halving_base(k) == 156,
        k == 7 ==> halving_base(k) == 78,
        k == 8 ==> halving_base(k) == 39,
        k == 9 ==> halving_base(k) == 19,
        k == 10 ==> halving_base(k) == 9,
        k == 11 ==> halving_base(k) == 4,
        k == 12 ==> halving_base(k) == 2,
        k == 13 ==> halving_base(k) == 1,
        1 <= halving_base(k) <= 10000,
        k < MAX_HALVINGS ==> halving_base(k + 1) == halving_base(k) / 2,
{
    lemma2_to64();
    if k == 0 {
        assert(halving_base(0) == 10000 && halving_base(1) == 5000);
    } else if k == 1 {
        assert(halving_base(1) == 5000 && halving_base(2) == 2500);
    } else if k == 2 {
        assert(halving_base(2) == 2500 && halving_base(3) == 1250);
    } else if k == 3 {
        assert(halving_base(3) == 1250 && halving_base(4) == 625);
    } else if k == 4 {
        assert(halving_base(4) == 625 && halving_base(5) == 312);
    } else if k == 5 {
        assert(halving_base(5) == 312 && halving_base(6) == 156);
    } else if k == 6 {
        assert(halving_base(6) == 156 && halving_base(7) == 78);
    } else if k == 7 {
        assert(halving_base(7) == 78 && halving_base(8) == 39);
    } else if k == 8 {
        assert(halving_base(8) == 39 && halving_base(9) == 19);
    } else if k == 9 {
        assert(halving_base(9) == 19 && halving_base(10) == 9);
    } else if k == 10 {
        assert(halving_base(10) == 9 && halving_base(11) == 4);
    } else if k == 11 {
        assert(halving_base(11) == 4 && halving_base(12) == 2);
    } else if k == 12 {
        assert(halving_base(12) == 2 && halving_base(13) == 1);
    }
}

/// Time-decayed recency weight in basis points (see [`recency_weight`]).
pub fn recency_weight_bps(elapsed_secs: u64, decay_window_secs: u64) -> (w: i128)
    ensures
        w == recency_weight(elapsed_secs, decay_window_secs),
        0 <= w <= 10_000,
{
    if decay_window_secs == 0 {
        return BPS_SCALE;
    }
    let full_halvings = elapsed_secs / decay_window_secs;
    if full_halvings >= MAX_HALVINGS {
        return 0;
    }
    let remainder_secs = elapsed_secs % decay_window_secs;
    let shifted: u64 = 10_000u64 >> full_halvings;
    proof {
        lemma_u64_shr_is_div(10_000u64, full_halvings);
        lemma_halving_base_values(full_halvings as nat);
    }
    let base: i128 = shifted as i128;
    assert(base == halving_base(full_halvings as nat));
    if base == 0 {
        return 0;
    }
    assert(base * (remainder_secs as int) <= 10_000 * 0xffff_ffff_ffff_ffff) by (nonlinear_arith)
        requires
            0 <= base <= 10_000,
            0 <= remainder_secs <= 0xffff_ffff_ffff_ffff,
    ;
    assert(0 <= base * (remainder_secs as int)) by (nonlinear_arith)
        requires
            0 <= base,
            0 <= remainder_secs,
    ;
    let numerator = base * (remainder_secs as i128);
    let denominator = 2 * (decay_window_secs as i128);
    let decrement = numerator / denominator;
    let w = base - decrement;
    if w < 0 {
        0
    } else {
        w
    }
}


/// Clamps a value into `0..=10000`.
pub fn clamp_to_bps(x: i128) -> (r: i128)
    ensures
        r == clamp_bps(x as int),
{
    if x < 0 {
        0
    } else if x > BPS_SCALE {
        BPS_SCALE
    } else {
        x
    }
}

/// Running sums of the score formula over a sequence of records.
pub struct ScoreSums {
    pub weighted_value: int,
    pub weight: int,
    pub rating_weighted: int,
    pub rating_weight: int,
    pub disputed_recent: int,
}

/// `now - then`, or zero if `then` lies in the future.
pub open spec fn elapsed_since(now: u64, then: u64) -> u64 {
    if now >= then {
        (now - then) as u64
    } else {
        0
    }
}

/// The sums with one more record folded in.
pub open spec fn add_record(acc: ScoreSums, r: TransactionRecord, now: u64, window: u64) -> ScoreSums {
    let w = recency_weight(elapsed_since(now, r.recorded_at), window);
    ScoreSums {
        weighted_value: acc.weighted_value + w * outcome_value(r.outcome),
        weight: acc.weight + w,
        rating_weighted: match r.rating {
            Some(x) => acc.rating_weighted + w * x,
            None => acc.rating_weighted,
        },
        rating_weight: match r.rating {
            Some(x) => acc.rating_weight + w,
            None => acc.rating_weight,
        },
        disputed_recent: if r.outcome == TransactionOutcome::Disputed && w > 0 {
            acc.disputed_recent + 1
        } else {
            acc.disputed_recent
        },
    }
}

/// The score sums over the records of `ids` (in order); ids without a record
/// are skipped.
pub open spec fn score_sums(
    ids: Seq<u64>,
    records: Map<u64, TransactionRecord>,
    now: u64,
    window: u64,
) -> ScoreSums
    decreases ids.len(),
{
    if ids.len() == 0 {
        ScoreSums {
            weighted_value: 0,
            weight: 0,
            rating_weighted: 0,
            rating_weight: 0,
            disputed_recent: 0,
        }
    } else {
        let acc = score_sums(ids.drop_last(), records, now, window);
        if records.contains_key(ids.last()) {
            add_record(acc, records[ids.last()], now, window)
        } else {
            acc
        }
    }
}

/// Index of the first history entry that feeds the score.
pub open spec fn window_start(len: nat) -> nat {
    if len > SCORE_WINDOW {
        (len - SCORE_WINDOW) as nat
    } else {
        0
    }
}

/// The most recent `SCORE_WINDOW` entries of a history.
pub open spec fn score_window(history: Seq<u64>) -> Seq<u64> {
    history.subrange(window_start(history.len()) as int, history.len() as int)
}

/// Clamps a value into `0..=10000`.
pub open spec fn clamp_bps(x: int) -> int {
    if x < 0 {
        0
    } else if x > 10_000 {
        10_000
    } else {
        x
    }
}

/// `sum(weight * value) / sum(weight)`, less a flat penalty per still
/// relevant dispute, clamped into `0..=10000`.
pub open spec fn score_of(s: ScoreSums, dispute_penalty_bps: u32) -> int {
    let base = if s.weight > 0 {
        s.weighted_value / s.weight
    } else {
        0
    };
    clamp_bps(base - s.disputed_recent * dispute_penalty_bps)
}

/// Weighted average of the ratings, clamped into `0..=10000`; zero when no
/// rated record carries weight.
pub open spec fn avg_rating_of(s: ScoreSums) -> int {
    if s.rating_weight > 0 {
        clamp_bps(s.rating_weighted / s.rating_weight)
    } else {
        0
    }
}

/// Bounds of the sums, linear in the number of ids.
pub proof fn lemma_score_sums_bounds(
    ids: Seq<u64>,
    records: Map<u64, TransactionRecord>,
    now: u64,
    window: u64,
)
    ensures
        0 <= score_sums(ids, records, now, window).weighted_value <= ids.len() * 100_000_000,
        0 <= score_sums(ids, records, now, window).weight <= ids.len() * 10_000,
        0 <= score_sums(ids, records, now, window).rating_weighted <= ids.len() * 42_949_672_950_000,
        0 <= score_sums(ids, records, now, window).rating_weight <= ids.len() * 10_000,
        0 <= score_sums(ids, records, now, window).disputed_recent <= ids.len(),
    decreases ids.len(),
{
    if ids.len() > 0 {
        lemma_score_sums_bounds(ids.drop_last(), records, now, window);
        if records.contains_key(ids.last()) {
            let r = records[ids.last()];
            let w = recency_weight(elapsed_since(now, r.recorded_at), window);
            lemma_recency_weight_endpoints(elapsed_since(now, r.recorded_at), window);
            let v = outcome_value(r.outcome);
            assert(0 <= w * v <= 100_000_000) by (nonlinear_arith)
                requires
                    0 <= w <= 10_000,
                    0 <= v <= 10_000,
            ;
            if let Some(x) = r.rating {
                assert(0 <= w * x <= 42_949_672_950_000) by (nonlinear_arith)
                    requires
                        0 <= w <= 10_000,
                        0 <= x <= 4_294_967_295,
                ;
            }
        }
    }
}

/// Below the cutoff the weight never exceeds the halving base of its
/// half-life (full weight halved once per window elapsed) and always stays
/// above half of it, so it is positive: the linear interpolation stays
/// within a factor of two of the exact halving curve.
pub proof fn lemma_weight_within_half_life(elapsed: u64, window: u64)
    requires
        window > 0,
        elapsed / window < MAX_HALVINGS,
    ensures
        recency_weight(elapsed, window) <= halving_base((elapsed / window) as nat),
        2 * recency_weight(elapsed, window) > halving_base((elapsed / window) as nat),
        halving_base((elapsed / window) as nat + 1) < recency_weight(elapsed, window),
        recency_weight(elapsed, window) > 0,
{
    let k = (elapsed / window) as nat;
    let r = (elapsed % window) as int;
    let base = halving_base(k);
    lemma_halving_base_values(k);
    let w = window as int;
    assert(0 <= r < w);
    let d = (base * r) / (2 * w);
    assert(0 <= d && 2 * d < base) by (nonlinear_arith)
        requires
            0 <= r < w,
            base >= 1,
            d == (base * r) / (2 * w),
    {
        assert(d * (2 * w) <= base * r);
        assert(base * r < base * w);
        assert(0 <= base * r);
    }
}

/// The weight at zero elapsed time is full weight, and from `MAX_HALVINGS`
/// half-lives on it is zero.
pub proof fn lemma_recency_weight_endpoints(elapsed: u64, window: u64)
    ensures
        recency_weight(0, window) == 10_000,
        window > 0 && elapsed / window >= MAX_HALVINGS ==> recency_weight(elapsed, window) == 0,
        0 <= recency_weight(elapsed, window) <= 10_000,
{
    lemma_halving_base_values(0);
    if window > 0 {
        assert(0u64 / window == 0 && 0u64 % window == 0) by (nonlinear_arith)
            requires
                window > 0,
        ;
    }
    if window > 0 && elapsed / window < MAX_HALVINGS {
        lemma_weight_within_half_life(elapsed, window);
        lemma_halving_base_values((elapsed / window) as nat);
    }
}

/// Crossing into a later half-life strictly lowers the weight, as long as
/// the earlier one is before the cutoff.
pub proof fn lemma_recency_weight_strictly_decreases_across_half_lives(
    e1: u64,
    e2: u64,
    window: u64,
)
    requires
        window > 0,
        e1 / window < e2 / window,
        e1 / window < MAX_HALVINGS,
    ensures
        recency_weight(e1, window) > recency_weight(e2, window),
{
    let k1 = (e1 / window) as nat;
    let k2 = (e2 / window) as nat;
    lemma_weight_within_half_life(e1, window);
    lemma_halving_base_values(k1);
    // the next halving base is at most half of this one
    assert(halving_base(k1 + 1) == halving_base(k1) / 2);
    if k2 < MAX_HALVINGS {
        lemma_weight_within_half_life(e2, window);
        lemma_halving_base_monotone(k1 + 1, k2);
    }
}

/// The halving base never increases with the number of halvings.
proof fn lemma_halving_base_monotone(a: nat, b: nat)
    requires
        a <= b <= MAX_HALVINGS,
    ensures
        halving_base(b) <= halving_base(a),
    decreases b - a,
{
    if a < b {
        lemma_halving_base_monotone(a, (b - 1) as nat);
        lemma_halving_base_values((b - 1) as nat);
    }
}

/// The recency weight never increases as more time elapses.
pub proof fn lemma_recency_weight_monotone(e1: u64, e2: u64, window: u64)
    requires
        e1 <= e2,
    ensures
        recency_weight(e1, window) >= recency_weight(e2, window),
{
    lemma_recency_weight_endpoints(e2, window);
    if window > 0 {
        let k1 = e1 / window;
        let k2 = e2 / window;
        assert(k1 <= k2) by (nonlinear_arith)
            requires
                e1 <= e2,
                window > 0,
                k1 == e1 / window,
                k2 == e2 / window,
        ;
        if k1 < k2 {
            if k1 < MAX_HALVINGS {
                lemma_recency_weight_strictly_decreases_across_half_lives(e1, e2, window);
            } else {
                lemma_recency_weight_endpoints(e1, window);
            }
        } else if k1 < MAX_HALVINGS {
            let r1 = (e1 % window) as int;
            let r2 = (e2 % window) as int;
            assert(r1 <= r2) by (nonlinear_arith)
                requires
                    e1 <= e2,
                    window > 0,
                    e1 / window == e2 / window,
                    r1 == e1 % window,
                    r2 == e2 % window,
            {
                assert(e1 == window * (e1 / window) + e1 % window);
                assert(e2 == window * (e2 / window) + e2 % window);
            }
            let base = halving_base(k1 as nat);
            lemma_halving_base_values(k1 as nat);
            let w = window as int;
            assert((base * r1) / (2 * w) <= (base * r2) / (2 * w)) by (nonlinear_arith)
                requires
                    0 <= r1 <= r2,
                    base >= 1,
                    w > 0,
            {
                assert(base * r1 <= base * r2);
                vstd::arithmetic::div_mod::lemma_div_is_ordered(base * r1, base * r2, 2 * w);
            }
        }
    }
}

} // verus!
