//! Properties that hold across the library's operations, stated over the same models
//! that the operations' contracts use.
use vstd::prelude::*;
use crate::alert::rules::{
    gaming_alerts, opportunity_alerts, planned_alerts, queue_alerts, threat_alerts, AlertPlanView,
};
use crate::output::{
    gaming_alert_body_text, opportunity_alert_body_text, position_alert_body_text, threat_alert_body_text,
};
use crate::analysis::adversarial::{merge_one, merged, slot_search, GamingSignal, SignalView};
use crate::analysis::cohort::{
    bucket_count, bucket_index, bucket_rows, bucket_stake, bucket_total, flow_rows, move_count, tier_at,
    tier_index,
};
use crate::analysis::queue::{count_before, sorts_before, PoolQueuePosition, PoolScore};
use crate::analysis::threat::{ceil_div, classify_spec, neg_threat_order, overtake_eta, threat_order};
use crate::config::AlertRulesConfig;
use crate::models::{
    severity_rank_of, short_key_bytes, stake_pool_named, stake_pool_text, AlertCategory, CaptureDifficulty, CohortId,
    DecayOpportunity, QueueDirection, StakePoolId, ThreatProfile, ThreatTier, ValidatorSnapshot,
};
use crate::ordering::sorted_desc_by;
use crate::rpc::rate_limiter::{
    acquire_wait, error_delay, scaled_millis_nanos, success_delay, RateLimiter, NANOS_PER_MILLI,
};
use crate::snapshot::window_start_spec;
use crate::text::{
    ascending, ascii_lower, ascii_lower_seq, insert_lex, is_white_space, leading_ws, lex_le, sort_lex, trailing_ws,
    trim_spec,
};

verus! {

/// After a success the delay stays between the limiter's bounds, and it never grows
/// once it is at least a millisecond.
pub proof fn success_keeps_delay_within_bounds(r: RateLimiter)
    requires
        r.within_bounds(),
    ensures
        r.min_delay_nanos <= success_delay(r) <= r.max_delay_nanos,
        r.delay_nanos >= NANOS_PER_MILLI ==> success_delay(r) <= r.delay_nanos,
{
    let ms = (r.delay_nanos / 1_000_000) as int;
    let scaled = (ms * 95 + 50) / 100;
    assert(ms * 1_000_000 <= r.delay_nanos < (ms + 1) * 1_000_000);
    if ms >= 1 {
        assert(scaled <= ms) by (nonlinear_arith)
            requires
                ms >= 1,
                scaled == (ms * 95 + 50) / 100,
        ;
        assert(scaled >= 1) by (nonlinear_arith)
            requires
                ms >= 1,
                scaled == (ms * 95 + 50) / 100,
        ;
        assert(scaled_millis_nanos(r.delay_nanos, 95) == scaled * 1_000_000);
        assert(scaled * 1_000_000 <= ms * 1_000_000) by (nonlinear_arith)
            requires
                scaled <= ms,
        ;
    } else {
        assert(scaled == 0);
        assert(scaled_millis_nanos(r.delay_nanos, 95) == 1_000_000);
    }
}

/// After an error the delay never exceeds the maximum, and (unless the delay lies between
/// one and two milliseconds, where rounding to whole milliseconds loses ground) it never
/// shrinks and never falls below the minimum.
pub proof fn error_keeps_delay_within_bounds(r: RateLimiter)
    requires
        r.within_bounds(),
    ensures
        error_delay(r) <= r.max_delay_nanos,
        r.delay_nanos < NANOS_PER_MILLI || r.delay_nanos >= 2 * NANOS_PER_MILLI ==> {
            &&& r.min_delay_nanos <= error_delay(r)
            &&& error_delay(r) == r.max_delay_nanos || error_delay(r) >= r.delay_nanos
        },
{
    let ms = (r.delay_nanos / 1_000_000) as int;
    let scaled = (ms * 125 + 50) / 100;
    assert(ms * 1_000_000 <= r.delay_nanos < (ms + 1) * 1_000_000);
    if ms >= 2 {
        assert(scaled >= ms + 1) by (nonlinear_arith)
            requires
                ms >= 2,
                scaled == (ms * 125 + 50) / 100,
        ;
        assert(scaled_millis_nanos(r.delay_nanos, 125) == scaled * 1_000_000);
        assert(scaled * 1_000_000 >= (ms + 1) * 1_000_000) by (nonlinear_arith)
            requires
                scaled >= ms + 1,
        ;
    } else if ms == 0 {
        assert(scaled == 0);
        assert(scaled_millis_nanos(r.delay_nanos, 125) == 1_000_000);
    }
}

/// A request is granted no earlier than it is asked for, and no earlier than the previous
/// grant plus the delay in force: two successive grants are at least that delay apart. It is
/// granted at the first moment that satisfies both.
pub proof fn grants_keep_requests_apart(r: RateLimiter, now_nanos: u64)
    ensures
        acquire_wait(r, now_nanos) >= 0,
        r.last_request_at_nanos matches Some(last) ==> {
            &&& now_nanos + acquire_wait(r, now_nanos) >= last + r.delay_nanos
            &&& acquire_wait(r, now_nanos) > 0 ==> now_nanos + acquire_wait(r, now_nanos) == last + r.delay_nanos
        },
        r.last_request_at_nanos is None ==> acquire_wait(r, now_nanos) == 0,
{
}

/// The overtake estimate is the first epoch at which the peer's stake, growing at its
/// velocity, reaches yours: one epoch earlier it is still short. Estimates beyond
/// `u32::MAX` epochs are reported as `u32::MAX`.
pub proof fn overtake_estimate_is_first_catching_epoch(your: u64, their: u64, velocity: i64)
    requires
        their < your,
        velocity > 0,
    ensures
        overtake_eta(your, their, velocity) matches Some(e) && {
            &&& e >= 1
            &&& their + (e - 1) * velocity < your
            &&& e < u32::MAX ==> their + e * velocity >= your
        },
{
    let gap = your - their;
    let v = velocity as int;
    let c = ceil_div(gap, v);
    assert(c * v >= gap && (c - 1) * v < gap && c >= 1) by (nonlinear_arith)
        requires
            gap > 0,
            v > 0,
            c == (gap + v - 1) / v,
    ;
    if c > u32::MAX {
        let m = u32::MAX as int;
        assert((m - 1) * v < gap) by (nonlinear_arith)
            requires
                v > 0,
                m < c,
                (c - 1) * v < gap,
        ;
    }
}

/// A sooner overtake is never classified as less severe, and a threat is critical exactly
/// when it overtakes within three epochs.
pub proof fn sooner_overtake_is_no_less_severe(velocity: i64, e1: u32, e2: u32, horizon: u32)
    requires
        e1 <= e2,
    ensures
        severity_rank_of(classify_spec(velocity, Some(e1), horizon)) <= severity_rank_of(classify_spec(velocity, Some(e2), horizon)),
        (classify_spec(velocity, Some(e1), horizon) == ThreatTier::Critical) <==> e1 <= 3,
{
}

/// How a threat report is ordered: by severity; within a severity, estimated overtakes
/// before the rest, sooner first; without an estimate, faster growth first.
pub open spec fn threat_precedes(p: ThreatProfile, q: ThreatProfile) -> bool {
    let rp = severity_rank_of(p.threat_tier);
    let rq = severity_rank_of(q.threat_tier);
    ||| rp < rq
    ||| rp == rq && match (p.epochs_to_overtake, q.epochs_to_overtake) {
        (Some(a), Some(b)) => a <= b,
        (Some(_), None) => true,
        (None, Some(_)) => false,
        (None, None) => p.velocity_lamports_per_epoch >= q.velocity_lamports_per_epoch,
    }
}

proof fn lemma_threat_order_parts(p: ThreatProfile)
    ensures
        ({
            let w = threat_order(p) - severity_rank_of(p.threat_tier) * 0x4_0000_0000_0000_0000_0000_0000;
            &&& 0 <= w < 0x4_0000_0000_0000_0000_0000_0000
            &&& match p.epochs_to_overtake {
                Some(e) => w == e * 0x2_0000_0000_0000_0000 && w < 0x2_0000_0000_0000_0000_0000_0000,
                None => w == 0x2_0000_0000_0000_0000_0000_0000 + (0x7FFF_FFFF_FFFF_FFFF - p.velocity_lamports_per_epoch),
            }
        }),
{
}

/// In a report ordered as the threat analysis orders it, every profile precedes the ones after it.
pub proof fn threat_report_is_ordered(s: Seq<ThreatProfile>)
    requires
        sorted_desc_by(s, |p: ThreatProfile| neg_threat_order(p)),
    ensures
        forall|i: int, j: int| 0 <= i < j < s.len() ==> threat_precedes(#[trigger] s[i], #[trigger] s[j]),
{
    assert forall|i: int, j: int| 0 <= i < j < s.len() implies threat_precedes(#[trigger] s[i], #[trigger] s[j]) by {
        let key = |p: ThreatProfile| neg_threat_order(p);
        assert(key(s[i]) >= key(s[j]));
        lemma_threat_order_parts(s[i]);
        lemma_threat_order_parts(s[j]);
    }
}

/// More stake never puts a validator in a smaller stake tier.
pub proof fn stake_tier_is_monotone(a: u64, b: u64)
    requires
        a <= b,
    ensures
        tier_index(b) <= tier_index(a),
{
}

/// The history window ends at the latest epoch and spans the lookback (at least one
/// epoch), cut short only at epoch 0.
pub proof fn history_window_spans_lookback(latest: u64, lookback_epochs: u32)
    ensures
        window_start_spec(latest, lookback_epochs) <= latest,
        latest + 1 >= lookback_epochs ==> latest - window_start_spec(latest, lookback_epochs) + 1 == if lookback_epochs == 0 { 1 } else { lookback_epochs as int },
        latest + 1 < lookback_epochs ==> window_start_spec(latest, lookback_epochs) == 0,
{
}

proof fn lemma_count_before_step(s: Seq<PoolScore>, c: int, d: int, m: int)
    requires
        0 <= c < s.len(),
        0 <= d < s.len(),
        0 <= m <= s.len(),
        sorts_before(s, c, d),
    ensures
        count_before(s, c, m) + (if c < m { 1int } else { 0 }) <= count_before(s, d, m),
    decreases m,
{
    if m > 0 {
        lemma_count_before_step(s, c, d, m - 1);
    }
}

proof fn lemma_count_before_bound(s: Seq<PoolScore>, c: int, m: int)
    requires
        0 <= c < s.len(),
        0 <= m <= s.len(),
    ensures
        count_before(s, c, m) + (if c < m { 1int } else { 0 }) <= m,
    decreases m,
{
    if m > 0 {
        lemma_count_before_bound(s, c, m - 1);
    }
}

/// Queue ranks run from 1 to the number of entries, and distinct entries get distinct ranks:
/// an entry ranked ahead of another has a smaller rank.
pub proof fn queue_ranks_are_positions(s: Seq<PoolScore>, c: int, d: int)
    requires
        0 <= c < s.len(),
        0 <= d < s.len(),
    ensures
        count_before(s, c, s.len() as int) + 1 <= s.len(),
        sorts_before(s, c, d) ==> count_before(s, c, s.len() as int) < count_before(s, d, s.len() as int),
        c != d ==> count_before(s, c, s.len() as int) != count_before(s, d, s.len() as int),
{
    lemma_count_before_bound(s, c, s.len() as int);
    if sorts_before(s, c, d) {
        lemma_count_before_step(s, c, d, s.len() as int);
    }
    if c != d && !sorts_before(s, c, d) {
        assert(sorts_before(s, d, c));
        lemma_count_before_step(s, d, c, s.len() as int);
    }
}

/// Two signals concern the same validator and the same kind of gaming.
pub open spec fn same_subject(a: SignalView, b: SignalView) -> bool {
    a.vote_pubkey == b.vote_pubkey && a.signal_type == b.signal_type
}

pub open spec fn all_confident(m: Seq<SignalView>, min: u64) -> bool {
    forall|i: int| 0 <= i < m.len() ==> (#[trigger] m[i]).confidence_ppm >= min
}

pub open spec fn one_per_subject(m: Seq<SignalView>) -> bool {
    forall|i: int, j: int| 0 <= i < j < m.len() ==> !same_subject(#[trigger] m[i], #[trigger] m[j])
}

pub open spec fn keeps_strongest(m: Seq<SignalView>, cands: Seq<SignalView>, min: u64) -> bool {
    forall|k: int| 0 <= k < cands.len() && (#[trigger] cands[k]).confidence_ppm >= min ==> exists|i: int|
        0 <= i < m.len() && #[trigger] same_subject(m[i], cands[k]) && m[i].confidence_ppm >= cands[k].confidence_ppm
}

pub open spec fn drawn_from(m: Seq<SignalView>, cands: Seq<SignalView>) -> bool {
    forall|i: int| 0 <= i < m.len() ==> cands.contains(#[trigger] m[i])
}

proof fn lemma_slot_search(acc: Seq<SignalView>, s: SignalView, i: int)
    requires
        0 <= i,
    ensures
        slot_search(acc, s, i) matches Some(j) ==> i <= j < acc.len() && same_subject(acc[j], s),
        slot_search(acc, s, i) is None ==> forall|j: int| i <= j < acc.len() ==> !same_subject(#[trigger] acc[j], s),
    decreases acc.len() - i,
{
    if i < acc.len() && !same_subject(acc[i], s) {
        lemma_slot_search(acc, s, i + 1);
    }
}

proof fn lemma_merge_step_confident(acc: Seq<SignalView>, s: SignalView, min: u64)
    requires
        all_confident(acc, min),
    ensures
        all_confident(merge_one(acc, s, min), min),
{
    let m = merge_one(acc, s, min);
    lemma_slot_search(acc, s, 0);
    assert forall|i: int| 0 <= i < m.len() implies (#[trigger] m[i]).confidence_ppm >= min by {
        if s.confidence_ppm >= min && i < acc.len() && m[i] != acc[i] {
            assert(m[i] == s);
        }
    }
}

proof fn lemma_merge_step_distinct(acc: Seq<SignalView>, s: SignalView, min: u64)
    requires
        one_per_subject(acc),
    ensures
        one_per_subject(merge_one(acc, s, min)),
{
    let m = merge_one(acc, s, min);
    lemma_slot_search(acc, s, 0);
    if s.confidence_ppm >= min {
        assert forall|i: int, j: int| 0 <= i < j < m.len() implies !same_subject(#[trigger] m[i], #[trigger] m[j]) by {
            match slot_search(acc, s, 0) {
                Some(x) => {
                    assert(same_subject(m[x], acc[x]));
                    if i != x && j != x {
                        assert(m[i] == acc[i] && m[j] == acc[j]);
                    } else if i == x {
                        assert(m[j] == acc[j]);
                        assert(!same_subject(acc[x], acc[j]));
                    } else {
                        assert(m[i] == acc[i]);
                        assert(!same_subject(acc[i], acc[x]));
                    }
                },
                None => {
                    if j == acc.len() {
                        assert(m[i] == acc[i]);
                        assert(!same_subject(acc[i], s));
                    } else {
                        assert(m[i] == acc[i] && m[j] == acc[j]);
                    }
                },
            }
        }
    }
}

proof fn lemma_merge_step_strongest(acc: Seq<SignalView>, prev: Seq<SignalView>, s: SignalView, min: u64)
    requires
        keeps_strongest(acc, prev, min),
        one_per_subject(acc),
    ensures
        keeps_strongest(merge_one(acc, s, min), prev.push(s), min),
{
    let m = merge_one(acc, s, min);
    let cands = prev.push(s);
    lemma_slot_search(acc, s, 0);
    assert forall|k: int| 0 <= k < cands.len() && (#[trigger] cands[k]).confidence_ppm >= min implies exists|i: int|
        0 <= i < m.len() && #[trigger] same_subject(m[i], cands[k]) && m[i].confidence_ppm >= cands[k].confidence_ppm by {
        if k == prev.len() {
            match slot_search(acc, s, 0) {
                Some(j) => {
                    assert(same_subject(m[j], cands[k]));
                },
                None => {
                    assert(m[acc.len() as int] == s);
                    assert(same_subject(m[acc.len() as int], cands[k]));
                },
            }
        } else {
            assert(cands[k] == prev[k]);
            let i = choose|i: int| 0 <= i < acc.len() && #[trigger] same_subject(acc[i], prev[k])
                && acc[i].confidence_ppm >= prev[k].confidence_ppm;
            if s.confidence_ppm >= min {
                match slot_search(acc, s, 0) {
                    Some(j) => {
                        assert(same_subject(m[i], cands[k]));
                    },
                    None => {
                        assert(m[i] == acc[i]);
                        assert(same_subject(m[i], cands[k]));
                    },
                }
            } else {
                assert(same_subject(m[i], cands[k]));
            }
        }
    }
}

proof fn lemma_merge_step_drawn(acc: Seq<SignalView>, prev: Seq<SignalView>, s: SignalView, min: u64)
    requires
        drawn_from(acc, prev),
    ensures
        drawn_from(merge_one(acc, s, min), prev.push(s)),
{
    let m = merge_one(acc, s, min);
    let cands = prev.push(s);
    lemma_slot_search(acc, s, 0);
    assert forall|i: int| 0 <= i < m.len() implies cands.contains(#[trigger] m[i]) by {
        if m[i] == s {
            assert(cands[prev.len() as int] == s);
        } else {
            assert(m[i] == acc[i]);
            assert(prev.contains(acc[i]));
            let k = choose|k: int| 0 <= k < prev.len() && prev[k] == acc[i];
            assert(cands[k] == m[i]);
        }
    }
}

/// Merging gaming candidates keeps no signal below the confidence threshold and one signal
/// per validator and kind; every candidate that passes the threshold is matched by a kept
/// signal for its validator and kind that is at least as confident; and every kept signal
/// is one of the candidates.
pub proof fn merged_signals_keep_the_strongest(cands: Seq<SignalView>, min: u64)
    ensures
        all_confident(merged(cands, min), min),
        one_per_subject(merged(cands, min)),
        keeps_strongest(merged(cands, min), cands, min),
        drawn_from(merged(cands, min), cands),
    decreases cands.len(),
{
    if cands.len() > 0 {
        let prev = cands.drop_last();
        let acc = merged(prev, min);
        let s = cands.last();
        merged_signals_keep_the_strongest(prev, min);
        assert(prev.push(s) =~= cands);
        lemma_merge_step_confident(acc, s, min);
        lemma_merge_step_distinct(acc, s, min);
        lemma_merge_step_strongest(acc, prev, s, min);
        lemma_merge_step_drawn(acc, prev, s, min);
    }
}

/// Summed member counts of cohort rows.
pub open spec fn rows_members(rows: Seq<(CohortId, u32, u128, u64)>) -> int
    decreases rows.len(),
{
    if rows.len() == 0 {
        0
    } else {
        rows_members(rows.drop_last()) + rows.last().1
    }
}

/// Summed total stake of cohort rows.
pub open spec fn rows_stake(rows: Seq<(CohortId, u32, u128, u64)>) -> int
    decreases rows.len(),
{
    if rows.len() == 0 {
        0
    } else {
        rows_stake(rows.drop_last()) + rows.last().2
    }
}

/// Summed stake of snapshots.
pub open spec fn snapshots_stake(s: Seq<ValidatorSnapshot>) -> int
    decreases s.len(),
{
    if s.len() == 0 {
        0
    } else {
        snapshots_stake(s.drop_last()) + s.last().activated_stake_lamports
    }
}

spec fn count_sum(s: Seq<ValidatorSnapshot>, by_tier: bool, m: int) -> int
    decreases m,
{
    if m <= 0 {
        0
    } else {
        count_sum(s, by_tier, m - 1) + bucket_count(s, by_tier, m - 1)
    }
}

spec fn stake_sum(s: Seq<ValidatorSnapshot>, by_tier: bool, m: int) -> int
    decreases m,
{
    if m <= 0 {
        0
    } else {
        stake_sum(s, by_tier, m - 1) + bucket_stake(s, by_tier, m - 1)
    }
}

proof fn lemma_sums_step(s: Seq<ValidatorSnapshot>, by_tier: bool, m: int)
    requires
        s.len() > 0,
        m >= 0,
    ensures
        count_sum(s, by_tier, m) == count_sum(s.drop_last(), by_tier, m) + if bucket_index(by_tier, s.last()) < m { 1int } else { 0 },
        stake_sum(s, by_tier, m) == stake_sum(s.drop_last(), by_tier, m) + if bucket_index(by_tier, s.last()) < m {
            s.last().activated_stake_lamports as int
        } else {
            0
        },
    decreases m,
{
    if m > 0 {
        lemma_sums_step(s, by_tier, m - 1);
    }
}

proof fn lemma_sums_total(s: Seq<ValidatorSnapshot>, by_tier: bool)
    ensures
        count_sum(s, by_tier, bucket_total(by_tier)) == s.len(),
        stake_sum(s, by_tier, bucket_total(by_tier)) == snapshots_stake(s),
    decreases s.len(),
{
    if s.len() == 0 {
        reveal_with_fuel(count_sum, 6);
        reveal_with_fuel(stake_sum, 6);
    } else {
        lemma_sums_total(s.drop_last(), by_tier);
        lemma_sums_step(s, by_tier, bucket_total(by_tier));
    }
}

proof fn lemma_bucket_bounds(s: Seq<ValidatorSnapshot>, by_tier: bool, b: int)
    ensures
        bucket_count(s, by_tier, b) <= s.len(),
        bucket_stake(s, by_tier, b) <= s.len() * 0xFFFF_FFFF_FFFF_FFFF,
    decreases s.len(),
{
    if s.len() > 0 {
        lemma_bucket_bounds(s.drop_last(), by_tier, b);
    }
}

proof fn lemma_rows_sums(s: Seq<ValidatorSnapshot>, by_tier: bool, m: int)
    requires
        s.len() <= u32::MAX,
    ensures
        rows_members(bucket_rows(s, by_tier, m)) == count_sum(s, by_tier, m),
        rows_stake(bucket_rows(s, by_tier, m)) == stake_sum(s, by_tier, m),
    decreases m,
{
    if m > 0 {
        lemma_rows_sums(s, by_tier, m - 1);
        lemma_bucket_bounds(s, by_tier, m - 1);
        let prev = bucket_rows(s, by_tier, m - 1);
        if bucket_count(s, by_tier, m - 1) > 0 {
            let rows = bucket_rows(s, by_tier, m);
            assert(rows.drop_last() =~= prev);
            assert(bucket_stake(s, by_tier, m - 1) < 0x1_0000_0000_0000_0000_0000_0000_0000_0000) by (nonlinear_arith)
                requires
                    bucket_stake(s, by_tier, m - 1) <= s.len() * 0xFFFF_FFFF_FFFF_FFFF,
                    s.len() <= 0xFFFF_FFFF,
            ;
        } else {
            assert(bucket_stake(s, by_tier, m - 1) == 0) by {
                lemma_empty_bucket_no_stake(s, by_tier, m - 1);
            }
        }
    }
}

proof fn lemma_empty_bucket_no_stake(s: Seq<ValidatorSnapshot>, by_tier: bool, b: int)
    requires
        bucket_count(s, by_tier, b) == 0,
    ensures
        bucket_stake(s, by_tier, b) == 0,
    decreases s.len(),
{
    if s.len() > 0 {
        lemma_empty_bucket_no_stake(s.drop_last(), by_tier, b);
    }
}

/// Cohorts partition the validators: each snapshot counts in exactly one cohort, so the
/// member counts add up to the number of snapshots and the cohorts' stakes to their total stake.
pub proof fn cohorts_partition_the_validators(s: Seq<ValidatorSnapshot>, by_tier: bool)
    requires
        s.len() <= u32::MAX,
    ensures
        rows_members(bucket_rows(s, by_tier, bucket_total(by_tier))) == s.len(),
        rows_stake(bucket_rows(s, by_tier, bucket_total(by_tier))) == snapshots_stake(s),
{
    lemma_sums_total(s, by_tier);
    lemma_rows_sums(s, by_tier, bucket_total(by_tier));
}

proof fn lemma_no_move_within_a_tier(from: Seq<ValidatorSnapshot>, to: Seq<ValidatorSnapshot>, a: int, m: int)
    ensures
        move_count(from, to, a, a, m) == 0,
    decreases m,
{
    if m > 0 {
        lemma_no_move_within_a_tier(from, to, a, m - 1);
    }
}

/// Stake flows only between two different stake tiers.
pub proof fn flows_connect_different_tiers(from: Seq<ValidatorSnapshot>, to: Seq<ValidatorSnapshot>, m: int)
    requires
        m <= 25,
    ensures
        forall|i: int| 0 <= i < flow_rows(from, to, m).len() ==> (#[trigger] flow_rows(from, to, m)[i]).0 != flow_rows(from, to, m)[i].1,
    decreases m,
{
    if m > 0 {
        flows_connect_different_tiers(from, to, m - 1);
        let p = m - 1;
        if move_count(from, to, p / 5, p % 5, from.len() as int) > 0 {
            if p / 5 == p % 5 {
                lemma_no_move_within_a_tier(from, to, p / 5, from.len() as int);
            }
            let rows = flow_rows(from, to, m);
            let prev = flow_rows(from, to, m - 1);
            let a = p / 5;
            let b = p % 5;
            assert(0 <= a < 5 && 0 <= b < 5 && a != b);
            assert(tier_at(a) != tier_at(b));
            assert(rows[prev.len() as int].0 == CohortId::StakeTier(tier_at(a)));
            assert(rows[prev.len() as int].1 == CohortId::StakeTier(tier_at(b)));
            assert forall|i: int| 0 <= i < rows.len() implies (#[trigger] rows[i]).0 != rows[i].1 by {
                if i < prev.len() {
                    assert(rows[i] == prev[i]);
                }
            }
        } else {
            assert(flow_rows(from, to, m) == flow_rows(from, to, m - 1));
        }
    }
}

/// With every rule disabled no alert is raised.
pub proof fn disabled_rules_raise_nothing(
    rules: AlertRulesConfig,
    ts: Seq<ThreatProfile>,
    os: Seq<DecayOpportunity>,
    qs: Seq<PoolQueuePosition>,
    gs: Seq<GamingSignal>,
)
    requires
        !rules.threat_critical,
        !rules.opportunity_easy,
        !rules.queue_drop,
        !rules.gaming_detected,
    ensures
        planned_alerts(rules, ts, os, qs, gs).len() == 0,
{
}

/// The alert names, by its position among the first `m`, a finding that its rule reports.
pub open spec fn justified_threat_alert(xs: Seq<ThreatProfile>, a: AlertPlanView, m: int) -> bool {
    &&& 0 <= a.source_index < m
    &&& xs[a.source_index].threat_tier == ThreatTier::Critical
    &&& a.category == AlertCategory::ThreatApproaching
    &&& a.related_validator == Some(xs[a.source_index].vote_pubkey@)
    &&& a.body == threat_alert_body_text(xs[a.source_index])
}

#[verifier::spinoff_prover]
proof fn lemma_threat_alerts_justified(xs: Seq<ThreatProfile>, m: int)
    requires
        0 <= m <= xs.len(),
    ensures
        forall|k: int| 0 <= k < threat_alerts(xs, m).len() ==> justified_threat_alert(xs, #[trigger] threat_alerts(xs, m)[k], m),
    decreases m,
{
    if m > 0 {
        lemma_threat_alerts_justified(xs, m - 1);
        let prev = threat_alerts(xs, m - 1);
        let cur = threat_alerts(xs, m);
        assert forall|k: int| 0 <= k < cur.len() implies justified_threat_alert(xs, #[trigger] cur[k], m) by {
            if k < prev.len() {
                assert(cur[k] == prev[k]);
                assert(justified_threat_alert(xs, prev[k], m - 1));
            }
        }
    }
}

#[verifier::spinoff_prover]
proof fn lemma_threat_alerts_cover(xs: Seq<ThreatProfile>, m: int)
    requires
        0 <= m <= xs.len(),
    ensures
        forall|i: int| 0 <= i < m && (#[trigger] xs[i]).threat_tier == ThreatTier::Critical ==> exists|k: int|
            0 <= k < threat_alerts(xs, m).len() && (#[trigger] threat_alerts(xs, m)[k]).source_index == i,
    decreases m,
{
    if m > 0 {
        lemma_threat_alerts_cover(xs, m - 1);
        let prev = threat_alerts(xs, m - 1);
        let cur = threat_alerts(xs, m);
        assert forall|i: int| 0 <= i < m && (#[trigger] xs[i]).threat_tier == ThreatTier::Critical implies exists|k: int|
            0 <= k < cur.len() && (#[trigger] cur[k]).source_index == i by {
            if i < m - 1 {
                let k = choose|k: int| 0 <= k < prev.len() && (#[trigger] prev[k]).source_index == i;
                assert(cur[k] == prev[k]);
            } else {
                assert(cur[prev.len() as int].source_index == i);
            }
        }
    }
}

/// Threat alerts are raised for exactly the critical threats: each names a critical threat
/// by its position and vote account and describes it, and each critical threat has one.
pub proof fn threat_alerts_follow_critical_threats(xs: Seq<ThreatProfile>)
    ensures
        forall|k: int| 0 <= k < threat_alerts(xs, xs.len() as int).len() ==> justified_threat_alert(xs, #[trigger] threat_alerts(xs, xs.len() as int)[k], xs.len() as int),
        forall|i: int| 0 <= i < xs.len() && (#[trigger] xs[i]).threat_tier == ThreatTier::Critical ==> exists|k: int|
            0 <= k < threat_alerts(xs, xs.len() as int).len() && (#[trigger] threat_alerts(xs, xs.len() as int)[k]).source_index == i,
{
    lemma_threat_alerts_justified(xs, xs.len() as int);
    lemma_threat_alerts_cover(xs, xs.len() as int);
}

/// The alert names, by its position among the first `m`, a finding that its rule reports.
pub open spec fn justified_opportunity_alert(xs: Seq<DecayOpportunity>, a: AlertPlanView, m: int) -> bool {
    &&& 0 <= a.source_index < m
    &&& xs[a.source_index].capture_difficulty == CaptureDifficulty::Easy
    &&& a.category == AlertCategory::OpportunityWindow
    &&& a.related_validator == Some(xs[a.source_index].vote_pubkey@)
    &&& a.body == opportunity_alert_body_text(xs[a.source_index])
}

#[verifier::spinoff_prover]
proof fn lemma_opportunity_alerts_justified(xs: Seq<DecayOpportunity>, m: int)
    requires
        0 <= m <= xs.len(),
    ensures
        forall|k: int| 0 <= k < opportunity_alerts(xs, m).len() ==> justified_opportunity_alert(xs, #[trigger] opportunity_alerts(xs, m)[k], m),
    decreases m,
{
    if m > 0 {
        lemma_opportunity_alerts_justified(xs, m - 1);
        let prev = opportunity_alerts(xs, m - 1);
        let cur = opportunity_alerts(xs, m);
        assert forall|k: int| 0 <= k < cur.len() implies justified_opportunity_alert(xs, #[trigger] cur[k], m) by {
            if k < prev.len() {
                assert(cur[k] == prev[k]);
                assert(justified_opportunity_alert(xs, prev[k], m - 1));
            }
        }
    }
}

#[verifier::spinoff_prover]
proof fn lemma_opportunity_alerts_cover(xs: Seq<DecayOpportunity>, m: int)
    requires
        0 <= m <= xs.len(),
    ensures
        forall|i: int| 0 <= i < m && (#[trigger] xs[i]).capture_difficulty == CaptureDifficulty::Easy ==> exists|k: int|
            0 <= k < opportunity_alerts(xs, m).len() && (#[trigger] opportunity_alerts(xs, m)[k]).source_index == i,
    decreases m,
{
    if m > 0 {
        lemma_opportunity_alerts_cover(xs, m - 1);
        let prev = opportunity_alerts(xs, m - 1);
        let cur = opportunity_alerts(xs, m);
        assert forall|i: int| 0 <= i < m && (#[trigger] xs[i]).capture_difficulty == CaptureDifficulty::Easy implies exists|k: int|
            0 <= k < cur.len() && (#[trigger] cur[k]).source_index == i by {
            if i < m - 1 {
                let k = choose|k: int| 0 <= k < prev.len() && (#[trigger] prev[k]).source_index == i;
                assert(cur[k] == prev[k]);
            } else {
                assert(cur[prev.len() as int].source_index == i);
            }
        }
    }
}

/// Opportunity alerts are raised for exactly the easy captures: each names an easy
/// opportunity by its position and vote account and describes it, and each easy
/// opportunity has one.
pub proof fn opportunity_alerts_follow_easy_captures(xs: Seq<DecayOpportunity>)
    ensures
        forall|k: int| 0 <= k < opportunity_alerts(xs, xs.len() as int).len() ==> justified_opportunity_alert(xs, #[trigger] opportunity_alerts(xs, xs.len() as int)[k], xs.len() as int),
        forall|i: int| 0 <= i < xs.len() && (#[trigger] xs[i]).capture_difficulty == CaptureDifficulty::Easy ==> exists|k: int|
            0 <= k < opportunity_alerts(xs, xs.len() as int).len() && (#[trigger] opportunity_alerts(xs, xs.len() as int)[k]).source_index == i,
{
    lemma_opportunity_alerts_justified(xs, xs.len() as int);
    lemma_opportunity_alerts_cover(xs, xs.len() as int);
}

/// The alert names, by its position among the first `m`, a finding that its rule reports.
pub open spec fn justified_queue_alert(xs: Seq<PoolQueuePosition>, a: AlertPlanView, m: int) -> bool {
    &&& 0 <= a.source_index < m
    &&& xs[a.source_index].direction == QueueDirection::Falling
    &&& a.category == AlertCategory::QueuePositionDrop
    &&& a.body == position_alert_body_text(xs[a.source_index])
}

#[verifier::spinoff_prover]
proof fn lemma_queue_alerts_justified(xs: Seq<PoolQueuePosition>, m: int)
    requires
        0 <= m <= xs.len(),
    ensures
        forall|k: int| 0 <= k < queue_alerts(xs, m).len() ==> justified_queue_alert(xs, #[trigger] queue_alerts(xs, m)[k], m),
    decreases m,
{
    if m > 0 {
        lemma_queue_alerts_justified(xs, m - 1);
        let prev = queue_alerts(xs, m - 1);
        let cur = queue_alerts(xs, m);
        assert forall|k: int| 0 <= k < cur.len() implies justified_queue_alert(xs, #[trigger] cur[k], m) by {
            if k < prev.len() {
                assert(cur[k] == prev[k]);
                assert(justified_queue_alert(xs, prev[k], m - 1));
            }
        }
    }
}

#[verifier::spinoff_prover]
proof fn lemma_queue_alerts_cover(xs: Seq<PoolQueuePosition>, m: int)
    requires
        0 <= m <= xs.len(),
    ensures
        forall|i: int| 0 <= i < m && (#[trigger] xs[i]).direction == QueueDirection::Falling ==> exists|k: int|
            0 <= k < queue_alerts(xs, m).len() && (#[trigger] queue_alerts(xs, m)[k]).source_index == i,
    decreases m,
{
    if m > 0 {
        lemma_queue_alerts_cover(xs, m - 1);
        let prev = queue_alerts(xs, m - 1);
        let cur = queue_alerts(xs, m);
        assert forall|i: int| 0 <= i < m && (#[trigger] xs[i]).direction == QueueDirection::Falling implies exists|k: int|
            0 <= k < cur.len() && (#[trigger] cur[k]).source_index == i by {
            if i < m - 1 {
                let k = choose|k: int| 0 <= k < prev.len() && (#[trigger] prev[k]).source_index == i;
                assert(cur[k] == prev[k]);
            } else {
                assert(cur[prev.len() as int].source_index == i);
            }
        }
    }
}

/// Queue alerts are raised for exactly the falling queue positions, each naming and
/// describing the position.
pub proof fn queue_alerts_follow_falling_positions(xs: Seq<PoolQueuePosition>)
    ensures
        forall|k: int| 0 <= k < queue_alerts(xs, xs.len() as int).len() ==> justified_queue_alert(xs, #[trigger] queue_alerts(xs, xs.len() as int)[k], xs.len() as int),
        forall|i: int| 0 <= i < xs.len() && (#[trigger] xs[i]).direction == QueueDirection::Falling ==> exists|k: int|
            0 <= k < queue_alerts(xs, xs.len() as int).len() && (#[trigger] queue_alerts(xs, xs.len() as int)[k]).source_index == i,
{
    lemma_queue_alerts_justified(xs, xs.len() as int);
    lemma_queue_alerts_cover(xs, xs.len() as int);
}

/// Every gaming signal raises exactly one alert, in order, naming its vote account and
/// describing the signal.
pub proof fn gaming_alerts_follow_signals(gs: Seq<GamingSignal>, m: int)
    requires
        0 <= m <= gs.len(),
    ensures
        gaming_alerts(gs, m).len() == m,
        forall|k: int| 0 <= k < m ==> {
            let a = #[trigger] gaming_alerts(gs, m)[k];
            &&& a.source_index == k
            &&& a.category == AlertCategory::GamingDetected
            &&& a.related_validator == Some(gs[k].vote_pubkey@)
            &&& a.body == gaming_alert_body_text(gs[k])
        },
    decreases m,
{
    if m > 0 {
        gaming_alerts_follow_signals(gs, m - 1);
        let prev = gaming_alerts(gs, m - 1);
        let cur = gaming_alerts(gs, m);
        assert forall|k: int| 0 <= k < m - 1 implies #[trigger] cur[k] == prev[k] by {}
    }
}

proof fn lemma_plain_word(s: Seq<char>)
    requires
        s.len() > 0,
        !is_white_space(s[0]),
        !is_white_space(s.last()),
        forall|i: int| 0 <= i < s.len() ==> #[trigger] ascii_lower(s[i]) == s[i],
    ensures
        ascii_lower_seq(trim_spec(s)) == s,
{
    assert(leading_ws(s) == 0);
    assert(trailing_ws(s) == 0);
    assert(trim_spec(s) =~= s);
    assert(ascii_lower_seq(s) =~= s);
}

/// Every pool's label parses back to that pool.
pub proof fn pool_label_parses_back(p: StakePoolId)
    ensures
        stake_pool_named(stake_pool_text(p)) == Some(p),
{
    reveal_strlit("marinade");
    reveal_strlit("jpool");
    reveal_strlit("blaze");
    reveal_strlit("blazestake");
    reveal_strlit("jito");
    reveal_strlit("sanctum");
    let s = stake_pool_text(p);
    lemma_plain_word(s);
}

proof fn lemma_lex_total(a: Seq<char>, b: Seq<char>)
    ensures
        lex_le(a, b) || lex_le(b, a),
    decreases a.len(),
{
    if a.len() > 0 && b.len() > 0 && (a[0] as u32) == (b[0] as u32) {
        lemma_lex_total(a.drop_first(), b.drop_first());
    }
}

proof fn lemma_lex_trans(a: Seq<char>, b: Seq<char>, c: Seq<char>)
    requires
        lex_le(a, b),
        lex_le(b, c),
    ensures
        lex_le(a, c),
    decreases a.len(),
{
    if a.len() > 0 && b.len() > 0 && c.len() > 0 && (a[0] as u32) == (b[0] as u32) && (b[0] as u32) == (c[0] as u32) {
        lemma_lex_trans(a.drop_first(), b.drop_first(), c.drop_first());
    }
}

proof fn lemma_insert_lex(s: Seq<Seq<char>>, x: Seq<char>)
    requires
        ascending(s),
    ensures
        ascending(insert_lex(s, x)),
        insert_lex(s, x).to_multiset() == s.to_multiset().insert(x),
        insert_lex(s, x).len() == s.len() + 1,
        forall|y: Seq<char>| #[trigger] insert_lex(s, x).contains(y) ==> y == x || s.contains(y),
    decreases s.len(),
{
    broadcast use vstd::seq_lib::group_to_multiset_ensures;
    if s.len() == 0 {
        assert(insert_lex(s, x) =~= seq![x]);
        assert(seq![x] =~= Seq::<Seq<char>>::empty().push(x));
    } else if lex_le(x, s[0]) {
        let r = seq![x] + s;
        assert forall|i: int, j: int| 0 <= i < j < r.len() implies lex_le(#[trigger] r[i], #[trigger] r[j]) by {
            if i == 0 {
                if j > 1 {
                    lemma_lex_trans(x, s[0], s[j - 1]);
                }
            } else {
                assert(r[i] == s[i - 1] && r[j] == s[j - 1]);
            }
        }
        assert(r =~= s.insert(0, x));
        vstd::seq_lib::lemma_seq_union_to_multiset_commutative(seq![x], s);
        assert(seq![x] =~= Seq::<Seq<char>>::empty().push(x));
        assert forall|y: Seq<char>| #[trigger] r.contains(y) implies y == x || s.contains(y) by {
            let k = choose|k: int| 0 <= k < r.len() && r[k] == y;
            if k > 0 {
                assert(s[k - 1] == y);
            }
        }
    } else {
        let t = s.drop_first();
        assert forall|i: int, j: int| 0 <= i < j < t.len() implies lex_le(#[trigger] t[i], #[trigger] t[j]) by {
            assert(t[i] == s[i + 1] && t[j] == s[j + 1]);
        }
        lemma_insert_lex(t, x);
        lemma_lex_total(x, s[0]);
        let u = insert_lex(t, x);
        let r = seq![s[0]] + u;
        assert forall|i: int, j: int| 0 <= i < j < r.len() implies lex_le(#[trigger] r[i], #[trigger] r[j]) by {
            if i == 0 {
                assert(r[j] == u[j - 1]);
                assert(u.contains(u[j - 1]));
                if u[j - 1] != x {
                    assert(t.contains(u[j - 1]));
                    let k = choose|k: int| 0 <= k < t.len() && t[k] == u[j - 1];
                    assert(s[k + 1] == u[j - 1]);
                }
            } else {
                assert(r[i] == u[i - 1] && r[j] == u[j - 1]);
            }
        }
        assert(s =~= seq![s[0]] + t);
        vstd::seq_lib::lemma_multiset_commutative(seq![s[0]], t);
        vstd::seq_lib::lemma_multiset_commutative(seq![s[0]], u);
        assert forall|y: Seq<char>| #[trigger] r.contains(y) implies y == x || s.contains(y) by {
            let k = choose|k: int| 0 <= k < r.len() && r[k] == y;
            if k == 0 {
                assert(s[0] == y);
            } else {
                assert(u[k - 1] == y);
                assert(u.contains(y));
                if y != x {
                    let m = choose|m: int| 0 <= m < t.len() && t[m] == y;
                    assert(s[m + 1] == y);
                }
            }
        }
    }
}

/// Names sorted for a report (cluster members, their peers) come out in ascending order,
/// each name as often as it went in.
pub proof fn sorted_names_are_ascending(s: Seq<Seq<char>>)
    ensures
        ascending(sort_lex(s)),
        sort_lex(s).to_multiset() == s.to_multiset(),
        sort_lex(s).len() == s.len(),
    decreases s.len(),
{
    broadcast use vstd::seq_lib::group_to_multiset_ensures;
    if s.len() > 0 {
        sorted_names_are_ascending(s.drop_last());
        lemma_insert_lex(sort_lex(s.drop_last()), s.last());
        assert(s =~= s.drop_last().push(s.last()));
    }
}

/// An abbreviated key is at most ten bytes long, so abbreviating it again leaves it as it is.
pub proof fn short_keys_stay_short(b: Seq<u8>)
    ensures
        short_key_bytes(b).len() <= 10,
        short_key_bytes(short_key_bytes(b)) == short_key_bytes(b),
{
}

} // verus!
