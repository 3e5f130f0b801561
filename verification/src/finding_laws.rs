//! What the detectors report, stated directly over the snapshots' fields: which peers the
//! threat report covers, what cause a decay opportunity is given, which credit swings and
//! stake growth raise gaming signals, and which tier moves make up the cohort flows.
use vstd::prelude::*;
use crate::analysis::threat::{threat_candidates, StakeTrend};
use crate::analysis::opportunity::{
    commission_rose_at, decay_opportunity_of, delinquent_at, high_skip_at, in_streak, probable_cause_of,
    trailing_losses,
};
use crate::analysis::adversarial::{
    credit_jump_at, credit_signal, credit_swing, inflation_signal, lemma_credit_swing_bounds, min_int, EvidenceView, FlowView,
};
use crate::analysis::cohort::{
    flow_row, flow_row_of, flow_rows, last_index_of, lemma_move_bounds, move_count, move_stake, tier_at, tier_index, tier_move,
};
use crate::analysis::ValidatorHistory;
use crate::models::{
    stake_tier_of, CaptureDifficulty, CohortFlow, CohortId, DecayCause, GamingType, StakeTierBucket, ThreatProfile,
    ValidatorSnapshot,
};
use crate::ordering::lemma_multiset_member;

verus! {

// ---------------------------------------------------------------------------------------
// Threats: every peer of your stake band is assessed.
// ---------------------------------------------------------------------------------------

/// Latest stake of a history.
pub open spec fn latest_stake_of(h: ValidatorHistory) -> int {
    h.snapshots@.last().activated_stake_lamports as int
}

/// History `i` is a peer of your stake band: not yours, at least three snapshots, and a
/// latest stake between half and one and a half times yours.
pub open spec fn band_peer(hs: Seq<ValidatorHistory>, i: int, your_key: Seq<char>, your_stake: u64) -> bool {
    &&& 0 <= i < hs.len()
    &&& hs[i].vote_pubkey@ != your_key
    &&& hs[i].snapshots.len() >= 3
    &&& 2 * latest_stake_of(hs[i]) >= your_stake
    &&& 2 * latest_stake_of(hs[i]) <= 3 * your_stake
}

/// The profile reports history `h`: its vote account and latest stake.
pub open spec fn reports_history(p: ThreatProfile, h: ValidatorHistory) -> bool {
    p.vote_pubkey@ == h.vote_pubkey@ && p.current_stake_lamports == latest_stake_of(h)
}

/// Some history of `hs` is a band peer that `p` reports.
pub open spec fn from_band_peer(hs: Seq<ValidatorHistory>, p: ThreatProfile, your_key: Seq<char>, your_stake: u64) -> bool {
    exists|i: int| #[trigger] band_peer(hs, i, your_key, your_stake) && reports_history(p, hs[i])
}

/// Some profile of `out` reports `h`.
pub open spec fn reported_in(out: Seq<ThreatProfile>, h: ValidatorHistory) -> bool {
    exists|k: int| 0 <= k < out.len() && reports_history(#[trigger] out[k], h)
}

proof fn lemma_threat_candidates_cover(
    hs: Seq<ValidatorHistory>,
    ts: Seq<StakeTrend>,
    n: int,
    your_key: Seq<char>,
    your_stake: u64,
    horizon: u32,
    i: int,
)
    requires
        0 <= i < n <= hs.len(),
        band_peer(hs, i, your_key, your_stake),
    ensures
        reported_in(threat_candidates(hs, ts, n, your_key, your_stake, horizon), hs[i]),
    decreases n,
{
    let c = threat_candidates(hs, ts, n, your_key, your_stake, horizon);
    let prev = threat_candidates(hs, ts, n - 1, your_key, your_stake, horizon);
    if i < n - 1 {
        lemma_threat_candidates_cover(hs, ts, n - 1, your_key, your_stake, horizon, i);
        let k = choose|k: int| 0 <= k < prev.len() && reports_history(#[trigger] prev[k], hs[i]);
        assert(c[k] == prev[k]);
        assert(reports_history(c[k], hs[i]));
    } else {
        assert(reports_history(c[prev.len() as int], hs[i]));
    }
}

proof fn lemma_threat_candidates_sound(
    hs: Seq<ValidatorHistory>,
    ts: Seq<StakeTrend>,
    n: int,
    your_key: Seq<char>,
    your_stake: u64,
    horizon: u32,
)
    requires
        n <= hs.len(),
    ensures
        forall|k: int| 0 <= k < threat_candidates(hs, ts, n, your_key, your_stake, horizon).len() ==> from_band_peer(
            hs,
            #[trigger] threat_candidates(hs, ts, n, your_key, your_stake, horizon)[k],
            your_key,
            your_stake,
        ),
    decreases n,
{
    if n > 0 {
        lemma_threat_candidates_sound(hs, ts, n - 1, your_key, your_stake, horizon);
        let c = threat_candidates(hs, ts, n, your_key, your_stake, horizon);
        let prev = threat_candidates(hs, ts, n - 1, your_key, your_stake, horizon);
        assert forall|k: int| 0 <= k < c.len() implies from_band_peer(hs, #[trigger] c[k], your_key, your_stake) by {
            if k < prev.len() {
                assert(c[k] == prev[k]);
                assert(from_band_peer(hs, prev[k], your_key, your_stake));
            } else {
                assert(reports_history(c[k], hs[n - 1]));
                assert(band_peer(hs, n - 1, your_key, your_stake));
            }
        }
    }
}

/// The threat report covers exactly the peers of your stake band: every history other than
/// yours with at least three snapshots whose latest stake lies between half and one and a
/// half times your stake is reported with that stake, and every reported profile is such a
/// peer. `out` is any report holding the analysis's profiles, as `analyze_threats` returns.
pub proof fn threat_report_covers_the_stake_band(
    hs: Seq<ValidatorHistory>,
    ts: Seq<StakeTrend>,
    your_key: Seq<char>,
    your_stake: u64,
    horizon: u32,
    out: Seq<ThreatProfile>,
)
    requires
        out.to_multiset() == threat_candidates(hs, ts, hs.len() as int, your_key, your_stake, horizon).to_multiset(),
    ensures
        forall|i: int| #[trigger] band_peer(hs, i, your_key, your_stake) ==> reported_in(out, hs[i]),
        forall|k: int| 0 <= k < out.len() ==> from_band_peer(hs, #[trigger] out[k], your_key, your_stake),
{
    let c = threat_candidates(hs, ts, hs.len() as int, your_key, your_stake, horizon);
    assert forall|i: int| #[trigger] band_peer(hs, i, your_key, your_stake) implies reported_in(out, hs[i]) by {
        lemma_threat_candidates_cover(hs, ts, hs.len() as int, your_key, your_stake, horizon, i);
        let k = choose|k: int| 0 <= k < c.len() && reports_history(#[trigger] c[k], hs[i]);
        lemma_multiset_member(c, out, k);
        let k2 = choose|k2: int| 0 <= k2 < out.len() && out[k2] == c[k];
        assert(reports_history(out[k2], hs[i]));
    }
    lemma_threat_candidates_sound(hs, ts, hs.len() as int, your_key, your_stake, horizon);
    assert forall|k: int| 0 <= k < out.len() implies from_band_peer(hs, #[trigger] out[k], your_key, your_stake) by {
        lemma_multiset_member(out, c, k);
        let k2 = choose|k2: int| 0 <= k2 < c.len() && c[k2] == out[k];
        assert(from_band_peer(hs, c[k2], your_key, your_stake));
    }
}

// ---------------------------------------------------------------------------------------
// Decay opportunities: the losing streak, its cause and the orphaned stake.
// ---------------------------------------------------------------------------------------

/// Every step into the last `k` epochs of `s` lost stake.
pub open spec fn losing_run(s: Seq<ValidatorSnapshot>, k: int) -> bool {
    forall|i: int| s.len() - k <= i < s.len() ==> #[trigger] s[i].activated_stake_lamports < s[i - 1].activated_stake_lamports
}

/// The losing run of the last `k` epochs cannot be extended: the epoch before it is the
/// first, or did not lose stake.
pub open spec fn run_starts_after_gain(s: Seq<ValidatorSnapshot>, k: int) -> bool {
    let j = s.len() - 1 - k;
    j == 0 || s[j].activated_stake_lamports >= s[j - 1].activated_stake_lamports
}

/// Some epoch among the last `k` of `s` was delinquent.
pub open spec fn run_has_delinquency(s: Seq<ValidatorSnapshot>, k: int) -> bool {
    exists|i: int| s.len() - k <= i < s.len() && (#[trigger] s[i]).delinquent
}

/// Some epoch among the last `k` of `s` raised its commission over the epoch before.
pub open spec fn run_has_commission_rise(s: Seq<ValidatorSnapshot>, k: int) -> bool {
    exists|i: int| s.len() - k <= i < s.len() && (#[trigger] s[i]).commission_pct > s[i - 1].commission_pct
}

/// Some epoch among the last `k` of `s` skipped more than 15% of its slots.
pub open spec fn run_has_high_skip(s: Seq<ValidatorSnapshot>, k: int) -> bool {
    exists|i: int| s.len() - k <= i < s.len() && (#[trigger] s[i]).skip_rate_ppm > 150_000
}

proof fn lemma_streak_shape(s: Seq<ValidatorSnapshot>)
    requires
        s.len() >= 1,
    ensures
        trailing_losses(s) < s.len(),
        losing_run(s, trailing_losses(s) as int),
        run_starts_after_gain(s, trailing_losses(s) as int),
    decreases s.len(),
{
    let k = trailing_losses(s);
    if s.len() >= 2 && s.last().activated_stake_lamports < s[s.len() - 2].activated_stake_lamports {
        let t = s.drop_last();
        lemma_streak_shape(t);
        let kt = trailing_losses(t);
        assert(k == kt + 1);
        assert forall|i: int| s.len() - k <= i < s.len() implies #[trigger] s[i].activated_stake_lamports < s[i - 1].activated_stake_lamports by {
            if i < s.len() - 1 {
                assert(t[i] == s[i] && t[i - 1] == s[i - 1]);
                assert(t[i].activated_stake_lamports < t[i - 1].activated_stake_lamports);
            }
        }
        let j = s.len() - 1 - k;
        assert(t[j] == s[j]);
        if j > 0 {
            assert(t[j - 1] == s[j - 1]);
        }
    }
}

/// The cause given to the last `k` epochs, read from their fields.
proof fn lemma_cause_of_run(s: Seq<ValidatorSnapshot>, k: nat)
    ensures
        run_has_delinquency(s, k as int) ==> probable_cause_of(s, k) == DecayCause::Delinquency,
        !run_has_delinquency(s, k as int) && run_has_commission_rise(s, k as int)
            ==> probable_cause_of(s, k) == DecayCause::CommissionIncrease,
        !run_has_delinquency(s, k as int) && !run_has_commission_rise(s, k as int) && run_has_high_skip(s, k as int)
            ==> probable_cause_of(s, k) == DecayCause::HighSkipRate,
        !run_has_delinquency(s, k as int) && !run_has_commission_rise(s, k as int) && !run_has_high_skip(s, k as int)
            ==> probable_cause_of(s, k) == DecayCause::Unknown,
{
    let kk = k as int;
    if run_has_delinquency(s, kk) {
        let i = choose|i: int| s.len() - kk <= i < s.len() && (#[trigger] s[i]).delinquent;
        assert(in_streak(s, k, i) && delinquent_at(s, i));
    } else {
        assert forall|i: int| in_streak(s, k, i) implies !#[trigger] delinquent_at(s, i) by {
            assert(!s[i].delinquent);
        }
        if run_has_commission_rise(s, kk) {
            let i = choose|i: int| s.len() - kk <= i < s.len() && (#[trigger] s[i]).commission_pct > s[i - 1].commission_pct;
            assert(in_streak(s, k, i) && commission_rose_at(s, i));
        } else {
            assert forall|i: int| in_streak(s, k, i) implies !#[trigger] commission_rose_at(s, i) by {
                assert(!(s[i].commission_pct > s[i - 1].commission_pct));
            }
            if run_has_high_skip(s, kk) {
                let i = choose|i: int| s.len() - kk <= i < s.len() && (#[trigger] s[i]).skip_rate_ppm > 150_000;
                assert(in_streak(s, k, i) && high_skip_at(s, i));
            } else {
                assert forall|i: int| in_streak(s, k, i) implies !#[trigger] high_skip_at(s, i) by {
                    assert(!(s[i].skip_rate_ppm > 150_000));
                }
            }
        }
    }
}

/// A decay opportunity reports the latest losing streak: at least four snapshots, a run of
/// at least three losing epochs that cannot be extended back, the stake lost over it (at least
/// `min_lost`), and a cause read from the run's epochs: delinquency if any epoch of the run
/// was delinquent; otherwise a commission increase if any epoch raised its commission;
/// otherwise a high skip rate if any epoch skipped more than 15% of its slots; otherwise
/// unknown. 85% of the loss is counted orphaned for delinquency and commission increases, 75%
/// for a high skip rate and 65% otherwise; the capture difficulty follows the latest
/// commission (easy up to 5%, medium up to 10%). A history with no opportunity has fewer than
/// four snapshots, fewer than three trailing losses, or lost less than `min_lost` over them.
pub proof fn decay_opportunity_reports_the_losing_streak(h: ValidatorHistory, min_lost: u64)
    requires
        h.snapshots.len() <= u32::MAX,
    ensures
        decay_opportunity_of(h, min_lost) matches Some(o) ==> {
            let s = h.snapshots@;
            let n = s.len() as int;
            let k = o.loss_duration_epochs as int;
            let lost = o.stake_lost_lamports as int;
            &&& n >= 4
            &&& 3 <= k < n
            &&& losing_run(s, k)
            &&& run_starts_after_gain(s, k)
            &&& lost == s[n - 1 - k].activated_stake_lamports - s[n - 1].activated_stake_lamports
            &&& lost >= min_lost
            &&& o.vote_pubkey == h.vote_pubkey
            &&& run_has_delinquency(s, k) ==> o.probable_cause == DecayCause::Delinquency
                && o.estimated_orphan_stake_lamports == lost * 85 / 100
            &&& !run_has_delinquency(s, k) && run_has_commission_rise(s, k)
                ==> o.probable_cause == DecayCause::CommissionIncrease
                && o.estimated_orphan_stake_lamports == lost * 85 / 100
            &&& !run_has_delinquency(s, k) && !run_has_commission_rise(s, k) && run_has_high_skip(s, k)
                ==> o.probable_cause == DecayCause::HighSkipRate
                && o.estimated_orphan_stake_lamports == lost * 75 / 100
            &&& !run_has_delinquency(s, k) && !run_has_commission_rise(s, k) && !run_has_high_skip(s, k)
                ==> o.probable_cause == DecayCause::Unknown
                && o.estimated_orphan_stake_lamports == lost * 65 / 100
            &&& s[n - 1].commission_pct <= 5 ==> o.capture_difficulty == CaptureDifficulty::Easy
            &&& 5 < s[n - 1].commission_pct <= 10 ==> o.capture_difficulty == CaptureDifficulty::Medium
            &&& s[n - 1].commission_pct > 10 ==> o.capture_difficulty == CaptureDifficulty::Hard
        },
        decay_opportunity_of(h, min_lost) is None ==> {
            let s = h.snapshots@;
            let n = s.len() as int;
            forall|k: int| 3 <= k < n && n >= 4 && #[trigger] losing_run(s, k) && run_starts_after_gain(s, k)
                ==> s[n - 1 - k].activated_stake_lamports - s[n - 1].activated_stake_lamports < min_lost
        },
{
    let s = h.snapshots@;
    let n = s.len() as int;
    if n >= 1 {
        lemma_streak_shape(s);
    }
    let t = trailing_losses(s);
    // Any unextendable losing run at the end is the trailing streak.
    assert forall|k: int| 0 <= k < n && #[trigger] losing_run(s, k) && run_starts_after_gain(s, k) implies k == t by {
        if k < t {
            let i = n - 1 - k;
            assert(s[i].activated_stake_lamports < s[i - 1].activated_stake_lamports);
        } else if k > t {
            let i = n - 1 - t;
            assert(s[i].activated_stake_lamports < s[i - 1].activated_stake_lamports);
        }
    }
    match decay_opportunity_of(h, min_lost) {
        Some(o) => {
            let k = t as int;
            assert(o.loss_duration_epochs == k);
            lemma_cause_of_run(s, t);
        },
        None => {},
    }
}

// ---------------------------------------------------------------------------------------
// Vote-credit manipulation: the largest relative swing, in either direction.
// ---------------------------------------------------------------------------------------

/// Size of the change in earned vote credits into epoch `i`, up or down.
pub open spec fn credit_change(h: Seq<ValidatorSnapshot>, i: int) -> int {
    let a = h[i - 1].vote_credits_epoch as int;
    let b = h[i].vote_credits_epoch as int;
    if b >= a { b - a } else { a - b }
}

/// Step `i` (into epoch `i`, from an epoch that earned credits) changed credits by more
/// than 55% of the earlier epoch's credits.
pub open spec fn large_credit_step(h: Seq<ValidatorSnapshot>, i: int) -> bool {
    &&& 1 <= i < h.len()
    &&& h[i - 1].vote_credits_epoch > 0
    &&& 100 * credit_change(h, i) > 55 * h[i - 1].vote_credits_epoch
}

proof fn lemma_credit_swing_is_largest(h: Seq<ValidatorSnapshot>, m: int)
    requires
        m <= h.len(),
    ensures
        credit_swing(h, m).1 >= 1,
        credit_swing(h, m) == (0nat, 1nat) || exists|i: int| 1 <= i < m && h[i - 1].vote_credits_epoch > 0
            && credit_swing(h, m).0 == #[trigger] credit_change(h, i) && credit_swing(h, m).1 == h[i - 1].vote_credits_epoch,
        forall|i: int| 1 <= i < m && h[i - 1].vote_credits_epoch > 0 ==> #[trigger] credit_change(h, i) * credit_swing(h, m).1
            <= credit_swing(h, m).0 * h[i - 1].vote_credits_epoch,
    decreases m,
{
    if m > 1 {
        lemma_credit_swing_is_largest(h, m - 1);
        let prev = credit_swing(h, m - 1);
        let cur = credit_swing(h, m);
        let c = h[m - 2].vote_credits_epoch as int;
        if c > 0 {
            let d = credit_change(h, m - 1);
            assert(credit_jump_at(h, m - 1) == Some((d as nat, c as nat)));
            if d * prev.1 > prev.0 * c {
                assert(cur == (d as nat, c as nat));
                assert forall|i: int| 1 <= i < m && h[i - 1].vote_credits_epoch > 0 implies #[trigger] credit_change(h, i) * cur.1
                    <= cur.0 * h[i - 1].vote_credits_epoch by {
                    if i < m - 1 {
                        let x0 = credit_change(h, i);
                        let x1 = h[i - 1].vote_credits_epoch as int;
                        assert(x0 * c <= d * x1) by (nonlinear_arith)
                            requires
                                x0 * prev.1 <= prev.0 * x1,
                                d * prev.1 > prev.0 * c,
                                prev.1 >= 1,
                                x1 > 0,
                                c > 0,
                                x0 >= 0,
                        ;
                    }
                }
            } else {
                assert(cur == prev);
            }
        } else {
            assert(credit_jump_at(h, m - 1) is None);
            assert(cur == prev);
        }
    }
}

/// A vote-credit manipulation signal is raised exactly when some step from an epoch that
/// earned credits changed them, up or down, by more than 55%. Its evidence is the largest
/// such relative change, as the change over the earlier epoch's credits, and its confidence
/// is 0.66 plus 0.2 times that change, the change counted at most as 1.
pub proof fn credit_signal_flags_the_largest_swing(key: Seq<char>, h: Seq<ValidatorSnapshot>, epoch: u64)
    ensures
        credit_signal(key, h, epoch) is Some <==> exists|i: int| #[trigger] large_credit_step(h, i),
        credit_signal(key, h, epoch) matches Some(g) ==> {
            &&& g.vote_pubkey == key
            &&& g.signal_type == GamingType::VoteCreditManipulation
            &&& g.evidence matches EvidenceView::CreditSwing { jump_numerator: a, jump_denominator: b } && {
                &&& exists|i: int| 1 <= i < h.len() && h[i - 1].vote_credits_epoch > 0
                    && a == #[trigger] credit_change(h, i) && b == h[i - 1].vote_credits_epoch
                &&& forall|i: int| 1 <= i < h.len() && h[i - 1].vote_credits_epoch > 0
                    ==> #[trigger] credit_change(h, i) * b <= a * h[i - 1].vote_credits_epoch
                &&& g.confidence_ppm == 660_000 + (if (a * 200_000) as int / (b as int) < 200_000 {
                    (a * 200_000) as int / (b as int)
                } else {
                    200_000
                })
            }
        },
{
    lemma_credit_swing_is_largest(h, h.len() as int);
    lemma_credit_swing_bounds(h, h.len() as int);
    let (a, b) = credit_swing(h, h.len() as int);
    if exists|i: int| #[trigger] large_credit_step(h, i) {
        let i = choose|i: int| #[trigger] large_credit_step(h, i);
        let d = credit_change(h, i);
        let c = h[i - 1].vote_credits_epoch as int;
        assert(d * b <= a * c);
        assert(100 * a > 55 * b) by (nonlinear_arith)
            requires
                d * b <= a * c,
                100 * d > 55 * c,
                c > 0,
                b >= 1,
        ;
    }
    if 100 * a > 55 * b {
        assert((a, b) != (0nat, 1nat));
        let i = choose|i: int| 1 <= i < h.len() && h[i - 1].vote_credits_epoch > 0
            && a == #[trigger] credit_change(h, i) && b == h[i - 1].vote_credits_epoch;
        assert(large_credit_step(h, i));
    }
}

// ---------------------------------------------------------------------------------------
// Self-stake inflation: identity-linked stake and growth over the latest four snapshots.
// ---------------------------------------------------------------------------------------

/// Stake of the snapshot four from the end (the first, with fewer than four snapshots).
pub open spec fn window_start_stake(h: Seq<ValidatorSnapshot>) -> int {
    if h.len() >= 4 {
        h[h.len() - 4].activated_stake_lamports as int
    } else {
        h[0].activated_stake_lamports as int
    }
}

/// Confidence of a self-stake inflation finding: 0.45, plus 0.35 times the identity's share
/// of the delegated stake, plus 0.30 times the growth over the baseline (counted at most as
/// 1, and as 0 without a baseline), at most 0.98; in parts per million, each part rounded down.
pub open spec fn inflation_confidence(linked: int, total: int, growth: int, baseline: int) -> int {
    let share_part = linked * 350_000 / total;
    let growth_part = if baseline > 0 {
        if growth * 300_000 / baseline < 300_000 { growth * 300_000 / baseline } else { 300_000 }
    } else {
        0
    };
    if 450_000 + share_part + growth_part < 980_000 { 450_000 + share_part + growth_part } else { 980_000 }
}

/// A self-stake inflation signal is raised exactly when the history is not empty, at least
/// 500 SOL of the delegated stake is controlled by the validator's identity, that is more
/// than 30% of it, and the latest stake exceeds the stake four snapshots from the end (the
/// first, with fewer snapshots); its evidence gives that start of the window as the baseline
/// and the growth from it, and its confidence is `inflation_confidence` of them (at most
/// 0.98). (Identity-linked stake is
/// part of the delegated stake.)
pub proof fn inflation_signal_measures_the_latest_window(key: Seq<char>, h: Seq<ValidatorSnapshot>, f: FlowView, epoch: u64)
    requires
        f.linked_lamports <= f.total_lamports,
    ensures
        inflation_signal(key, h, f, epoch) is Some <==> {
            &&& h.len() >= 1
            &&& h[h.len() - 1].activated_stake_lamports > window_start_stake(h)
            &&& f.linked_lamports >= 500_000_000_000
            &&& f.linked_lamports * 100 > f.total_lamports * 30
        },
        inflation_signal(key, h, f, epoch) matches Some(g) ==> {
            &&& g.vote_pubkey == key
            &&& g.signal_type == GamingType::SelfStakeInflation
            &&& g.confidence_ppm <= 980_000
            &&& g.confidence_ppm == inflation_confidence(
                f.linked_lamports as int,
                f.total_lamports as int,
                h[h.len() - 1].activated_stake_lamports - window_start_stake(h),
                window_start_stake(h),
            )
            &&& g.evidence matches EvidenceView::IdentityLinked { growth_lamports: growth, baseline_lamports: base, .. }
                && base == window_start_stake(h)
                && growth == h[h.len() - 1].activated_stake_lamports - window_start_stake(h)
        },
{
    if h.len() >= 1 {
        let n = h.len() as int;
        assert(n - min_int(4, n) == (if n >= 4 { n - 4 } else { 0 }));
        if f.linked_lamports >= 500_000_000_000 {
            let share = f.linked_lamports * 350_000 / f.total_lamports;
            assert(0 <= share) by (nonlinear_arith)
                requires
                    share == f.linked_lamports * 350_000 / f.total_lamports,
                    f.total_lamports > 0,
            ;
        }
    }
}

// ---------------------------------------------------------------------------------------
// Cohort flows: every change of stake tier, up or down, makes up its pair's flow.
// ---------------------------------------------------------------------------------------

/// `s[i]` is the last snapshot of its vote account in `s`.
pub open spec fn last_entry(s: Seq<ValidatorSnapshot>, i: int) -> bool {
    &&& 0 <= i < s.len()
    &&& forall|t: int| i < t < s.len() ==> (#[trigger] s[t]).vote_pubkey@ != s[i].vote_pubkey@
}

/// The vote account of `from[i]` is found as `to[j]` in the later epoch, each the last entry
/// of that account, and its stake tier differs between the two.
pub open spec fn tier_mover(from: Seq<ValidatorSnapshot>, to: Seq<ValidatorSnapshot>, i: int, j: int) -> bool {
    &&& last_entry(from, i)
    &&& last_entry(to, j)
    &&& to[j].vote_pubkey@ == from[i].vote_pubkey@
    &&& stake_tier_of(from[i].activated_stake_lamports) != stake_tier_of(to[j].activated_stake_lamports)
}

/// The mover `(i, j)` goes from tier `x` to tier `y`.
pub open spec fn moves_between(
    from: Seq<ValidatorSnapshot>,
    to: Seq<ValidatorSnapshot>,
    i: int,
    j: int,
    x: StakeTierBucket,
    y: StakeTierBucket,
) -> bool {
    &&& tier_mover(from, to, i, j)
    &&& stake_tier_of(from[i].activated_stake_lamports) == x
    &&& stake_tier_of(to[j].activated_stake_lamports) == y
}

/// Mean of the mover's stake in the two epochs, rounded down.
pub open spec fn mover_mean(from: Seq<ValidatorSnapshot>, to: Seq<ValidatorSnapshot>, i: int, j: int) -> int {
    (from[i].activated_stake_lamports + to[j].activated_stake_lamports) / 2
}

/// `f` is the flow of the mover's pair of tiers: at least its mean, and exactly its mean when
/// it is the only validator that moved between those tiers.
pub open spec fn flow_of_mover(f: CohortFlow, from: Seq<ValidatorSnapshot>, to: Seq<ValidatorSnapshot>, i: int, j: int) -> bool {
    let x = stake_tier_of(from[i].activated_stake_lamports);
    let y = stake_tier_of(to[j].activated_stake_lamports);
    &&& f.from_cohort == CohortId::StakeTier(x)
    &&& f.to_cohort == CohortId::StakeTier(y)
    &&& f.flow_lamports >= mover_mean(from, to, i, j)
    &&& (forall|i2: int, j2: int| #[trigger] moves_between(from, to, i2, j2, x, y) ==> i2 == i)
        ==> f.flow_lamports == mover_mean(from, to, i, j)
}

/// Some flow of `out` is the flow of mover `(i, j)`.
pub open spec fn mover_reported(out: Seq<CohortFlow>, from: Seq<ValidatorSnapshot>, to: Seq<ValidatorSnapshot>, i: int, j: int) -> bool {
    exists|k: int| 0 <= k < out.len() && flow_of_mover(#[trigger] out[k], from, to, i, j)
}

/// Some validator moved between the tiers of flow `f`.
pub open spec fn flow_has_mover(f: CohortFlow, from: Seq<ValidatorSnapshot>, to: Seq<ValidatorSnapshot>) -> bool {
    exists|i: int, j: int| #[trigger] tier_mover(from, to, i, j)
        && f.from_cohort == CohortId::StakeTier(stake_tier_of(from[i].activated_stake_lamports))
        && f.to_cohort == CohortId::StakeTier(stake_tier_of(to[j].activated_stake_lamports))
}

proof fn lemma_last_index_of(s: Seq<ValidatorSnapshot>, key: Seq<char>, m: int)
    requires
        0 <= m <= s.len(),
    ensures
        last_index_of(s, key, m) matches Some(j) ==> 0 <= j < m && s[j].vote_pubkey@ == key
            && forall|t: int| j < t < m ==> (#[trigger] s[t]).vote_pubkey@ != key,
        last_index_of(s, key, m) is None ==> forall|t: int| 0 <= t < m ==> (#[trigger] s[t]).vote_pubkey@ != key,
    decreases m,
{
    if m > 0 {
        lemma_last_index_of(s, key, m - 1);
    }
}

proof fn lemma_tier_index(x: u64, y: u64)
    ensures
        0 <= tier_index(x) < 5,
        tier_at(tier_index(x)) == stake_tier_of(x),
        (tier_index(x) == tier_index(y)) == (stake_tier_of(x) == stake_tier_of(y)),
{
}

/// A mover's tier move, from the raw description of a mover.
proof fn lemma_tier_move_of_mover(from: Seq<ValidatorSnapshot>, to: Seq<ValidatorSnapshot>, i: int, j: int)
    requires
        tier_mover(from, to, i, j),
    ensures
        tier_move(from, to, i) == Some((
            tier_index(from[i].activated_stake_lamports),
            tier_index(to[j].activated_stake_lamports),
            (from[i].activated_stake_lamports + to[j].activated_stake_lamports) as nat,
        )),
{
    lemma_last_index_of(to, from[i].vote_pubkey@, to.len() as int);
    let key = from[i].vote_pubkey@;
    match last_index_of(to, key, to.len() as int) {
        Some(j2) => {
            if j2 < j {
                assert(to[j].vote_pubkey@ != key);
            } else if j2 > j {
                assert(to[j2].vote_pubkey@ != to[j].vote_pubkey@);
            }
        },
        None => {
            assert(to[j].vote_pubkey@ != key);
        },
    }
    lemma_tier_index(from[i].activated_stake_lamports, to[j].activated_stake_lamports);
}

/// A tier move names a mover.
proof fn lemma_mover_of_tier_move(from: Seq<ValidatorSnapshot>, to: Seq<ValidatorSnapshot>, i: int)
    requires
        0 <= i < from.len(),
        tier_move(from, to, i) is Some,
    ensures
        exists|j: int| #[trigger] tier_mover(from, to, i, j) && tier_move(from, to, i) == Some((
            tier_index(from[i].activated_stake_lamports),
            tier_index(to[j].activated_stake_lamports),
            (from[i].activated_stake_lamports + to[j].activated_stake_lamports) as nat,
        )),
{
    let key = from[i].vote_pubkey@;
    lemma_last_index_of(to, key, to.len() as int);
    let j = last_index_of(to, key, to.len() as int)->Some_0;
    lemma_tier_index(from[i].activated_stake_lamports, to[j].activated_stake_lamports);
    assert(tier_mover(from, to, i, j));
}

/// Snapshot `x` of `from` moves from tier `a` to tier `b`.
pub open spec fn is_move(from: Seq<ValidatorSnapshot>, to: Seq<ValidatorSnapshot>, x: int, a: int, b: int) -> bool {
    tier_move(from, to, x) matches Some(t) && t.0 == a && t.1 == b
}

proof fn lemma_move_count_positive(from: Seq<ValidatorSnapshot>, to: Seq<ValidatorSnapshot>, a: int, b: int, m: int)
    ensures
        move_count(from, to, a, b, m) > 0 <==> exists|x: int| 0 <= x < m && #[trigger] is_move(from, to, x, a, b),
    decreases m,
{
    if m > 0 {
        lemma_move_count_positive(from, to, a, b, m - 1);
        if is_move(from, to, m - 1, a, b) {
            assert(move_count(from, to, a, b, m) > 0);
        } else {
            assert(move_count(from, to, a, b, m) == move_count(from, to, a, b, m - 1));
            if exists|x: int| 0 <= x < m && #[trigger] is_move(from, to, x, a, b) {
                let x = choose|x: int| 0 <= x < m && #[trigger] is_move(from, to, x, a, b);
                assert(x < m - 1);
            }
        }
    }
}

proof fn lemma_move_stake_at_least(from: Seq<ValidatorSnapshot>, to: Seq<ValidatorSnapshot>, a: int, b: int, m: int, i: int)
    requires
        0 <= i < m,
        is_move(from, to, i, a, b),
    ensures
        move_stake(from, to, a, b, m) >= tier_move(from, to, i)->Some_0.2,
        (forall|x: int| 0 <= x < m && #[trigger] is_move(from, to, x, a, b) ==> x == i)
            ==> move_stake(from, to, a, b, m) == tier_move(from, to, i)->Some_0.2,
    decreases m,
{
    if i < m - 1 {
        lemma_move_stake_at_least(from, to, a, b, m - 1, i);
        if forall|x: int| 0 <= x < m && #[trigger] is_move(from, to, x, a, b) ==> x == i {
            assert(!is_move(from, to, m - 1, a, b));
            assert forall|x: int| 0 <= x < m - 1 && #[trigger] is_move(from, to, x, a, b) implies x == i by {}
        }
    } else {
        lemma_move_stake_none_before(from, to, a, b, m - 1);
    }
}

proof fn lemma_move_stake_none_before(from: Seq<ValidatorSnapshot>, to: Seq<ValidatorSnapshot>, a: int, b: int, m: int)
    ensures
        (forall|x: int| 0 <= x < m ==> !#[trigger] is_move(from, to, x, a, b)) ==> move_stake(from, to, a, b, m) == 0,
    decreases m,
{
    if m > 0 {
        lemma_move_stake_none_before(from, to, a, b, m - 1);
        if forall|x: int| 0 <= x < m ==> !#[trigger] is_move(from, to, x, a, b) {
            assert(!is_move(from, to, m - 1, a, b));
            assert forall|x: int| 0 <= x < m - 1 implies !#[trigger] is_move(from, to, x, a, b) by {}
        }
    }
}

proof fn lemma_flow_rows_members(from: Seq<ValidatorSnapshot>, to: Seq<ValidatorSnapshot>, m: int)
    requires
        0 <= m <= 25,
    ensures
        forall|p: int| 0 <= p < m && move_count(from, to, p / 5, p % 5, from.len() as int) > 0
            ==> flow_rows(from, to, m).contains(#[trigger] flow_row_of(from, to, p)),
        forall|k: int| 0 <= k < flow_rows(from, to, m).len() ==> exists|p: int| 0 <= p < m
            && move_count(from, to, p / 5, p % 5, from.len() as int) > 0
            && #[trigger] flow_rows(from, to, m)[k] == flow_row_of(from, to, p),
    decreases m,
{
    if m > 0 {
        lemma_flow_rows_members(from, to, m - 1);
        let prev = flow_rows(from, to, m - 1);
        let cur = flow_rows(from, to, m);
        assert forall|p: int| 0 <= p < m && move_count(from, to, p / 5, p % 5, from.len() as int) > 0
            implies cur.contains(#[trigger] flow_row_of(from, to, p)) by {
            if p < m - 1 {
                let k = choose|k: int| 0 <= k < prev.len() && prev[k] == flow_row_of(from, to, p);
                assert(cur[k] == prev[k]);
            } else {
                assert(cur[prev.len() as int] == flow_row_of(from, to, p));
            }
        }
        assert forall|k: int| 0 <= k < cur.len() implies exists|p: int| 0 <= p < m
            && move_count(from, to, p / 5, p % 5, from.len() as int) > 0
            && #[trigger] cur[k] == flow_row_of(from, to, p) by {
            if k < prev.len() {
                assert(cur[k] == prev[k]);
                let p = choose|p: int| 0 <= p < m - 1 && move_count(from, to, p / 5, p % 5, from.len() as int) > 0
                    && #[trigger] prev[k] == flow_row_of(from, to, p);
                assert(cur[k] == flow_row_of(from, to, p));
            } else {
                assert(cur[k] == flow_row_of(from, to, m - 1));
            }
        }
    }
}

/// Cohort flows follow the tier moves: for every validator whose last snapshots in the two
/// epochs lie in different stake tiers, in either direction, a flow for that pair of tiers is
/// reported, worth at least the mean of its two stakes and exactly that mean when it is the
/// only validator moving between those tiers; and every flow is between the tiers of some
/// such move. `out` is any list of flows holding the computed rows, as
/// `compute_cohort_flows` returns.
pub proof fn cohort_flows_follow_tier_moves(from: Seq<ValidatorSnapshot>, to: Seq<ValidatorSnapshot>, out: Seq<CohortFlow>)
    requires
        from.len() <= isize::MAX,
        out.map_values(|f: CohortFlow| flow_row(f)).to_multiset() == flow_rows(from, to, 25).to_multiset(),
    ensures
        forall|i: int, j: int| #[trigger] tier_mover(from, to, i, j) ==> mover_reported(out, from, to, i, j),
        forall|k: int| 0 <= k < out.len() ==> flow_has_mover(#[trigger] out[k], from, to),
{
    let rows = flow_rows(from, to, 25);
    let mapped = out.map_values(|f: CohortFlow| flow_row(f));
    let n = from.len() as int;
    lemma_flow_rows_members(from, to, 25);
    assert forall|i: int, j: int| #[trigger] tier_mover(from, to, i, j) implies mover_reported(out, from, to, i, j) by {
        let fi = from[i].activated_stake_lamports;
        let tj = to[j].activated_stake_lamports;
        lemma_tier_move_of_mover(from, to, i, j);
        lemma_tier_index(fi, tj);
        let a = tier_index(fi);
        let b = tier_index(tj);
        let p = a * 5 + b;
        assert(p / 5 == a && p % 5 == b);
        assert(is_move(from, to, i, a, b));
        lemma_move_count_positive(from, to, a, b, n);
        lemma_move_stake_at_least(from, to, a, b, n, i);
        lemma_move_bounds(from, to, a, b, n);
        assert(rows.contains(flow_row_of(from, to, p)));
        let r = flow_row_of(from, to, p);
        let kr = choose|kr: int| 0 <= kr < rows.len() && rows[kr] == r;
        lemma_multiset_member(rows, mapped, kr);
        let k = choose|k: int| 0 <= k < mapped.len() && mapped[k] == r;
        assert(mapped[k] == flow_row(out[k]));
        let x = stake_tier_of(fi);
        let y = stake_tier_of(tj);
        assert(out[k].flow_lamports == (move_stake(from, to, a, b, n) / 2) as u128);
        assert(move_stake(from, to, a, b, n) / 2 <= 0xFFFF_FFFF_FFFF_FFFF * n) by (nonlinear_arith)
            requires
                move_stake(from, to, a, b, n) <= n * 2 * 0xFFFF_FFFF_FFFF_FFFF,
        ;
        assert(0xFFFF_FFFF_FFFF_FFFF * n <= 0xFFFF_FFFF_FFFF_FFFF * (isize::MAX as int)) by (nonlinear_arith)
            requires
                n <= isize::MAX,
        ;
        if forall|i2: int, j2: int| #[trigger] moves_between(from, to, i2, j2, x, y) ==> i2 == i {
            assert forall|z: int| 0 <= z < n && #[trigger] is_move(from, to, z, a, b) implies z == i by {
                lemma_mover_of_tier_move(from, to, z);
                let j2 = choose|j2: int| #[trigger] tier_mover(from, to, z, j2) && tier_move(from, to, z) == Some((
                    tier_index(from[z].activated_stake_lamports),
                    tier_index(to[j2].activated_stake_lamports),
                    (from[z].activated_stake_lamports + to[j2].activated_stake_lamports) as nat,
                ));
                lemma_tier_index(from[z].activated_stake_lamports, fi);
                lemma_tier_index(to[j2].activated_stake_lamports, tj);
                assert(moves_between(from, to, z, j2, x, y));
            }
        }
        assert(flow_of_mover(out[k], from, to, i, j));
    }
    assert forall|k: int| 0 <= k < out.len() implies flow_has_mover(#[trigger] out[k], from, to) by {
        assert(mapped[k] == flow_row(out[k]));
        lemma_multiset_member(mapped, rows, k);
        let kr = choose|kr: int| 0 <= kr < rows.len() && rows[kr] == mapped[k];
        let p = choose|p: int| 0 <= p < 25 && move_count(from, to, p / 5, p % 5, n) > 0
            && #[trigger] rows[kr] == flow_row_of(from, to, p);
        let a = p / 5;
        let b = p % 5;
        lemma_move_count_positive(from, to, a, b, n);
        let z = choose|z: int| 0 <= z < n && #[trigger] is_move(from, to, z, a, b);
        lemma_mover_of_tier_move(from, to, z);
        let j = choose|j: int| #[trigger] tier_mover(from, to, z, j) && tier_move(from, to, z) == Some((
            tier_index(from[z].activated_stake_lamports),
            tier_index(to[j].activated_stake_lamports),
            (from[z].activated_stake_lamports + to[j].activated_stake_lamports) as nat,
        ));
        lemma_tier_index(from[z].activated_stake_lamports, to[j].activated_stake_lamports);
        assert(tier_mover(from, to, z, j));
    }
}

} // verus!
