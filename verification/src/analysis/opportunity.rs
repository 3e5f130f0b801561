//! Decay opportunities: validators that have lost stake for several epochs in a row,
//! with the probable cause and how much of the lost stake is likely looking for a new home.
use vstd::prelude::*;
use crate::analysis::ValidatorHistory;
use crate::models::{CaptureDifficulty, DecayCause, DecayOpportunity, ValidatorSnapshot};
use crate::ordering::{sort_desc_by_key, sorted_desc_by};

verus! {

/// Skip rate above which a losing epoch counts as a high-skip epoch: 15%.
pub const HIGH_SKIP_RATE_PPM: u32 = 150_000;

/// Number of consecutive stake losses at the end of `s`.
pub open spec fn trailing_losses(s: Seq<ValidatorSnapshot>) -> nat
    decreases s.len(),
{
    if s.len() < 2 {
        0
    } else if s.last().activated_stake_lamports < s[s.len() - 2].activated_stake_lamports {
        1 + trailing_losses(s.drop_last())
    } else {
        0
    }
}

/// Epoch `i` of `s` lies in the trailing losing streak of length `k`.
pub open spec fn in_streak(s: Seq<ValidatorSnapshot>, k: nat, i: int) -> bool {
    s.len() - k <= i < s.len()
}

pub open spec fn commission_rose_at(s: Seq<ValidatorSnapshot>, i: int) -> bool {
    s[i].commission_pct > s[i - 1].commission_pct
}

pub open spec fn delinquent_at(s: Seq<ValidatorSnapshot>, i: int) -> bool {
    s[i].delinquent
}

pub open spec fn high_skip_at(s: Seq<ValidatorSnapshot>, i: int) -> bool {
    s[i].skip_rate_ppm > HIGH_SKIP_RATE_PPM
}

/// Relative loss of the step into epoch `i`, in parts per million (rounded down).
pub open spec fn step_loss_ppm(s: Seq<ValidatorSnapshot>, i: int) -> int {
    (s[i - 1].activated_stake_lamports - s[i].activated_stake_lamports) * 1_000_000
        / (s[i - 1].activated_stake_lamports as int)
}

/// Sum of the relative losses of the last `k` steps of `s`.
pub open spec fn streak_loss_ppm(s: Seq<ValidatorSnapshot>, k: nat) -> int
    decreases k,
{
    if k == 0 || s.len() < 2 {
        0
    } else {
        step_loss_ppm(s, s.len() - 1) + streak_loss_ppm(s.drop_last(), (k - 1) as nat)
    }
}

pub open spec fn probable_cause_of(s: Seq<ValidatorSnapshot>, k: nat) -> DecayCause {
    if exists|i: int| in_streak(s, k, i) && #[trigger] delinquent_at(s, i) {
        DecayCause::Delinquency
    } else if exists|i: int| in_streak(s, k, i) && #[trigger] commission_rose_at(s, i) {
        DecayCause::CommissionIncrease
    } else if exists|i: int| in_streak(s, k, i) && #[trigger] high_skip_at(s, i) {
        DecayCause::HighSkipRate
    } else {
        DecayCause::Unknown
    }
}

/// Share (percent) of lost stake estimated to be orphaned, by cause.
pub open spec fn orphan_factor_pct(c: DecayCause) -> int {
    match c {
        DecayCause::CommissionIncrease | DecayCause::Delinquency => 85,
        DecayCause::HighSkipRate => 75,
        _ => 65,
    }
}

pub open spec fn capture_difficulty_of(commission_pct: u8) -> CaptureDifficulty {
    if commission_pct <= 5 {
        CaptureDifficulty::Easy
    } else if commission_pct <= 10 {
        CaptureDifficulty::Medium
    } else {
        CaptureDifficulty::Hard
    }
}

/// The opportunity a history represents: at least four snapshots, a losing streak of at
/// least three epochs, and at least `min_lost` lamports lost over that streak.
pub open spec fn decay_opportunity_of(h: ValidatorHistory, min_lost: u64) -> Option<DecayOpportunity> {
    let s = h.snapshots@;
    let k = trailing_losses(s);
    if s.len() < 4 || k < 3 {
        None
    } else {
        let lost = s[s.len() - 1 - k].activated_stake_lamports - s.last().activated_stake_lamports;
        if lost < min_lost {
            None
        } else {
            let cause = probable_cause_of(s, k);
            Some(
                DecayOpportunity {
                    vote_pubkey: h.vote_pubkey,
                    stake_lost_lamports: lost as u64,
                    stake_lost_ppm: streak_loss_ppm(s, k) as u128,
                    loss_duration_epochs: k as u32,
                    probable_cause: cause,
                    estimated_orphan_stake_lamports: (lost * orphan_factor_pct(cause) / 100) as u64,
                    capture_difficulty: capture_difficulty_of(s.last().commission_pct),
                },
            )
        }
    }
}

/// Opportunities of the first `n` histories, in history order.
pub open spec fn decay_candidates(hs: Seq<ValidatorHistory>, n: int, min_lost: u64) -> Seq<DecayOpportunity>
    decreases n,
{
    if n <= 0 {
        Seq::empty()
    } else {
        let prev = decay_candidates(hs, n - 1, min_lost);
        match decay_opportunity_of(hs[n - 1], min_lost) {
            Some(o) => prev.push(o),
            None => prev,
        }
    }
}

/// A reported opportunity: a streak of at least three losing epochs, at least `min_lost`
/// lamports lost, and an orphan estimate within the loss.
pub open spec fn opportunity_consistent(o: DecayOpportunity, min_lost: u64) -> bool {
    &&& o.loss_duration_epochs >= 3
    &&& o.stake_lost_lamports >= min_lost
    &&& o.estimated_orphan_stake_lamports <= o.stake_lost_lamports
    &&& o.estimated_orphan_stake_lamports == o.stake_lost_lamports * orphan_factor_pct(o.probable_cause) / 100
}

proof fn lemma_decay_candidates_consistent(hs: Seq<ValidatorHistory>, n: int, min_lost: u64)
    requires
        forall|i: int| 0 <= i < hs.len() ==> (#[trigger] hs[i]).snapshots.len() <= u32::MAX,
        n <= hs.len(),
    ensures
        forall|x: DecayOpportunity| #[trigger] decay_candidates(hs, n, min_lost).contains(x) ==> opportunity_consistent(x, min_lost),
    decreases n,
{
    if n > 0 {
        lemma_decay_candidates_consistent(hs, n - 1, min_lost);
        let prev = decay_candidates(hs, n - 1, min_lost);
        assert forall|x: DecayOpportunity| #[trigger] decay_candidates(hs, n, min_lost).contains(x) implies opportunity_consistent(x, min_lost) by {
            let c = decay_candidates(hs, n, min_lost);
            let k = choose|k: int| 0 <= k < c.len() && c[k] == x;
            if k < prev.len() {
                assert(prev[k] == x);
                assert(prev.contains(x));
            } else {
                let h = hs[n - 1];
                let s = h.snapshots@;
                let kk = trailing_losses(s);
                lemma_trailing_losses_bound(s);
                let lost = s[s.len() - 1 - kk].activated_stake_lamports - s.last().activated_stake_lamports;
                let cause = probable_cause_of(s, kk);
                assert(lost * orphan_factor_pct(cause) / 100 <= lost) by (nonlinear_arith)
                    requires
                        lost >= 0,
                        orphan_factor_pct(cause) <= 85,
                        orphan_factor_pct(cause) >= 0,
                ;
                assert(lost >= min_lost);
            }
        }
    }
}

proof fn lemma_trailing_losses_bound(s: Seq<ValidatorSnapshot>)
    ensures
        trailing_losses(s) < s.len() || s.len() == 0,
        s.len() > 0 ==> s[s.len() - 1 - trailing_losses(s)].activated_stake_lamports >= s.last().activated_stake_lamports,
    decreases s.len(),
{
    if s.len() >= 2 && s.last().activated_stake_lamports < s[s.len() - 2].activated_stake_lamports {
        let t = s.drop_last();
        lemma_trailing_losses_bound(t);
        assert(t[t.len() - 1 - trailing_losses(t)] == s[s.len() - 1 - trailing_losses(s)]);
    }
}

pub open spec fn lost_key(o: DecayOpportunity) -> int {
    o.stake_lost_lamports as int
}

proof fn lemma_trailing_losses(s: Seq<ValidatorSnapshot>, j: int)
    requires
        0 <= j < s.len(),
        forall|i: int| j < i < s.len() ==> #[trigger] s[i].activated_stake_lamports < s[i - 1].activated_stake_lamports,
        j == 0 || s[j].activated_stake_lamports >= s[j - 1].activated_stake_lamports,
    ensures
        trailing_losses(s) == s.len() - 1 - j,
    decreases s.len(),
{
    if s.len() >= 2 && j < s.len() - 1 {
        let t = s.drop_last();
        assert forall|i: int| j < i < t.len() implies #[trigger] t[i].activated_stake_lamports < t[i - 1].activated_stake_lamports by {
            assert(t[i] == s[i] && t[i - 1] == s[i - 1]);
            assert(s[i].activated_stake_lamports < s[i - 1].activated_stake_lamports);
        }
        assert(s[s.len() - 1].activated_stake_lamports < s[s.len() - 2].activated_stake_lamports);
        lemma_trailing_losses(t, j);
    }
}

proof fn lemma_streak_loss_step(s: Seq<ValidatorSnapshot>, k: nat, m: nat)
    requires
        k + 1 < s.len(),
        m == k + 1,
    ensures
        streak_loss_ppm(s, m) == streak_loss_ppm(s, k) + step_loss_ppm(s, s.len() - 1 - k),
    decreases k,
{
    if k == 0 {
        assert(streak_loss_ppm(s.drop_last(), 0) == 0);
    } else {
        let t = s.drop_last();
        lemma_streak_loss_step(t, (k - 1) as nat, k);
        assert(step_loss_ppm(t, t.len() - 1 - (k - 1)) == step_loss_ppm(s, s.len() - 1 - k)) by {
            assert(t[t.len() - 1 - (k - 1)] == s[s.len() - 1 - k]);
            assert(t[t.len() - 1 - (k - 1) - 1] == s[s.len() - 1 - k - 1]);
        }
    }
}

/// Finds validators that lost stake in at least three consecutive latest epochs and lost at
/// least `min_stake_lost_lamports` over that streak; largest loss first.
pub fn detect_decay_opportunities(histories: &Vec<ValidatorHistory>, min_stake_lost_lamports: u64) -> (out: Vec<DecayOpportunity>)
    requires
        forall|i: int| 0 <= i < histories.len() ==> (#[trigger] histories@[i]).snapshots.len() <= u32::MAX,
    ensures
        out@.to_multiset() == decay_candidates(histories@, histories.len() as int, min_stake_lost_lamports).to_multiset(),
        sorted_desc_by(out@, |o: DecayOpportunity| lost_key(o)),
        forall|i: int| 0 <= i < out.len() ==> opportunity_consistent(#[trigger] out@[i], min_stake_lost_lamports),
{
    let n = histories.len();
    let mut cands: Vec<DecayOpportunity> = Vec::new();
    let mut keys: Vec<u128> = Vec::new();
    let mut h: usize = 0;
    while h < n
        invariant
            n == histories.len(),
            h <= n,
            forall|i: int| 0 <= i < histories.len() ==> (#[trigger] histories@[i]).snapshots.len() <= u32::MAX,
            cands.len() == keys.len(),
            cands@ == decay_candidates(histories@, h as int, min_stake_lost_lamports),
            forall|x: int| 0 <= x < cands.len() ==> keys@[x] == lost_key(#[trigger] cands@[x]),
        decreases n - h,
    {
        let found = opportunity_of(&histories[h], min_stake_lost_lamports);
        if let Some(o) = found {
            let k: u128 = o.stake_lost_lamports as u128;
            cands.push(o);
            keys.push(k);
        }
        h = h + 1;
    }
    let ghost cs = cands@;
    let out = sort_desc_by_key(cands, keys, Ghost(|o: DecayOpportunity| lost_key(o)));
    proof {
        lemma_decay_candidates_consistent(histories@, n as int, min_stake_lost_lamports);
        assert forall|i: int| 0 <= i < out.len() implies opportunity_consistent(#[trigger] out@[i], min_stake_lost_lamports) by {
            crate::ordering::lemma_multiset_member(out@, cs, i);
        }
    }
    out
}

fn opportunity_of(history: &ValidatorHistory, min_lost: u64) -> (r: Option<DecayOpportunity>)
    requires
        history.snapshots.len() <= u32::MAX,
    ensures
        r == decay_opportunity_of(*history, min_lost),
{
    let s = &history.snapshots;
    let n = s.len();
    if n < 4 {
        return None;
    }
    // Walk back over the trailing losing streak.
    let mut j: usize = n - 1;
    let mut lost_ppm: u128 = 0;
    while j >= 1 && s[j].activated_stake_lamports < s[j - 1].activated_stake_lamports
        invariant
            n == s.len(),
            4 <= n,
            j < n,
            forall|i: int| j < i < n ==> #[trigger] s@[i].activated_stake_lamports < s@[i - 1].activated_stake_lamports,
            lost_ppm == streak_loss_ppm(s@, (n - 1 - j) as nat),
            lost_ppm <= (n - 1 - j) * 1_000_000,
            s@[j as int].activated_stake_lamports >= s@[n - 1].activated_stake_lamports,
        decreases j,
    {
        let prev = s[j - 1].activated_stake_lamports;
        let curr = s[j].activated_stake_lamports;
        let step: u128 = ((prev - curr) as u128) * 1_000_000 / (prev as u128);
        proof {
            lemma_streak_loss_step(s@, (n - 1 - j) as nat, (n - j) as nat);
            assert(step <= 1_000_000) by (nonlinear_arith)
                requires
                    step == ((prev - curr) as int) * 1_000_000 / (prev as int),
                    curr < prev,
            ;
        }
        lost_ppm = lost_ppm + step;
        j = j - 1;
    }
    let delinquency = streak_has_delinquent(s, n - 1 - j);
    let commission_increase = streak_has_commission_rise(s, n - 1 - j);
    let high_skip = streak_has_high_skip(s, n - 1 - j);
    proof {
        lemma_trailing_losses(s@, j as int);
    }
    let k: usize = n - 1 - j;
    if k < 3 {
        return None;
    }
    let last = s[n - 1].activated_stake_lamports;
    let lost: u64 = s[j].activated_stake_lamports - last;
    if lost < min_lost {
        return None;
    }
    let cause = if delinquency {
        DecayCause::Delinquency
    } else if commission_increase {
        DecayCause::CommissionIncrease
    } else if high_skip {
        DecayCause::HighSkipRate
    } else {
        DecayCause::Unknown
    };
    let factor: u128 = match cause {
        DecayCause::CommissionIncrease | DecayCause::Delinquency => 85,
        DecayCause::HighSkipRate => 75,
        _ => 65,
    };
    let orphan: u128 = (lost as u128) * factor / 100;
    let latest_commission = s[n - 1].commission_pct;
    let difficulty = if latest_commission <= 5 {
        CaptureDifficulty::Easy
    } else if latest_commission <= 10 {
        CaptureDifficulty::Medium
    } else {
        CaptureDifficulty::Hard
    };
    proof {
        assert(orphan <= lost) by (nonlinear_arith)
            requires
                orphan == (lost as int) * (factor as int) / 100,
                factor <= 85,
        ;
    }
    Some(
        DecayOpportunity {
            vote_pubkey: history.vote_pubkey.clone(),
            stake_lost_lamports: lost,
            stake_lost_ppm: lost_ppm,
            loss_duration_epochs: k as u32,
            probable_cause: cause,
            estimated_orphan_stake_lamports: orphan as u64,
            capture_difficulty: difficulty,
        },
    )
}

fn streak_has_delinquent(s: &Vec<ValidatorSnapshot>, k: usize) -> (b: bool)
    requires
        k < s.len(),
    ensures
        b == exists|i: int| in_streak(s@, k as nat, i) && #[trigger] delinquent_at(s@, i),
{
    let n = s.len();
    let mut i: usize = n - k;
    while i < n
        invariant
            n == s.len(),
            n - k <= i <= n,
            forall|t: int| n - k <= t < i ==> !#[trigger] delinquent_at(s@, t),
        decreases n - i,
    {
        if s[i].delinquent {
            assert(in_streak(s@, k as nat, i as int) && delinquent_at(s@, i as int));
            return true;
        }
        i = i + 1;
    }
    false
}

fn streak_has_commission_rise(s: &Vec<ValidatorSnapshot>, k: usize) -> (b: bool)
    requires
        k < s.len(),
    ensures
        b == exists|i: int| in_streak(s@, k as nat, i) && #[trigger] commission_rose_at(s@, i),
{
    let n = s.len();
    let mut i: usize = n - k;
    while i < n
        invariant
            n == s.len(),
            1 <= n - k <= i <= n,
            forall|t: int| n - k <= t < i ==> !#[trigger] commission_rose_at(s@, t),
        decreases n - i,
    {
        if s[i].commission_pct > s[i - 1].commission_pct {
            assert(in_streak(s@, k as nat, i as int) && commission_rose_at(s@, i as int));
            return true;
        }
        i = i + 1;
    }
    false
}

fn streak_has_high_skip(s: &Vec<ValidatorSnapshot>, k: usize) -> (b: bool)
    requires
        k < s.len(),
    ensures
        b == exists|i: int| in_streak(s@, k as nat, i) && #[trigger] high_skip_at(s@, i),
{
    let n = s.len();
    let mut i: usize = n - k;
    while i < n
        invariant
            n == s.len(),
            n - k <= i <= n,
            forall|t: int| n - k <= t < i ==> !#[trigger] high_skip_at(s@, t),
        decreases n - i,
    {
        if s[i].skip_rate_ppm > HIGH_SKIP_RATE_PPM {
            assert(in_streak(s@, k as nat, i as int) && high_skip_at(s@, i as int));
            return true;
        }
        i = i + 1;
    }
    false
}

} // verus!
