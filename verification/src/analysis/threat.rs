//! Threat assessment: which peers in your stake band are gaining on you, and how soon
//! they would overtake you at their current velocity.
use vstd::prelude::*;
use crate::analysis::{distinct_keys, ValidatorHistory};
use crate::models::{severity_rank_of, StakeSource, ThreatProfile, ThreatTier};
use crate::ordering::{sort_desc_by_key, sorted_desc_by};

verus! {

/// Trend of one validator's stake: the exponentially weighted regression slope
/// (lamports per epoch) and the change of that slope between the older and newer half.
pub struct StakeTrend {
    pub velocity_lamports_per_epoch: i64,
    pub acceleration_lamports: i64,
}

/// Ceiling of `a / b` for `b > 0`.
pub open spec fn ceil_div(a: int, b: int) -> int {
    (a + b - 1) / b
}

/// Epochs until a peer with stake `their` and velocity `velocity` reaches stake `your`;
/// capped at `u32::MAX`.
pub open spec fn overtake_eta(your: u64, their: u64, velocity: i64) -> Option<u32> {
    if their >= your || velocity <= 0 {
        None
    } else {
        let e = ceil_div(your - their, velocity as int);
        if e > u32::MAX {
            Some(u32::MAX)
        } else {
            Some(e as u32)
        }
    }
}

pub open spec fn classify_spec(velocity: i64, eta: Option<u32>, horizon: u32) -> ThreatTier {
    match eta {
        Some(epochs) => {
            if epochs <= 3 {
                ThreatTier::Critical
            } else if epochs <= 10 {
                ThreatTier::Rising
            } else if epochs <= horizon && velocity > 0 {
                ThreatTier::Watching
            } else {
                ThreatTier::Neutral
            }
        },
        None => {
            if velocity > 0 {
                ThreatTier::Watching
            } else {
                ThreatTier::Neutral
            }
        },
    }
}

/// Epochs until `their` stake catches up with `your` stake at `velocity` lamports per epoch,
/// or `None` when it is already level or ahead, or not growing.
pub fn epochs_to_overtake(your_stake: u64, their_stake: u64, their_velocity: i64) -> (r: Option<u32>)
    ensures
        r == overtake_eta(your_stake, their_stake, their_velocity),
{
    if their_stake >= your_stake || their_velocity <= 0 {
        return None;
    }
    let gap: u64 = your_stake - their_stake;
    let v: u64 = their_velocity as u64;
    let e: u128 = (gap / v) as u128 + if gap % v == 0 { 0 } else { 1 };
    proof {
        assert(gap == (gap / v) * v + gap % v) by (nonlinear_arith)
            requires
                v > 0,
        ;
        assert(ceil_div(gap as int, v as int) == e) by (nonlinear_arith)
            requires
                v > 0,
                e == gap / v + if gap % v == 0 { 0int } else { 1int },
                gap == (gap / v) * v + gap % v,
                0 <= gap % v < v,
        ;
    }
    if e > u32::MAX as u128 {
        Some(u32::MAX)
    } else {
        Some(e as u32)
    }
}

/// Threat tier from the overtake estimate: within 3 epochs critical, within 10 rising,
/// within the horizon (and growing) or growing without an estimate watching, else neutral.
pub fn classify_threat(velocity: i64, eta: Option<u32>, horizon: u32) -> (t: ThreatTier)
    ensures
        t == classify_spec(velocity, eta, horizon),
{
    if let Some(epochs) = eta {
        if epochs <= 3 {
            return ThreatTier::Critical;
        }
        if epochs <= 10 {
            return ThreatTier::Rising;
        }
        if epochs <= horizon && velocity > 0 {
            return ThreatTier::Watching;
        }
        return ThreatTier::Neutral;
    }
    if velocity > 0 {
        ThreatTier::Watching
    } else {
        ThreatTier::Neutral
    }
}

/// A peer's stake lies within half and one and a half times your stake.
pub open spec fn in_stake_band(your: u64, their: u64) -> bool {
    2 * their >= your && 2 * their <= 3 * your
}

/// The profile that the analysis gives a history, or `None` when the history is yours,
/// has fewer than three snapshots, or lies outside your stake band.
pub open spec fn threat_candidate(
    h: ValidatorHistory,
    t: StakeTrend,
    your_key: Seq<char>,
    your_stake: u64,
    horizon: u32,
) -> Option<ThreatProfile> {
    if h.vote_pubkey@ == your_key || h.snapshots@.len() < 3 {
        None
    } else {
        let cur = h.snapshots@.last().activated_stake_lamports;
        if !in_stake_band(your_stake, cur) {
            None
        } else {
            let v = t.velocity_lamports_per_epoch;
            let eta = overtake_eta(your_stake, cur, v);
            Some(
                ThreatProfile {
                    vote_pubkey: h.vote_pubkey,
                    current_stake_lamports: cur,
                    velocity_lamports_per_epoch: v,
                    acceleration_lamports: t.acceleration_lamports,
                    epochs_to_overtake: eta,
                    threat_tier: classify_spec(v, eta, horizon),
                    primary_stake_source: StakeSource::Unknown,
                },
            )
        }
    }
}

/// Profiles of the first `n` histories, in history order.
pub open spec fn threat_candidates(
    hs: Seq<ValidatorHistory>,
    ts: Seq<StakeTrend>,
    n: int,
    your_key: Seq<char>,
    your_stake: u64,
    horizon: u32,
) -> Seq<ThreatProfile>
    decreases n,
{
    if n <= 0 {
        Seq::empty()
    } else {
        let prev = threat_candidates(hs, ts, n - 1, your_key, your_stake, horizon);
        match threat_candidate(hs[n - 1], ts[n - 1], your_key, your_stake, horizon) {
            Some(p) => prev.push(p),
            None => prev,
        }
    }
}

/// A reported threat: not yours, within your stake band, with the overtake estimate and
/// tier that its stake and velocity give.
pub open spec fn threat_consistent(p: ThreatProfile, your_key: Seq<char>, your_stake: u64, horizon: u32) -> bool {
    &&& p.vote_pubkey@ != your_key
    &&& in_stake_band(your_stake, p.current_stake_lamports)
    &&& p.epochs_to_overtake == overtake_eta(your_stake, p.current_stake_lamports, p.velocity_lamports_per_epoch)
    &&& p.threat_tier == classify_spec(p.velocity_lamports_per_epoch, p.epochs_to_overtake, horizon)
    &&& p.primary_stake_source == StakeSource::Unknown
}

proof fn lemma_threat_candidates_consistent(
    hs: Seq<ValidatorHistory>,
    ts: Seq<StakeTrend>,
    n: int,
    your_key: Seq<char>,
    your_stake: u64,
    horizon: u32,
)
    ensures
        forall|x: ThreatProfile| #[trigger] threat_candidates(hs, ts, n, your_key, your_stake, horizon).contains(x)
            ==> threat_consistent(x, your_key, your_stake, horizon),
    decreases n,
{
    if n > 0 {
        lemma_threat_candidates_consistent(hs, ts, n - 1, your_key, your_stake, horizon);
        let prev = threat_candidates(hs, ts, n - 1, your_key, your_stake, horizon);
        assert forall|x: ThreatProfile| #[trigger] threat_candidates(hs, ts, n, your_key, your_stake, horizon).contains(x)
            implies threat_consistent(x, your_key, your_stake, horizon) by {
            let c = threat_candidates(hs, ts, n, your_key, your_stake, horizon);
            let k = choose|k: int| 0 <= k < c.len() && c[k] == x;
            if k < prev.len() {
                assert(prev[k] == x);
                assert(prev.contains(x));
            }
        }
    }
}

/// Position of the history of `key`, if any.
pub open spec fn history_position(hs: Seq<ValidatorHistory>, key: Seq<char>) -> Option<int> {
    if exists|i: int| 0 <= i < hs.len() && (#[trigger] hs[i]).vote_pubkey@ == key {
        Some(choose|i: int| 0 <= i < hs.len() && (#[trigger] hs[i]).vote_pubkey@ == key)
    } else {
        None
    }
}

/// Order of the report: severity first, then the sooner overtake, then (without an
/// estimate) the faster growth. Smaller comes first.
pub open spec fn threat_order(p: ThreatProfile) -> int {
    let rank = severity_rank_of(p.threat_tier) as int;
    match p.epochs_to_overtake {
        Some(e) => rank * 0x4_0000_0000_0000_0000_0000_0000 + (e as int) * 0x2_0000_0000_0000_0000,
        None => rank * 0x4_0000_0000_0000_0000_0000_0000 + 0x1_0000_0000 * 0x2_0000_0000_0000_0000
            + (0x7FFF_FFFF_FFFF_FFFF - p.velocity_lamports_per_epoch as int),
    }
}

pub open spec fn neg_threat_order(p: ThreatProfile) -> int {
    0x40_0000_0000_0000_0000_0000_0000 - threat_order(p)
}

fn threat_order_exec(p: &ThreatProfile) -> (k: u128)
    ensures
        k == neg_threat_order(*p),
{
    let rank: i128 = p.threat_tier.severity_rank() as i128;
    let base: i128 = rank * 0x4_0000_0000_0000_0000_0000_0000;
    let k: i128 = match p.epochs_to_overtake {
        Some(e) => base + (e as i128) * 0x2_0000_0000_0000_0000,
        None => base + 0x1_0000_0000 * 0x2_0000_0000_0000_0000 + (0x7FFF_FFFF_FFFF_FFFF
            - p.velocity_lamports_per_epoch as i128),
    };
    (0x40_0000_0000_0000_0000_0000_0000 - k) as u128
}

/// Assesses every peer within your stake band (half to one and a half times your stake)
/// that has at least three snapshots; `trends[i]` is the stake trend of `histories[i]`.
/// Without a history of your own the report is empty.
pub fn analyze_threats(
    histories: &Vec<ValidatorHistory>,
    trends: &Vec<StakeTrend>,
    your_vote_pubkey: &str,
    overtake_horizon_epochs: u32,
) -> (out: Vec<ThreatProfile>)
    requires
        histories.len() == trends.len(),
        distinct_keys(histories@),
    ensures
        ({
            match history_position(histories@, your_vote_pubkey@) {
                None => out.len() == 0,
                Some(y) => if histories@[y].snapshots.len() == 0 {
                    out.len() == 0
                } else {
                    &&& out@.to_multiset() == threat_candidates(
                        histories@,
                        trends@,
                        histories.len() as int,
                        your_vote_pubkey@,
                        histories@[y].snapshots@.last().activated_stake_lamports,
                        overtake_horizon_epochs,
                    ).to_multiset()
                    &&& sorted_desc_by(out@, |p: ThreatProfile| neg_threat_order(p))
                    &&& forall|i: int| 0 <= i < out.len() ==> threat_consistent(
                        #[trigger] out@[i],
                        your_vote_pubkey@,
                        histories@[y].snapshots@.last().activated_stake_lamports,
                        overtake_horizon_epochs,
                    )
                },
            }
        }),
{
    let your_key = String::from_str(your_vote_pubkey);
    let n = histories.len();
    let mut y: usize = 0;
    while y < n
        invariant
            y <= n == histories.len(),
            your_key@ == your_vote_pubkey@,
            forall|j: int| 0 <= j < y ==> (#[trigger] histories@[j]).vote_pubkey@ != your_vote_pubkey@,
        ensures
            y <= n,
            forall|j: int| 0 <= j < y ==> (#[trigger] histories@[j]).vote_pubkey@ != your_vote_pubkey@,
            y < n ==> histories@[y as int].vote_pubkey@ == your_vote_pubkey@,
        decreases n - y,
    {
        if histories[y].vote_pubkey == your_key {
            break;
        }
        y = y + 1;
    }
    if y == n {
        proof {
            if exists|i: int| 0 <= i < histories.len() && (#[trigger] histories@[i]).vote_pubkey@ == your_vote_pubkey@ {
                let i = choose|i: int| 0 <= i < histories.len() && (#[trigger] histories@[i]).vote_pubkey@ == your_vote_pubkey@;
                assert(histories@[i].vote_pubkey@ != your_vote_pubkey@);
            }
        }
        return Vec::new();
    }
    proof {
        let c = choose|i: int| 0 <= i < histories.len() && (#[trigger] histories@[i]).vote_pubkey@ == your_vote_pubkey@;
        assert(histories@[y as int].vote_pubkey@ == your_vote_pubkey@);
        if c != y {
            assert(histories@[c].vote_pubkey@ != histories@[y as int].vote_pubkey@);
        }
        assert(history_position(histories@, your_vote_pubkey@) == Some(y as int));
    }
    let your_len = histories[y].snapshots.len();
    if your_len == 0 {
        return Vec::new();
    }
    let your_stake = histories[y].snapshots[your_len - 1].activated_stake_lamports;
    let mut cands: Vec<ThreatProfile> = Vec::new();
    let mut keys: Vec<u128> = Vec::new();
    let mut i: usize = 0;
    while i < n
        invariant
            n == histories.len() == trends.len(),
            i <= n,
            your_key@ == your_vote_pubkey@,
            cands.len() == keys.len(),
            cands@ == threat_candidates(histories@, trends@, i as int, your_vote_pubkey@, your_stake, overtake_horizon_epochs),
            forall|x: int| 0 <= x < cands.len() ==> keys@[x] == neg_threat_order(#[trigger] cands@[x]),
        decreases n - i,
    {
        let h = &histories[i];
        let len = h.snapshots.len();
        if !(h.vote_pubkey == your_key) && len >= 3 {
            let cur = h.snapshots[len - 1].activated_stake_lamports;
            let twice: u128 = 2 * (cur as u128);
            if twice >= your_stake as u128 && twice <= 3 * (your_stake as u128) {
                let v = trends[i].velocity_lamports_per_epoch;
                let eta = epochs_to_overtake(your_stake, cur, v);
                let tier = classify_threat(v, eta, overtake_horizon_epochs);
                let profile = ThreatProfile {
                    vote_pubkey: h.vote_pubkey.clone(),
                    current_stake_lamports: cur,
                    velocity_lamports_per_epoch: v,
                    acceleration_lamports: trends[i].acceleration_lamports,
                    epochs_to_overtake: eta,
                    threat_tier: tier,
                    primary_stake_source: StakeSource::Unknown,
                };
                let k = threat_order_exec(&profile);
                cands.push(profile);
                keys.push(k);
            }
        }
        i = i + 1;
    }
    let ghost cs = cands@;
    let out = sort_desc_by_key(cands, keys, Ghost(|p: ThreatProfile| neg_threat_order(p)));
    proof {
        lemma_threat_candidates_consistent(histories@, trends@, n as int, your_vote_pubkey@, your_stake, overtake_horizon_epochs);
        assert forall|i: int| 0 <= i < out.len() implies threat_consistent(
            #[trigger] out@[i],
            your_vote_pubkey@,
            your_stake,
            overtake_horizon_epochs,
        ) by {
            crate::ordering::lemma_multiset_member(out@, cs, i);
        }
    }
    out
}

} // verus!
