use stake_radar::analysis::adversarial::{detect_gaming_signals, GamingEvidence};
use stake_radar::analysis::group_by_validator;
use stake_radar::analysis::opportunity::detect_decay_opportunities;
use stake_radar::analysis::threat::{analyze_threats, classify_threat, epochs_to_overtake, StakeTrend};
use stake_radar::analysis::ValidatorHistory;
use stake_radar::models::{
    CaptureDifficulty, DecayCause, GamingType, StakeSource, StakeTierBucket, ThreatTier, ValidatorSnapshot, LAMPORTS_PER_SOL,
};
use stake_radar::rpc::StakeAccountRecord;

fn sol(x: f64) -> u64 {
    (x * LAMPORTS_PER_SOL as f64).round() as u64
}

fn snapshot(vote: &str, identity: &str, epoch: u64, stake_sol: f64, commission: u8, prior_credits: u64, skip_ppm: u32, delinquent: bool) -> ValidatorSnapshot {
    ValidatorSnapshot {
        vote_pubkey: vote.to_string(),
        identity: identity.to_string(),
        epoch,
        slot_captured: 0,
        activated_stake_lamports: sol(stake_sol),
        commission_pct: commission,
        vote_credits_epoch: 100,
        vote_credits_prior_epoch: prior_credits,
        skip_rate_ppm: skip_ppm,
        delinquent,
        version: None,
        dc_location: None,
        superminority_member: false,
    }
}

fn history(vote: &str, snapshots: Vec<ValidatorSnapshot>) -> ValidatorHistory {
    ValidatorHistory { vote_pubkey: vote.to_string(), snapshots }
}

fn record(vote: &str, staker: &str, withdrawer: &str, stake_sol: f64) -> StakeAccountRecord {
    StakeAccountRecord {
        stake_pubkey: format!("stake-{vote}-{staker}"),
        delegated_vote_pubkey: Some(vote.to_string()),
        staker: Some(staker.to_string()),
        withdrawer: Some(withdrawer.to_string()),
        delegated_stake_lamports: sol(stake_sol),
    }
}

/// Exponentially weighted least-squares slope of the stake (SOL per epoch), newest weighted 1.
fn weighted_velocity(h: &[ValidatorSnapshot], lambda: f64) -> f64 {
    if h.len() < 2 {
        return 0.0;
    }
    let n = h.len();
    let (mut wx, mut wy, mut wxx, mut wxy, mut tw) = (0.0, 0.0, 0.0, 0.0, 0.0);
    for (i, s) in h.iter().enumerate() {
        let x = i as f64;
        let y = s.activated_stake_lamports as f64 / LAMPORTS_PER_SOL as f64;
        let w = lambda.powi((n - 1 - i) as i32);
        tw += w;
        wx += w * x;
        wy += w * y;
        wxx += w * x * x;
        wxy += w * x * y;
    }
    let num = tw * wxy - wx * wy;
    let den = tw * wxx - wx * wx;
    if den.abs() < f64::EPSILON { 0.0 } else { num / den }
}

fn trend_of(h: &ValidatorHistory) -> StakeTrend {
    let v = weighted_velocity(&h.snapshots, 0.85);
    StakeTrend {
        velocity_lamports_per_epoch: (v * LAMPORTS_PER_SOL as f64).round() as i64,
        acceleration_lamports: 0,
    }
}

#[test]
fn detects_self_stake_inflation_with_authority_links() {
    let histories = vec![history(
        "vote-a",
        vec![
            snapshot("vote-a", "identity-a", 1, 10_000.0, 0, 80, 20_000, false),
            snapshot("vote-a", "identity-a", 2, 11_000.0, 0, 80, 20_000, false),
            snapshot("vote-a", "identity-a", 3, 12_500.0, 0, 80, 20_000, false),
            snapshot("vote-a", "identity-a", 4, 13_200.0, 0, 80, 20_000, false),
        ],
    )];
    let stake_accounts = vec![
        record("vote-a", "identity-a", "identity-a", 5_000.0),
        record("vote-a", "identity-a", "identity-a", 1_500.0),
        record("vote-a", "other", "other", 3_000.0),
    ];
    let signals = detect_gaming_signals(&histories, &stake_accounts, 600_000);
    assert!(signals
        .iter()
        .any(|signal| matches!(signal.signal_type, GamingType::SelfStakeInflation)));
}

#[test]
fn detects_sybil_cluster_from_shared_authority() {
    let histories = vec![
        history(
            "vote-1",
            vec![
                snapshot("vote-1", "id-1", 1, 4_000.0, 5, 80, 20_000, false),
                snapshot("vote-1", "id-1", 2, 4_050.0, 5, 80, 20_000, false),
                snapshot("vote-1", "id-1", 3, 4_100.0, 5, 80, 20_000, false),
                snapshot("vote-1", "id-1", 4, 4_120.0, 5, 80, 20_000, false),
            ],
        ),
        history(
            "vote-2",
            vec![
                snapshot("vote-2", "id-2", 1, 5_000.0, 5, 80, 20_000, false),
                snapshot("vote-2", "id-2", 2, 5_010.0, 5, 80, 20_000, false),
                snapshot("vote-2", "id-2", 3, 5_020.0, 5, 80, 20_000, false),
                snapshot("vote-2", "id-2", 4, 5_030.0, 5, 80, 20_000, false),
            ],
        ),
        history(
            "vote-3",
            vec![
                snapshot("vote-3", "id-3", 1, 6_000.0, 5, 80, 20_000, false),
                snapshot("vote-3", "id-3", 2, 6_010.0, 5, 80, 20_000, false),
                snapshot("vote-3", "id-3", 3, 6_020.0, 5, 80, 20_000, false),
                snapshot("vote-3", "id-3", 4, 6_030.0, 5, 80, 20_000, false),
            ],
        ),
    ];
    let stake_accounts = vec![
        record("vote-1", "shared-authority", "shared-authority", 4_500.0),
        record("vote-2", "shared-authority", "shared-authority", 5_500.0),
        record("vote-3", "shared-authority", "shared-authority", 6_500.0),
    ];
    let signals = detect_gaming_signals(&histories, &stake_accounts, 600_000);
    assert!(signals
        .iter()
        .any(|signal| matches!(signal.signal_type, GamingType::SybilCluster)));
}

#[test]
fn finds_consecutive_decay() {
    let histories = vec![history(
        "vote",
        vec![
            snapshot("vote", "identity", 1, 1000.0, 5, 95, 20_000, false),
            snapshot("vote", "identity", 2, 900.0, 5, 95, 20_000, false),
            snapshot("vote", "identity", 3, 800.0, 7, 95, 20_000, false),
            snapshot("vote", "identity", 4, 700.0, 7, 95, 20_000, false),
        ],
    )];
    let opportunities = detect_decay_opportunities(&histories, sol(150.0));
    assert_eq!(opportunities.len(), 1);
    assert_eq!(opportunities[0].probable_cause, DecayCause::CommissionIncrease);
}

#[test]
fn detects_critical_eta() {
    let histories = vec![
        history(
            "you",
            vec![
                snapshot("you", "identity", 1, 100.0, 5, 95, 50_000, false),
                snapshot("you", "identity", 2, 100.0, 5, 95, 50_000, false),
                snapshot("you", "identity", 3, 100.0, 5, 95, 50_000, false),
            ],
        ),
        history(
            "them",
            vec![
                snapshot("them", "identity", 1, 90.0, 5, 95, 50_000, false),
                snapshot("them", "identity", 2, 94.0, 5, 95, 50_000, false),
                snapshot("them", "identity", 3, 98.0, 5, 95, 50_000, false),
            ],
        ),
    ];
    let trends: Vec<StakeTrend> = histories.iter().map(trend_of).collect();
    let threats = analyze_threats(&histories, &trends, "you", 15);
    assert_eq!(threats.len(), 1);
    assert_eq!(threats[0].threat_tier, ThreatTier::Critical);
}

#[test]
fn decay_reports_loss_orphans_and_difficulty() {
    let histories = vec![history(
        "vote",
        vec![
            snapshot("vote", "identity", 1, 1000.0, 5, 95, 20_000, false),
            snapshot("vote", "identity", 2, 900.0, 5, 95, 20_000, false),
            snapshot("vote", "identity", 3, 800.0, 7, 95, 20_000, false),
            snapshot("vote", "identity", 4, 700.0, 7, 95, 20_000, false),
        ],
    )];
    let out = detect_decay_opportunities(&histories, sol(150.0));
    assert_eq!(out.len(), 1);
    let o = &out[0];
    assert_eq!(o.stake_lost_lamports, sol(300.0));
    assert_eq!(o.loss_duration_epochs, 3);
    // 100/1000 + 100/900 + 100/800 in parts per million, each step rounded down.
    assert_eq!(o.stake_lost_ppm, 100_000 + 111_111 + 125_000);
    assert_eq!(o.estimated_orphan_stake_lamports, sol(300.0) * 85 / 100);
    assert_eq!(o.capture_difficulty, CaptureDifficulty::Medium);
}

#[test]
fn decay_needs_enough_loss_and_three_losing_epochs() {
    let steady = history(
        "a",
        vec![
            snapshot("a", "i", 1, 1000.0, 5, 95, 0, false),
            snapshot("a", "i", 2, 900.0, 5, 95, 0, false),
            snapshot("a", "i", 3, 950.0, 5, 95, 0, false),
            snapshot("a", "i", 4, 900.0, 5, 95, 0, false),
        ],
    );
    let small = history(
        "b",
        vec![
            snapshot("b", "i", 1, 1000.0, 5, 95, 0, false),
            snapshot("b", "i", 2, 990.0, 5, 95, 0, false),
            snapshot("b", "i", 3, 980.0, 5, 95, 0, false),
            snapshot("b", "i", 4, 970.0, 5, 95, 0, false),
        ],
    );
    let out = detect_decay_opportunities(&vec![steady, small], sol(150.0));
    assert_eq!(out.len(), 0);
}

#[test]
fn decay_is_sorted_by_loss_and_blames_delinquency() {
    let a = history(
        "a",
        vec![
            snapshot("a", "i", 1, 1000.0, 5, 95, 0, false),
            snapshot("a", "i", 2, 800.0, 5, 95, 0, true),
            snapshot("a", "i", 3, 600.0, 5, 95, 0, false),
            snapshot("a", "i", 4, 400.0, 5, 95, 0, false),
        ],
    );
    let b = history(
        "b",
        vec![
            snapshot("b", "i", 1, 5000.0, 12, 95, 0, false),
            snapshot("b", "i", 2, 4000.0, 12, 95, 0, false),
            snapshot("b", "i", 3, 3000.0, 12, 95, 0, false),
            snapshot("b", "i", 4, 2000.0, 12, 95, 0, false),
        ],
    );
    let out = detect_decay_opportunities(&vec![a, b], sol(100.0));
    assert_eq!(out.len(), 2);
    assert_eq!(out[0].vote_pubkey, "b");
    assert_eq!(out[0].probable_cause, DecayCause::Unknown);
    assert_eq!(out[0].capture_difficulty, CaptureDifficulty::Hard);
    assert_eq!(out[1].vote_pubkey, "a");
    assert_eq!(out[1].probable_cause, DecayCause::Delinquency);
    assert_eq!(out[1].capture_difficulty, CaptureDifficulty::Easy);
}

#[test]
fn overtake_estimate_rounds_up() {
    assert_eq!(epochs_to_overtake(sol(100.0), sol(98.0), sol(4.0) as i64), Some(1));
    assert_eq!(epochs_to_overtake(sol(100.0), sol(90.0), sol(3.0) as i64), Some(4));
    assert_eq!(epochs_to_overtake(sol(100.0), sol(90.0), sol(5.0) as i64), Some(2));
    assert_eq!(epochs_to_overtake(sol(100.0), sol(100.0), sol(5.0) as i64), None);
    assert_eq!(epochs_to_overtake(sol(100.0), sol(90.0), 0), None);
    assert_eq!(epochs_to_overtake(sol(100.0), sol(90.0), -5), None);
    assert_eq!(epochs_to_overtake(u64::MAX, 0, 1), Some(u32::MAX));
}

#[test]
fn overtake_estimate_is_the_first_catching_epoch() {
    let your = 1_000_003u64;
    let their = 1_000u64;
    let v = 7i64;
    let e = epochs_to_overtake(your, their, v).unwrap() as u64;
    assert!(their + e * v as u64 >= your);
    assert!(their + (e - 1) * (v as u64) < your);
}

#[test]
fn threat_tiers_follow_the_estimate() {
    assert_eq!(classify_threat(1, Some(3), 15), ThreatTier::Critical);
    assert_eq!(classify_threat(1, Some(4), 15), ThreatTier::Rising);
    assert_eq!(classify_threat(1, Some(10), 15), ThreatTier::Rising);
    assert_eq!(classify_threat(1, Some(11), 15), ThreatTier::Watching);
    assert_eq!(classify_threat(1, Some(16), 15), ThreatTier::Neutral);
    assert_eq!(classify_threat(1, None, 15), ThreatTier::Watching);
    assert_eq!(classify_threat(0, None, 15), ThreatTier::Neutral);
    assert_eq!(classify_threat(-3, Some(12), 15), ThreatTier::Neutral);
}

#[test]
fn threat_report_is_ordered_by_severity_then_eta() {
    let you = history("you", vec![
        snapshot("you", "i", 1, 1000.0, 5, 95, 0, false),
        snapshot("you", "i", 2, 1000.0, 5, 95, 0, false),
        snapshot("you", "i", 3, 1000.0, 5, 95, 0, false),
    ]);
    let make = |k: &str, s: f64| history(k, vec![
        snapshot(k, "i", 1, s, 5, 95, 0, false),
        snapshot(k, "i", 2, s, 5, 95, 0, false),
        snapshot(k, "i", 3, s, 5, 95, 0, false),
    ]);
    let histories = vec![you, make("slow", 900.0), make("fast", 900.0), make("near", 995.0), make("flat", 800.0), make("far", 100.0), make("short", 950.0)];
    let trends = vec![
        StakeTrend { velocity_lamports_per_epoch: 0, acceleration_lamports: 0 },
        StakeTrend { velocity_lamports_per_epoch: sol(10.0) as i64, acceleration_lamports: 0 },
        StakeTrend { velocity_lamports_per_epoch: sol(50.0) as i64, acceleration_lamports: 7 },
        StakeTrend { velocity_lamports_per_epoch: sol(5.0) as i64, acceleration_lamports: 0 },
        StakeTrend { velocity_lamports_per_epoch: -1, acceleration_lamports: 0 },
        StakeTrend { velocity_lamports_per_epoch: sol(500.0) as i64, acceleration_lamports: 0 },
        StakeTrend { velocity_lamports_per_epoch: sol(1.0) as i64, acceleration_lamports: 0 },
    ];
    let out = analyze_threats(&histories, &trends, "you", 15);
    let keys: Vec<&str> = out.iter().map(|p| p.vote_pubkey.as_str()).collect();
    // near: 1 epoch (critical); fast: 2 epochs (critical); slow: 10 epochs
    // (rising); short: 50 epochs (beyond the horizon: neutral); flat: shrinking (neutral);
    // far is outside the stake band.
    assert_eq!(keys, vec!["near", "fast", "slow", "short", "flat"]);
    assert_eq!(out[0].threat_tier, ThreatTier::Critical);
    assert_eq!(out[1].threat_tier, ThreatTier::Critical);
    assert_eq!(out[1].acceleration_lamports, 7);
    assert_eq!(out[2].threat_tier, ThreatTier::Rising);
    assert_eq!(out[2].epochs_to_overtake, Some(10));
    assert_eq!(out[3].threat_tier, ThreatTier::Neutral);
    assert_eq!(out[3].epochs_to_overtake, Some(50));
    assert_eq!(out[4].epochs_to_overtake, None);
    assert!(out.iter().all(|p| p.primary_stake_source == StakeSource::Unknown));
}

#[test]
fn threats_need_your_history_and_three_snapshots() {
    let two = history("peer", vec![
        snapshot("peer", "i", 1, 90.0, 5, 95, 0, false),
        snapshot("peer", "i", 2, 95.0, 5, 95, 0, false),
    ]);
    let you = history("you", vec![snapshot("you", "i", 1, 100.0, 5, 95, 0, false)]);
    let trend = StakeTrend { velocity_lamports_per_epoch: sol(5.0) as i64, acceleration_lamports: 0 };
    assert_eq!(analyze_threats(&vec![two], &vec![trend], "you", 15).len(), 0);
    let two = history("peer", vec![
        snapshot("peer", "i", 1, 90.0, 5, 95, 0, false),
        snapshot("peer", "i", 2, 95.0, 5, 95, 0, false),
    ]);
    let t1 = StakeTrend { velocity_lamports_per_epoch: sol(5.0) as i64, acceleration_lamports: 0 };
    let t2 = StakeTrend { velocity_lamports_per_epoch: sol(5.0) as i64, acceleration_lamports: 0 };
    assert_eq!(analyze_threats(&vec![you, two], &vec![t1, t2], "you", 15).len(), 0);
}

#[test]
fn grouping_collects_each_validator_in_epoch_order() {
    let snaps = vec![
        snapshot("b", "i", 3, 1.0, 5, 95, 0, false),
        snapshot("a", "i", 2, 2.0, 5, 95, 0, false),
        snapshot("b", "i", 1, 3.0, 5, 95, 0, false),
        snapshot("a", "i", 1, 4.0, 5, 95, 0, false),
    ];
    let groups = group_by_validator(&snaps);
    assert_eq!(groups.len(), 2);
    for g in &groups {
        assert_eq!(g.snapshots.len(), 2);
        assert!(g.snapshots.iter().all(|s| s.vote_pubkey == g.vote_pubkey));
        assert!(g.snapshots[0].epoch <= g.snapshots[1].epoch);
    }
}

#[test]
fn gaming_signals_respect_the_threshold_and_are_confidence_ordered() {
    let histories = vec![history(
        "vote-a",
        vec![
            snapshot("vote-a", "identity-a", 1, 10_000.0, 0, 80, 20_000, false),
            snapshot("vote-a", "identity-a", 2, 11_000.0, 0, 80, 20_000, false),
            snapshot("vote-a", "identity-a", 3, 12_500.0, 0, 80, 20_000, false),
            snapshot("vote-a", "identity-a", 4, 13_200.0, 0, 80, 20_000, false),
        ],
    )];
    let stake_accounts = vec![
        record("vote-a", "identity-a", "identity-a", 5_000.0),
        record("vote-a", "identity-a", "identity-a", 1_500.0),
        record("vote-a", "other", "other", 3_000.0),
    ];
    let signals = detect_gaming_signals(&histories, &stake_accounts, 600_000);
    assert_eq!(signals.len(), 1);
    // 0.45 + 0.35 * 6500/9500 + 0.3 * 3200/10000, in parts per million, parts rounded down.
    assert_eq!(signals[0].confidence_ppm, 450_000 + 239_473 + 96_000);
    assert_eq!(signals[0].first_detected_epoch, 4);
    let none = detect_gaming_signals(&histories, &stake_accounts, 900_000);
    assert_eq!(none.len(), 0);
}

#[test]
fn sybil_cluster_confidence_counts_members_and_stake() {
    let mk = |v: &str, id: &str, s: f64| history(v, vec![
        snapshot(v, id, 1, s, 5, 80, 0, false),
        snapshot(v, id, 2, s, 5, 80, 0, false),
        snapshot(v, id, 3, s, 5, 80, 0, false),
        snapshot(v, id, 4, s, 5, 80, 0, false),
    ]);
    let histories = vec![mk("vote-1", "id-1", 4000.0), mk("vote-2", "id-2", 5000.0), mk("vote-3", "id-3", 6000.0)];
    let stake_accounts = vec![
        record("vote-1", "shared-authority", "shared-authority", 4_500.0),
        record("vote-2", "shared-authority", "shared-authority", 5_500.0),
        record("vote-3", "shared-authority", "shared-authority", 6_500.0),
    ];
    let signals = detect_gaming_signals(&histories, &stake_accounts, 600_000);
    let sybil: Vec<_> = signals.iter().filter(|s| s.signal_type == GamingType::SybilCluster).collect();
    assert_eq!(sybil.len(), 3);
    // 0.55 + 3 * 0.1 + 16,500 SOL / 1,000,000 SOL: each validator's stake counts once,
    // though its account names the authority as staker and as withdrawer.
    assert!(sybil.iter().all(|s| s.confidence_ppm == 550_000 + 300_000 + 16_500));
    for w in signals.windows(2) {
        assert!(w[0].confidence_ppm >= w[1].confidence_ppm);
    }
    // Two accounts with the authority are not a cluster.
    let pair = vec![
        record("vote-1", "shared-authority", "shared-authority", 4_500.0),
        record("vote-2", "shared-authority", "shared-authority", 5_500.0),
    ];
    let few = detect_gaming_signals(&histories, &pair, 600_000);
    assert!(few.iter().all(|s| s.signal_type != GamingType::SybilCluster));
}

#[test]
fn commission_sniping_is_detected() {
    let h = history("s", vec![
        snapshot("s", "i", 1, 1000.0, 10, 80, 0, false),
        snapshot("s", "i", 2, 1000.0, 2, 80, 0, false),
        snapshot("s", "i", 3, 1000.0, 10, 80, 0, false),
        snapshot("s", "i", 4, 1000.0, 10, 80, 0, false),
    ]);
    let signals = detect_gaming_signals(&vec![h], &Vec::new(), 0);
    let snipe: Vec<_> = signals.iter().filter(|s| s.signal_type == GamingType::CommissionSniping).collect();
    assert_eq!(snipe.len(), 1);
    // 0.55 + 0.05 * (8 + 8) capped at 0.96.
    assert_eq!(snipe[0].confidence_ppm, 960_000);
}

#[test]
fn one_signal_per_validator_and_kind() {
    let mk = |v: &str, id: &str, s: f64| history(v, vec![
        snapshot(v, id, 1, s, 5, 80, 0, false),
        snapshot(v, id, 2, s, 5, 80, 0, false),
        snapshot(v, id, 3, s, 5, 80, 0, false),
        snapshot(v, id, 4, s, 5, 80, 0, false),
    ]);
    let histories = vec![mk("vote-1", "id-1", 4000.0), mk("vote-2", "id-2", 5000.0), mk("vote-3", "id-3", 6000.0)];
    let mut stake_accounts = Vec::new();
    for (v, s) in [("vote-1", 4_500.0), ("vote-2", 5_500.0), ("vote-3", 6_500.0)] {
        stake_accounts.push(record(v, "authority-a", "authority-a", s));
        stake_accounts.push(record(v, "authority-b", "authority-b", s));
    }
    let signals = detect_gaming_signals(&histories, &stake_accounts, 0);
    let mut sybil: Vec<&str> = signals
        .iter()
        .filter(|s| s.signal_type == GamingType::SybilCluster)
        .map(|s| s.vote_pubkey.as_str())
        .collect();
    sybil.sort();
    assert_eq!(sybil, vec!["vote-1", "vote-2", "vote-3"]);
    assert!(signals.iter().all(|s| s.confidence_ppm <= 1_000_000));
}

#[test]
fn more_stake_never_means_a_smaller_tier() {
    let tiers = [9_999.0, 10_000.0, 50_001.0, 200_001.0, 1_000_001.0];
    let ranks: Vec<usize> = tiers
        .iter()
        .map(|s| {
            match snapshot("v", "i", 1, *s, 5, 80, 0, false).stake_tier_bucket() {
                StakeTierBucket::Micro => 0,
                StakeTierBucket::Small => 1,
                StakeTierBucket::Mid => 2,
                StakeTierBucket::Large => 3,
                StakeTierBucket::Whale => 4,
            }
        })
        .collect();
    assert_eq!(ranks, vec![0, 1, 2, 3, 4]);
}

#[test]
fn sybil_stake_counts_each_validator_once() {
    let mk = |v: &str, id: &str| history(v, vec![
        snapshot(v, id, 1, 2_000.0, 5, 80, 0, false),
        snapshot(v, id, 2, 2_000.0, 5, 80, 0, false),
        snapshot(v, id, 3, 2_000.0, 5, 80, 0, false),
        snapshot(v, id, 4, 2_000.0, 5, 80, 0, false),
    ]);
    let histories = vec![mk("v1", "i1"), mk("v2", "i2"), mk("v3", "i3")];
    let stake_accounts = vec![
        record("v1", "A", "A", 2_000.0),
        record("v2", "A", "A", 2_000.0),
        record("v3", "A", "A", 2_000.0),
    ];
    // Together 6,000 SOL: below the 10,000 SOL a cluster needs.
    let signals = detect_gaming_signals(&histories, &stake_accounts, 0);
    assert!(signals.iter().all(|s| s.signal_type != GamingType::SybilCluster));
}

#[test]
fn sybil_cluster_members_and_peers_are_ascending() {
    let mk = |v: &str, id: &str| history(v, vec![
        snapshot(v, id, 1, 5_000.0, 5, 80, 0, false),
        snapshot(v, id, 2, 5_000.0, 5, 80, 0, false),
        snapshot(v, id, 3, 5_000.0, 5, 80, 0, false),
        snapshot(v, id, 4, 5_000.0, 5, 80, 0, false),
    ]);
    let histories = vec![mk("vote-c", "i1"), mk("vote-a", "i2"), mk("vote-b", "i3")];
    let stake_accounts = vec![
        record("vote-c", "A", "A", 5_000.0),
        record("vote-a", "A", "A", 5_000.0),
        record("vote-b", "A", "A", 5_000.0),
    ];
    let signals = detect_gaming_signals(&histories, &stake_accounts, 0);
    let members: Vec<&str> = signals
        .iter()
        .filter(|s| s.signal_type == GamingType::SybilCluster)
        .map(|s| s.vote_pubkey.as_str())
        .collect();
    assert_eq!(members, vec!["vote-a", "vote-b", "vote-c"]);
    for s in signals.iter().filter(|s| s.signal_type == GamingType::SybilCluster) {
        match &s.evidence {
            GamingEvidence::SharedAuthority { authority, peers, combined_lamports } => {
                assert_eq!(authority, "A");
                assert_eq!(peers, &vec!["vote-a".to_string(), "vote-b".to_string(), "vote-c".to_string()]);
                assert_eq!(*combined_lamports, sol(15_000.0) as u128);
            },
            _ => panic!("expected shared authority evidence"),
        }
    }
}

#[test]
fn grouping_keeps_same_epoch_snapshots_in_given_order() {
    let snaps = vec![
        snapshot("a", "i", 2, 1.0, 5, 95, 0, false),
        snapshot("a", "i", 1, 2.0, 5, 95, 0, false),
        snapshot("a", "i", 1, 3.0, 5, 95, 0, false),
        snapshot("a", "i", 2, 4.0, 5, 95, 0, false),
    ];
    let groups = group_by_validator(&snaps);
    assert_eq!(groups.len(), 1);
    let stakes: Vec<u64> = groups[0].snapshots.iter().map(|s| s.activated_stake_lamports).collect();
    assert_eq!(stakes, vec![sol(2.0), sol(3.0), sol(1.0), sol(4.0)]);
}

fn inflation_confidence(identity_lamports: u64, other_lamports: u64) -> Option<u64> {
    let histories = vec![history(
        "vote-a",
        vec![
            snapshot("vote-a", "identity-a", 1, 10_000.0, 0, 80, 20_000, false),
            snapshot("vote-a", "identity-a", 2, 11_000.0, 0, 80, 20_000, false),
            snapshot("vote-a", "identity-a", 3, 12_500.0, 0, 80, 20_000, false),
            snapshot("vote-a", "identity-a", 4, 13_200.0, 0, 80, 20_000, false),
        ],
    )];
    let mut linked = record("vote-a", "identity-a", "identity-a", 0.0);
    linked.delegated_stake_lamports = identity_lamports;
    let mut other = record("vote-a", "other", "other", 0.0);
    other.delegated_stake_lamports = other_lamports;
    detect_gaming_signals(&histories, &vec![linked, other], 0)
        .iter()
        .find(|s| matches!(s.signal_type, GamingType::SelfStakeInflation))
        .map(|s| s.confidence_ppm)
}

#[test]
fn self_stake_inflation_confidence_is_exact() {
    // 6,500 of 9,500 SOL linked: 0.45 + 0.35 x 0.68421 + 0.30 x 0.32 (growth 3,200 over 10,000).
    assert_eq!(inflation_confidence(6_500 * LAMPORTS_PER_SOL, 3_000 * LAMPORTS_PER_SOL), Some(785_473));
}

#[test]
fn self_stake_inflation_needs_more_than_thirty_percent() {
    assert_eq!(inflation_confidence(3_000 * LAMPORTS_PER_SOL, 7_000 * LAMPORTS_PER_SOL), None);
    assert!(inflation_confidence(3_000 * LAMPORTS_PER_SOL + 1, 7_000 * LAMPORTS_PER_SOL).is_some());
}

#[test]
fn self_stake_inflation_handles_totals_near_the_top_of_u128() {
    // Two accounts at the largest stake: half of the total is linked, so the signal stands.
    assert!(inflation_confidence(u64::MAX, u64::MAX).is_some());
}
