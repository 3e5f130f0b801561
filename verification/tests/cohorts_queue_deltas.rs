use stake_radar::analysis::cohort::{build_commission_cohorts, build_stake_tier_cohorts, compute_cohort_flows};
use stake_radar::analysis::queue::{infer_queue_position, PoolScore};
use stake_radar::models::{
    CohortId, CommissionBucket, QueueDirection, StakePoolId, StakeTierBucket, ValidatorSnapshot, LAMPORTS_PER_SOL,
};
use stake_radar::snapshot::diff::compute_deltas;

fn snap(vote: &str, epoch: u64, stake_sol: u64, commission: u8, credits: u64, skip_ppm: u32) -> ValidatorSnapshot {
    ValidatorSnapshot {
        vote_pubkey: vote.to_string(),
        identity: "id".to_string(),
        epoch,
        slot_captured: 0,
        activated_stake_lamports: stake_sol * LAMPORTS_PER_SOL,
        commission_pct: commission,
        vote_credits_epoch: credits,
        vote_credits_prior_epoch: 0,
        skip_rate_ppm: skip_ppm,
        delinquent: false,
        version: None,
        dc_location: None,
        superminority_member: false,
    }
}

fn tier(id: &CohortId) -> Option<StakeTierBucket> {
    match id {
        CohortId::StakeTier(b) => Some(*b),
        _ => None,
    }
}

#[test]
fn tier_cohorts_partition_validators_largest_first() {
    let snaps = vec![
        snap("w", 1, 2_000_000, 5, 0, 0),
        snap("m1", 1, 60_000, 4, 0, 0),
        snap("m2", 1, 70_000, 9, 0, 0),
        snap("s", 1, 10_000, 0, 0, 0),
        snap("l", 1, 200_001, 10, 0, 0),
    ];
    let cohorts = build_stake_tier_cohorts(&snaps);
    let rows: Vec<(Option<StakeTierBucket>, u32, u128, u64)> = cohorts
        .iter()
        .map(|c| (tier(&c.id), c.member_count, c.total_stake_lamports, c.avg_commission_milli))
        .collect();
    let sol = LAMPORTS_PER_SOL as u128;
    assert_eq!(rows, vec![
        (Some(StakeTierBucket::Whale), 1, 2_000_000 * sol, 5_000),
        (Some(StakeTierBucket::Large), 1, 200_001 * sol, 10_000),
        (Some(StakeTierBucket::Mid), 2, 130_000 * sol, 6_500),
        (Some(StakeTierBucket::Small), 1, 10_000 * sol, 0),
    ]);
    assert_eq!(cohorts.iter().map(|c| c.member_count as usize).sum::<usize>(), snaps.len());
    assert_eq!(cohorts[2].label, "mid");
    assert_eq!(snaps[3].stake_tier_bucket(), StakeTierBucket::Small);
    assert_eq!(snap("x", 1, 9_999, 0, 0, 0).stake_tier_bucket(), StakeTierBucket::Micro);
}

#[test]
fn commission_cohorts_use_the_documented_buckets() {
    let snaps = vec![
        snap("a", 1, 1, 0, 0, 0),
        snap("b", 1, 2, 5, 0, 0),
        snap("c", 1, 3, 6, 0, 0),
        snap("d", 1, 4, 11, 0, 0),
        snap("e", 1, 5, 7, 0, 0),
    ];
    let cohorts = build_commission_cohorts(&snaps);
    let ids: Vec<Option<CommissionBucket>> = cohorts
        .iter()
        .map(|c| match &c.id {
            CohortId::Commission(b) => Some(*b),
            _ => None,
        })
        .collect();
    assert_eq!(ids, vec![
        Some(CommissionBucket::Standard),
        Some(CommissionBucket::High),
        Some(CommissionBucket::Low),
        Some(CommissionBucket::Zero),
    ]);
    assert_eq!(cohorts[0].member_count, 2);
    assert_eq!(cohorts[0].avg_commission_milli, 6_500);
    assert_eq!(snaps[2].commission_bucket(), CommissionBucket::Standard);
}

#[test]
fn flows_follow_validators_that_change_tier() {
    let from = vec![snap("a", 1, 40_000, 5, 0, 0), snap("b", 1, 60_000, 5, 0, 0), snap("c", 1, 5_000, 5, 0, 0)];
    let to = vec![snap("a", 2, 60_000, 5, 0, 0), snap("b", 2, 61_000, 5, 0, 0), snap("c", 2, 20_000, 5, 0, 0)];
    let flows = compute_cohort_flows(1, 2, &from, &to);
    assert_eq!(flows.len(), 2);
    // Small -> Mid: (40,000 + 60,000) / 2; Micro -> Small: (5,000 + 20,000) / 2.
    assert_eq!(tier(&flows[0].from_cohort), Some(StakeTierBucket::Small));
    assert_eq!(tier(&flows[0].to_cohort), Some(StakeTierBucket::Mid));
    assert_eq!(flows[0].flow_lamports, 50_000 * LAMPORTS_PER_SOL as u128);
    assert_eq!(tier(&flows[1].from_cohort), Some(StakeTierBucket::Micro));
    assert_eq!(tier(&flows[1].to_cohort), Some(StakeTierBucket::Small));
    assert_eq!(flows[1].flow_lamports, 12_500 * LAMPORTS_PER_SOL as u128);
    assert!(flows.iter().all(|f| f.epoch_range == (1, 2) && f.delegator_count == 0));
    assert!(compute_cohort_flows(1, 2, &from, &vec![]).is_empty());
}

fn score(k: &str, s: i64) -> PoolScore {
    PoolScore { vote_pubkey: k.to_string(), score_key: s }
}

#[test]
fn queue_rank_counts_better_scores() {
    let scores = vec![score("a", 50), score("me", 40), score("b", 70), score("c", 40), score("d", 10)];
    let p = infer_queue_position("me", StakePoolId::Jito, &scores, Some(2)).unwrap();
    assert_eq!(p.pool, StakePoolId::Jito);
    assert_eq!(p.rank, 3);
    assert_eq!(p.total_eligible, 5);
    assert_eq!(p.direction, QueueDirection::Falling);
    assert_eq!(p.entry_index, 1);
    assert_eq!(p.ahead_index, Some(0));
    let q = infer_queue_position("c", StakePoolId::Jito, &scores, Some(9)).unwrap();
    // Equal scores keep their given order.
    assert_eq!(q.rank, 4);
    assert_eq!(q.direction, QueueDirection::Rising);
    assert_eq!(q.ahead_index, Some(1));
    let top = infer_queue_position("b", StakePoolId::Jito, &scores, None).unwrap();
    assert_eq!((top.rank, top.direction, top.ahead_index), (1, QueueDirection::Stable, None));
    assert!(infer_queue_position("zz", StakePoolId::Jito, &scores, None).is_none());
}

#[test]
fn queue_ranks_are_distinct_positions() {
    let scores = vec![score("a", 5), score("b", 5), score("c", 9), score("d", -1)];
    let mut ranks: Vec<u32> = ["a", "b", "c", "d"]
        .iter()
        .map(|k| infer_queue_position(k, StakePoolId::Sanctum, &scores, None).unwrap().rank)
        .collect();
    ranks.sort();
    assert_eq!(ranks, vec![1, 2, 3, 4]);
}

#[test]
fn deltas_compare_each_validator_across_epochs() {
    let from = vec![snap("a", 10, 1_000, 8, 100, 50_000), snap("b", 10, 500, 5, 90, 10_000)];
    let to = vec![snap("b", 11, 400, 10, 95, 20_000), snap("a", 11, 1_300, 5, 130, 40_000), snap("n", 11, 1, 1, 1, 0)];
    let d = compute_deltas(&from, &to);
    assert_eq!(d.len(), 2);
    assert_eq!(d[0].vote_pubkey, "a");
    assert_eq!(d[0].stake_change_lamports, 300 * LAMPORTS_PER_SOL as i128);
    assert_eq!(d[0].stake_change_ppm, 300_000);
    assert_eq!(d[0].commission_change, -3);
    assert_eq!(d[0].vote_credit_delta, 30);
    assert_eq!(d[0].skip_rate_delta_ppm, -10_000);
    assert_eq!((d[0].epoch_from, d[0].epoch_to), (10, 11));
    assert_eq!(d[1].vote_pubkey, "b");
    assert_eq!(d[1].stake_change_ppm, -200_000);
    assert_eq!(d[1].commission_change, 5);
    assert!(compute_deltas(&vec![], &to).is_empty());
}
