use stake_radar::rpc::rate_limiter::{RateLimiter, MAX_DELAY_NANOS, UNLIMITED_RATE_DELAY_NANOS};
use stake_radar::rpc::vote_accounts::{account_to_snapshot, latest_epoch_credits, snapshots_from_vote_accounts, VoteAccountRecord};
use stake_radar::rpc::{classify_rpc_reply, RpcReply};
use stake_radar::snapshot::history_window_start;

const MS: u64 = 1_000_000;

#[test]
fn limiter_starts_at_one_over_the_rate() {
    let r = RateLimiter::new(10);
    assert_eq!(r.min_delay_nanos, 100 * MS);
    assert_eq!(r.delay_nanos, 100 * MS);
    assert_eq!(r.max_delay_nanos, MAX_DELAY_NANOS);
    assert!(r.last_request_at_nanos.is_none());
    let u = RateLimiter::new(0);
    assert_eq!(u.delay_nanos, UNLIMITED_RATE_DELAY_NANOS);
    assert_eq!(RateLimiter::new(3).min_delay_nanos, 333_333_333);
}

#[test]
fn limiter_spaces_grants_by_the_delay() {
    let mut r = RateLimiter::new(10);
    assert_eq!(r.acquire(1_000 * MS), 0);
    assert_eq!(r.last_request_at_nanos, Some(1_000 * MS));
    assert_eq!(r.acquire(1_030 * MS), 70 * MS);
    assert_eq!(r.last_request_at_nanos, Some(1_100 * MS));
    assert_eq!(r.acquire(1_500 * MS), 0);
    assert_eq!(r.last_request_at_nanos, Some(1_500 * MS));
}

#[test]
fn limiter_adapts_within_bounds() {
    let mut r = RateLimiter::new(10);
    r.on_error();
    assert_eq!(r.delay_nanos, 125 * MS);
    r.on_error();
    // 156.25 ms rounds to 156 ms.
    assert_eq!(r.delay_nanos, 156 * MS);
    r.on_success();
    // 148.2 ms rounds to 148 ms.
    assert_eq!(r.delay_nanos, 148 * MS);
    for _ in 0..100 {
        r.on_success();
    }
    assert_eq!(r.delay_nanos, r.min_delay_nanos);
    for _ in 0..100 {
        r.on_error();
    }
    assert_eq!(r.delay_nanos, MAX_DELAY_NANOS);
    assert!(r.min_delay_nanos <= r.delay_nanos && r.delay_nanos <= r.max_delay_nanos);
}

#[test]
fn replies_are_classified_and_fed_back() {
    assert!(matches!(classify_rpc_reply(false, true, true, None), RpcReply::HttpFailure));
    assert!(matches!(classify_rpc_reply(true, false, true, None), RpcReply::Malformed));
    assert!(matches!(classify_rpc_reply(true, true, true, None), RpcReply::Delivered));
    assert!(matches!(classify_rpc_reply(true, true, false, None), RpcReply::Empty));
    match classify_rpc_reply(true, true, true, Some((-32601, "Method not found".to_string()))) {
        RpcReply::RemoteError { code, message } => {
            assert_eq!(code, -32601);
            assert_eq!(message, "Method not found");
        },
        _ => panic!("an error object wins over a result"),
    }
    let mut r = RateLimiter::new(10);
    r.settle(&RpcReply::Empty);
    assert_eq!(r.delay_nanos, 125 * MS);
    r.settle(&RpcReply::Malformed);
    assert_eq!(r.delay_nanos, 125 * MS);
    r.settle(&RpcReply::Delivered);
    assert_eq!(r.delay_nanos, 119 * MS);
}

fn account(vote: &str, stake: u64, credits: Vec<(u64, u64, u64)>) -> VoteAccountRecord {
    VoteAccountRecord {
        vote_pubkey: vote.to_string(),
        node_pubkey: format!("node-{vote}"),
        activated_stake: stake,
        commission: 7,
        epoch_credits: credits,
    }
}

#[test]
fn vote_accounts_become_snapshots() {
    assert_eq!(latest_epoch_credits(&vec![]), (0, 0));
    assert_eq!(latest_epoch_credits(&vec![(700, 10, 5), (701, 90, 10)]), (90, 10));
    let s = account_to_snapshot(&account("v", 42, vec![(701, 100, 20)]), 701, 99, false);
    assert_eq!(s.vote_pubkey, "v");
    assert_eq!(s.identity, "node-v");
    assert_eq!(s.activated_stake_lamports, 42);
    assert_eq!(s.commission_pct, 7);
    assert_eq!(s.vote_credits_epoch, 100);
    assert_eq!(s.vote_credits_prior_epoch, 20);
    // 1 - 80/100.
    assert_eq!(s.skip_rate_ppm, 200_000);
    assert_eq!((s.epoch, s.slot_captured, s.delinquent), (701, 99, false));
    let zero = account_to_snapshot(&account("z", 1, vec![]), 1, 1, true);
    assert_eq!(zero.skip_rate_ppm, 0);
    let all = snapshots_from_vote_accounts(
        &vec![account("a", 1, vec![]), account("b", 2, vec![])],
        &vec![account("c", 3, vec![(1, 50, 60)])],
        9,
        10,
    );
    let keys: Vec<(&str, bool)> = all.iter().map(|s| (s.vote_pubkey.as_str(), s.delinquent)).collect();
    assert_eq!(keys, vec![("a", false), ("b", false), ("c", true)]);
    // Credits behind the prior count earn nothing: all skipped.
    assert_eq!(all[2].skip_rate_ppm, 1_000_000);
}

#[test]
fn history_window_covers_the_lookback() {
    assert_eq!(history_window_start(742, 10), 733);
    assert_eq!(history_window_start(742, 1), 742);
    assert_eq!(history_window_start(742, 0), 742);
    assert_eq!(history_window_start(3, 10), 0);
}
