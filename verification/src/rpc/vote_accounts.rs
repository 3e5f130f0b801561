//! Conversion of `getVoteAccounts` results into validator snapshots.
use vstd::prelude::*;
use crate::models::ValidatorSnapshot;

verus! {

/// A vote account as `getVoteAccounts` reports it; `epoch_credits` holds
/// `(epoch, credits, previous credits)` triples, oldest first.
pub struct VoteAccountRecord {
    pub vote_pubkey: String,
    pub node_pubkey: String,
    pub activated_stake: u64,
    pub commission: u8,
    pub epoch_credits: Vec<(u64, u64, u64)>,
}

/// The credits and previous credits of the latest epoch entry, or zeros.
pub open spec fn latest_credits_spec(credits: Seq<(u64, u64, u64)>) -> (u64, u64) {
    if credits.len() == 0 {
        (0, 0)
    } else {
        (credits.last().1, credits.last().2)
    }
}

/// Skip rate implied by the credits: one minus the share of the credits earned since the
/// previous entry (parts per million, rounded down; zero without credits).
pub open spec fn skip_rate_ppm_of(credits: u64, prior: u64) -> int {
    if credits == 0 {
        0
    } else {
        let earned: int = if credits >= prior { credits - prior } else { 0 };
        (credits - earned) * 1_000_000 / (credits as int)
    }
}

pub fn latest_epoch_credits(credits: &Vec<(u64, u64, u64)>) -> (r: (u64, u64))
    ensures
        r == latest_credits_spec(credits@),
{
    let n = credits.len();
    if n == 0 {
        (0, 0)
    } else {
        (credits[n - 1].1, credits[n - 1].2)
    }
}

/// The snapshot of a vote account at `epoch`, captured at `slot_captured`.
pub open spec fn snapshot_spec(a: VoteAccountRecord, epoch: u64, slot_captured: u64, delinquent: bool) -> ValidatorSnapshot {
    let (credits, prior) = latest_credits_spec(a.epoch_credits@);
    ValidatorSnapshot {
        vote_pubkey: a.vote_pubkey,
        identity: a.node_pubkey,
        epoch,
        slot_captured,
        activated_stake_lamports: a.activated_stake,
        commission_pct: a.commission,
        vote_credits_epoch: credits,
        vote_credits_prior_epoch: prior,
        skip_rate_ppm: skip_rate_ppm_of(credits, prior) as u32,
        delinquent,
        version: None,
        dc_location: None,
        superminority_member: false,
    }
}

pub fn account_to_snapshot(account: &VoteAccountRecord, epoch: u64, slot_captured: u64, delinquent: bool) -> (s: ValidatorSnapshot)
    ensures
        s == snapshot_spec(*account, epoch, slot_captured, delinquent),
        s.skip_rate_ppm <= 1_000_000,
{
    let (credits, prior) = latest_epoch_credits(&account.epoch_credits);
    let earned: u64 = credits.saturating_sub(prior);
    let skip: u128 = if credits == 0 {
        0
    } else {
        ((credits - earned) as u128) * 1_000_000 / (credits as u128)
    };
    proof {
        if credits != 0 {
            assert(skip <= 1_000_000) by (nonlinear_arith)
                requires
                    skip == ((credits - earned) as int) * 1_000_000 / (credits as int),
                    earned <= credits,
                    credits > 0,
            ;
        }
    }
    ValidatorSnapshot {
        vote_pubkey: account.vote_pubkey.clone(),
        identity: account.node_pubkey.clone(),
        epoch,
        slot_captured,
        activated_stake_lamports: account.activated_stake,
        commission_pct: account.commission,
        vote_credits_epoch: credits,
        vote_credits_prior_epoch: prior,
        skip_rate_ppm: skip as u32,
        delinquent,
        version: None,
        dc_location: None,
        superminority_member: false,
    }
}

/// Snapshots of the current vote accounts, then of the delinquent ones.
pub fn snapshots_from_vote_accounts(
    current: &Vec<VoteAccountRecord>,
    delinquent: &Vec<VoteAccountRecord>,
    epoch: u64,
    slot_captured: u64,
) -> (out: Vec<ValidatorSnapshot>)
    ensures
        out.len() == current.len() + delinquent.len(),
        forall|i: int| 0 <= i < current.len() ==> #[trigger] out@[i] == snapshot_spec(current@[i], epoch, slot_captured, false),
        forall|i: int| 0 <= i < delinquent.len() ==> #[trigger] out@[current.len() + i] == snapshot_spec(
            delinquent@[i],
            epoch,
            slot_captured,
            true,
        ),
{
    let mut out: Vec<ValidatorSnapshot> = Vec::new();
    let mut i: usize = 0;
    while i < current.len()
        invariant
            i <= current.len(),
            out.len() == i,
            forall|j: int| 0 <= j < i ==> #[trigger] out@[j] == snapshot_spec(current@[j], epoch, slot_captured, false),
        decreases current.len() - i,
    {
        out.push(account_to_snapshot(&current[i], epoch, slot_captured, false));
        i = i + 1;
    }
    let mut k: usize = 0;
    while k < delinquent.len()
        invariant
            k <= delinquent.len(),
            out.len() == current.len() + k,
            forall|j: int| 0 <= j < current.len() ==> #[trigger] out@[j] == snapshot_spec(current@[j], epoch, slot_captured, false),
            forall|j: int| 0 <= j < k ==> #[trigger] out@[current.len() + j] == snapshot_spec(
                delinquent@[j],
                epoch,
                slot_captured,
                true,
            ),
        decreases delinquent.len() - k,
    {
        out.push(account_to_snapshot(&delinquent[k], epoch, slot_captured, true));
        k = k + 1;
    }
    out
}

} // verus!
