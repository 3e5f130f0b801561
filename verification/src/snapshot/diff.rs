//! Per-validator deltas between two epochs' snapshot sets.
use vstd::prelude::*;
use crate::analysis::cohort::last_index_of;
use crate::models::{ValidatorDelta, ValidatorSnapshot};
use crate::ordering::{sort_desc_by_key, sorted_desc_by};

verus! {

/// `change * 1_000_000 / base`, rounded toward zero.
pub open spec fn ratio_ppm(change: int, base: int) -> int {
    if base == 0 {
        0
    } else if change >= 0 {
        change * 1_000_000 / base
    } else {
        -((-change) * 1_000_000 / base)
    }
}

/// The delta that `to[i]` gives against the account's (last) snapshot in `from`.
pub open spec fn delta_of(
    from: Seq<ValidatorSnapshot>,
    to: Seq<ValidatorSnapshot>,
    i: int,
    from_epoch: u64,
    to_epoch: u64,
) -> Option<ValidatorDelta> {
    match last_index_of(from, to[i].vote_pubkey@, from.len() as int) {
        None => None,
        Some(j) => {
            let prev = from[j];
            let cur = to[i];
            let change = cur.activated_stake_lamports - prev.activated_stake_lamports;
            Some(
                ValidatorDelta {
                    vote_pubkey: cur.vote_pubkey,
                    epoch_from: from_epoch,
                    epoch_to: to_epoch,
                    stake_change_lamports: change as i128,
                    stake_change_ppm: ratio_ppm(change, prev.activated_stake_lamports as int) as i128,
                    commission_change: (cur.commission_pct - prev.commission_pct) as i16,
                    vote_credit_delta: (cur.vote_credits_epoch - prev.vote_credits_epoch) as i128,
                    skip_rate_delta_ppm: (cur.skip_rate_ppm - prev.skip_rate_ppm) as i64,
                },
            )
        },
    }
}

/// Deltas of the first `m` snapshots of `to`, in order.
pub open spec fn delta_candidates(
    from: Seq<ValidatorSnapshot>,
    to: Seq<ValidatorSnapshot>,
    m: int,
    from_epoch: u64,
    to_epoch: u64,
) -> Seq<ValidatorDelta>
    decreases m,
{
    if m <= 0 {
        Seq::empty()
    } else {
        let prev = delta_candidates(from, to, m - 1, from_epoch, to_epoch);
        match delta_of(from, to, m - 1, from_epoch, to_epoch) {
            Some(d) => prev.push(d),
            None => prev,
        }
    }
}

pub open spec fn abs_change(d: ValidatorDelta) -> int {
    if d.stake_change_lamports >= 0 {
        d.stake_change_lamports as int
    } else {
        -(d.stake_change_lamports as int)
    }
}

fn last_match(s: &Vec<ValidatorSnapshot>, key: &String) -> (r: Option<usize>)
    ensures
        r matches Some(j) ==> j < s.len() && last_index_of(s@, key@, s.len() as int) == Some(j as int),
        r is None ==> last_index_of(s@, key@, s.len() as int) is None,
{
    let mut m: usize = s.len();
    while m > 0
        invariant
            m <= s.len(),
            last_index_of(s@, key@, s.len() as int) == last_index_of(s@, key@, m as int),
        decreases m,
    {
        if s[m - 1].vote_pubkey == *key {
            return Some(m - 1);
        }
        m = m - 1;
    }
    None
}

fn ratio_ppm_exec(change: i128, base: u64) -> (r: i128)
    requires
        -0x1_0000_0000_0000_0000 < change < 0x1_0000_0000_0000_0000,
    ensures
        r == ratio_ppm(change as int, base as int),
{
    if base == 0 {
        0
    } else if change >= 0 {
        change * 1_000_000 / (base as i128)
    } else {
        -((-change) * 1_000_000 / (base as i128))
    }
}

/// For every validator of the later epoch that also appears in the earlier one, the change
/// in stake (absolute and relative), commission, vote credits and skip rate; largest absolute
/// stake change first. Empty when either epoch has no snapshots.
pub fn compute_deltas(
    from_epoch_snapshots: &Vec<ValidatorSnapshot>,
    to_epoch_snapshots: &Vec<ValidatorSnapshot>,
) -> (out: Vec<ValidatorDelta>)
    ensures
        from_epoch_snapshots.len() == 0 || to_epoch_snapshots.len() == 0 ==> out.len() == 0,
        from_epoch_snapshots.len() > 0 && to_epoch_snapshots.len() > 0 ==> {
            &&& out@.to_multiset() == delta_candidates(
                from_epoch_snapshots@,
                to_epoch_snapshots@,
                to_epoch_snapshots.len() as int,
                from_epoch_snapshots@[0].epoch,
                to_epoch_snapshots@[0].epoch,
            ).to_multiset()
            &&& sorted_desc_by(out@, |d: ValidatorDelta| abs_change(d))
        },
{
    if from_epoch_snapshots.len() == 0 || to_epoch_snapshots.len() == 0 {
        return Vec::new();
    }
    let from_epoch = from_epoch_snapshots[0].epoch;
    let to_epoch = to_epoch_snapshots[0].epoch;
    let n = to_epoch_snapshots.len();
    let mut cands: Vec<ValidatorDelta> = Vec::new();
    let mut keys: Vec<u128> = Vec::new();
    let mut i: usize = 0;
    while i < n
        invariant
            n == to_epoch_snapshots.len(),
            i <= n,
            cands.len() == keys.len(),
            cands@ == delta_candidates(from_epoch_snapshots@, to_epoch_snapshots@, i as int, from_epoch, to_epoch),
            forall|x: int| 0 <= x < cands.len() ==> keys@[x] == abs_change(#[trigger] cands@[x]),
        decreases n - i,
    {
        let current = &to_epoch_snapshots[i];
        if let Some(j) = last_match(from_epoch_snapshots, &current.vote_pubkey) {
            let previous = &from_epoch_snapshots[j];
            let change: i128 = current.activated_stake_lamports as i128 - previous.activated_stake_lamports as i128;
            let pct = ratio_ppm_exec(change, previous.activated_stake_lamports);
            let d = ValidatorDelta {
                vote_pubkey: current.vote_pubkey.clone(),
                epoch_from: from_epoch,
                epoch_to: to_epoch,
                stake_change_lamports: change,
                stake_change_ppm: pct,
                commission_change: current.commission_pct as i16 - previous.commission_pct as i16,
                vote_credit_delta: current.vote_credits_epoch as i128 - previous.vote_credits_epoch as i128,
                skip_rate_delta_ppm: current.skip_rate_ppm as i64 - previous.skip_rate_ppm as i64,
            };
            let k: u128 = if change >= 0 {
                change as u128
            } else {
                (-change) as u128
            };
            cands.push(d);
            keys.push(k);
        }
        i = i + 1;
    }
    sort_desc_by_key(cands, keys, Ghost(|d: ValidatorDelta| abs_change(d)))
}

} // verus!
