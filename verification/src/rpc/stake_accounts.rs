//! Stake account records.
use vstd::prelude::*;

verus! {

/// A stake account: where it delegates, its authorities, and its delegated stake in lamports.
pub struct StakeAccountRecord {
    pub stake_pubkey: String,
    pub delegated_vote_pubkey: Option<String>,
    pub staker: Option<String>,
    pub withdrawer: Option<String>,
    pub delegated_stake_lamports: u64,
}

} // verus!
