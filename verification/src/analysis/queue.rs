//! Stake-pool queue inference: your rank in a pool's ordering of validators by score.
use vstd::prelude::*;
use crate::models::{QueueDirection, StakePoolId};

verus! {

/// A validator's entry in a stake pool's scoring. `score_key` orders entries as the pool's
/// scores are ordered (larger is better): for floating-point scores, the IEEE total order.
pub struct PoolScore {
    pub vote_pubkey: String,
    pub score_key: i64,
}

impl Clone for PoolScore {
    fn clone(&self) -> (res: Self)
        ensures
            res == *self,
    {
        PoolScore { vote_pubkey: self.vote_pubkey.clone(), score_key: self.score_key }
    }
}

/// Where your validator stands in a pool's queue. `entry_index` is the position of your
/// entry in the given scores, `ahead_index` that of the entry ranked just before it.
#[derive(Clone, Copy)]
pub struct PoolQueuePosition {
    pub pool: StakePoolId,
    pub rank: u32,
    pub total_eligible: u32,
    pub direction: QueueDirection,
    pub entry_index: usize,
    pub ahead_index: Option<usize>,
}

/// Entry `j` comes before entry `c` in the queue: a higher score, or an equal score given earlier.
pub open spec fn sorts_before(s: Seq<PoolScore>, j: int, c: int) -> bool {
    s[j].score_key > s[c].score_key || (s[j].score_key == s[c].score_key && j < c)
}

/// Number of entries among the first `m` that come before entry `c`.
pub open spec fn count_before(s: Seq<PoolScore>, c: int, m: int) -> nat
    decreases m,
{
    if m <= 0 {
        0
    } else {
        count_before(s, c, m - 1) + if sorts_before(s, m - 1, c) { 1nat } else { 0nat }
    }
}

pub open spec fn has_entry(s: Seq<PoolScore>, key: Seq<char>) -> bool {
    exists|j: int| 0 <= j < s.len() && (#[trigger] s[j]).vote_pubkey@ == key
}

pub open spec fn direction_of(rank: u32, prior_rank: Option<u32>) -> QueueDirection {
    match prior_rank {
        Some(previous) => if rank < previous {
            QueueDirection::Rising
        } else if rank > previous {
            QueueDirection::Falling
        } else {
            QueueDirection::Stable
        },
        None => QueueDirection::Stable,
    }
}

proof fn lemma_count_before_bound(s: Seq<PoolScore>, c: int, m: int)
    requires
        0 <= m,
    ensures
        count_before(s, c, m) <= m,
    decreases m,
{
    if m > 0 {
        lemma_count_before_bound(s, c, m - 1);
    }
}

/// Your rank among the pool's scores (highest score first; equal scores keep their given
/// order), the number of ranked validators, and the movement against `prior_rank`.
/// `None` when no entry belongs to your vote account. Where your account appears more than
/// once, its best-ranked entry counts.
pub fn infer_queue_position(
    your_vote_pubkey: &str,
    pool: StakePoolId,
    scores: &Vec<PoolScore>,
    prior_rank: Option<u32>,
) -> (r: Option<PoolQueuePosition>)
    ensures
        r is None <==> !has_entry(scores@, your_vote_pubkey@),
        r matches Some(p) ==> {
            let c = p.entry_index as int;
            let cnt = count_before(scores@, c, scores.len() as int);
            &&& p.pool == pool
            &&& 0 <= c < scores.len()
            &&& scores@[c].vote_pubkey@ == your_vote_pubkey@
            &&& forall|j: int| 0 <= j < scores.len() && j != c && (#[trigger] scores@[j]).vote_pubkey@
                == your_vote_pubkey@ ==> sorts_before(scores@, c, j)
            &&& p.rank == (cnt + 1) as u32
            &&& p.total_eligible == scores.len() as u32
            &&& p.direction == direction_of(p.rank, prior_rank)
            &&& (p.ahead_index is None <==> cnt == 0)
            &&& p.ahead_index matches Some(a) ==> {
                &&& 0 <= a < scores.len()
                &&& sorts_before(scores@, a as int, c)
                &&& forall|j: int| 0 <= j < scores.len() && j != a && #[trigger] sorts_before(scores@, j, c)
                    ==> sorts_before(scores@, j, a as int)
            }
        },
{
    let your_key = String::from_str(your_vote_pubkey);
    let n = scores.len();
    let mut best: Option<usize> = None;
    let mut i: usize = 0;
    while i < n
        invariant
            n == scores.len(),
            i <= n,
            your_key@ == your_vote_pubkey@,
            best is None ==> forall|j: int| 0 <= j < i ==> (#[trigger] scores@[j]).vote_pubkey@ != your_vote_pubkey@,
            best matches Some(b) ==> {
                &&& b < i
                &&& scores@[b as int].vote_pubkey@ == your_vote_pubkey@
                &&& forall|j: int| 0 <= j < i && j != b && (#[trigger] scores@[j]).vote_pubkey@
                    == your_vote_pubkey@ ==> sorts_before(scores@, b as int, j)
            },
        decreases n - i,
    {
        if scores[i].vote_pubkey == your_key {
            match best {
                None => {
                    best = Some(i);
                },
                Some(b) => {
                    if scores[i].score_key > scores[b].score_key {
                        best = Some(i);
                    }
                },
            }
        }
        i = i + 1;
    }
    let c = match best {
        None => {
            return None;
        },
        Some(c) => c,
    };
    assert(has_entry(scores@, your_vote_pubkey@));
    let mut cnt: usize = 0;
    let mut ahead: Option<usize> = None;
    let mut k: usize = 0;
    while k < n
        invariant
            n == scores.len(),
            c < n,
            k <= n,
            cnt == count_before(scores@, c as int, k as int),
            ahead is None <==> cnt == 0,
            cnt == 0 ==> forall|j: int| 0 <= j < k ==> !#[trigger] sorts_before(scores@, j, c as int),
            ahead matches Some(a) ==> {
                &&& a < k
                &&& sorts_before(scores@, a as int, c as int)
                &&& forall|j: int| 0 <= j < k && j != a && #[trigger] sorts_before(scores@, j, c as int)
                    ==> sorts_before(scores@, j, a as int)
            },
        decreases n - k,
    {
        proof {
            lemma_count_before_bound(scores@, c as int, k as int);
        }
        let before = scores[k].score_key > scores[c].score_key || (scores[k].score_key
            == scores[c].score_key && k < c);
        if before {
            cnt = cnt + 1;
            match ahead {
                None => {
                    ahead = Some(k);
                },
                Some(a) => {
                    if scores[k].score_key <= scores[a].score_key {
                        ahead = Some(k);
                    }
                },
            }
        }
        k = k + 1;
    }
    let rank: u32 = ((cnt as u128) + 1) as u32;
    let direction = match prior_rank {
        Some(previous) => if rank < previous {
            QueueDirection::Rising
        } else if rank > previous {
            QueueDirection::Falling
        } else {
            QueueDirection::Stable
        },
        None => QueueDirection::Stable,
    };
    Some(
        PoolQueuePosition {
            pool,
            rank,
            total_eligible: n as u32,
            direction,
            entry_index: c,
            ahead_index: ahead,
        },
    )
}

} // verus!
