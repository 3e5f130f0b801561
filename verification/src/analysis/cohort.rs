//! Cohorts: validators grouped by stake tier or commission bucket, and the stake that moves
//! between stake tiers from one epoch to another.
use vstd::prelude::*;
use crate::models::{
    cohort_id_text, commission_bucket_of, stake_tier_of, Cohort, CohortFlow, CohortId,
    CommissionBucket, StakeTierBucket, ValidatorSnapshot,
};
use crate::ordering::{sort_desc_by_key, sorted_desc_by};

verus! {

/// The stake tiers in report order.
pub open spec fn tier_at(i: int) -> StakeTierBucket {
    if i == 0 {
        StakeTierBucket::Whale
    } else if i == 1 {
        StakeTierBucket::Large
    } else if i == 2 {
        StakeTierBucket::Mid
    } else if i == 3 {
        StakeTierBucket::Small
    } else {
        StakeTierBucket::Micro
    }
}

/// The commission buckets in report order.
pub open spec fn commission_at(i: int) -> CommissionBucket {
    if i == 0 {
        CommissionBucket::Zero
    } else if i == 1 {
        CommissionBucket::Low
    } else if i == 2 {
        CommissionBucket::Standard
    } else {
        CommissionBucket::High
    }
}

/// Whether cohorts are formed by stake tier (`true`) or by commission bucket (`false`).
pub open spec fn bucket_index(by_tier: bool, s: ValidatorSnapshot) -> int {
    if by_tier {
        match stake_tier_of(s.activated_stake_lamports) {
            StakeTierBucket::Whale => 0,
            StakeTierBucket::Large => 1,
            StakeTierBucket::Mid => 2,
            StakeTierBucket::Small => 3,
            StakeTierBucket::Micro => 4,
        }
    } else {
        match commission_bucket_of(s.commission_pct) {
            CommissionBucket::Zero => 0,
            CommissionBucket::Low => 1,
            CommissionBucket::Standard => 2,
            CommissionBucket::High => 3,
        }
    }
}

pub open spec fn bucket_id(by_tier: bool, b: int) -> CohortId {
    if by_tier {
        CohortId::StakeTier(tier_at(b))
    } else {
        CohortId::Commission(commission_at(b))
    }
}

pub open spec fn bucket_total(by_tier: bool) -> int {
    if by_tier { 5 } else { 4 }
}

/// Members of bucket `b` among the snapshots `s`: their number, summed stake and summed commission.
pub open spec fn bucket_count(s: Seq<ValidatorSnapshot>, by_tier: bool, b: int) -> nat
    decreases s.len(),
{
    if s.len() == 0 {
        0
    } else {
        bucket_count(s.drop_last(), by_tier, b) + if bucket_index(by_tier, s.last()) == b { 1nat } else { 0nat }
    }
}

pub open spec fn bucket_stake(s: Seq<ValidatorSnapshot>, by_tier: bool, b: int) -> nat
    decreases s.len(),
{
    if s.len() == 0 {
        0
    } else {
        bucket_stake(s.drop_last(), by_tier, b) + if bucket_index(by_tier, s.last()) == b {
            s.last().activated_stake_lamports as nat
        } else {
            0nat
        }
    }
}

pub open spec fn bucket_commission(s: Seq<ValidatorSnapshot>, by_tier: bool, b: int) -> nat
    decreases s.len(),
{
    if s.len() == 0 {
        0
    } else {
        bucket_commission(s.drop_last(), by_tier, b) + if bucket_index(by_tier, s.last()) == b {
            s.last().commission_pct as nat
        } else {
            0nat
        }
    }
}

/// What a cohort reports, label aside: id, member count, total stake and mean commission
/// (thousandths of a percent point, rounded down).
pub open spec fn cohort_row(c: Cohort) -> (CohortId, u32, u128, u64) {
    (c.id, c.member_count, c.total_stake_lamports, c.avg_commission_milli)
}

pub open spec fn bucket_row(s: Seq<ValidatorSnapshot>, by_tier: bool, b: int) -> (CohortId, u32, u128, u64) {
    let count = bucket_count(s, by_tier, b);
    (
        bucket_id(by_tier, b),
        count as u32,
        bucket_stake(s, by_tier, b) as u128,
        (bucket_commission(s, by_tier, b) * 1000 / count) as u64,
    )
}

/// Rows of the non-empty buckets among the first `m`, in bucket order.
pub open spec fn bucket_rows(s: Seq<ValidatorSnapshot>, by_tier: bool, m: int) -> Seq<(CohortId, u32, u128, u64)>
    decreases m,
{
    if m <= 0 {
        Seq::empty()
    } else {
        let prev = bucket_rows(s, by_tier, m - 1);
        if bucket_count(s, by_tier, m - 1) > 0 {
            prev.push(bucket_row(s, by_tier, m - 1))
        } else {
            prev
        }
    }
}

pub open spec fn row_stake(r: (CohortId, u32, u128, u64)) -> int {
    r.2 as int
}

fn bucket_index_exec(by_tier: bool, s: &ValidatorSnapshot) -> (i: usize)
    ensures
        i == bucket_index(by_tier, *s),
        i < bucket_total(by_tier),
{
    if by_tier {
        match s.stake_tier_bucket() {
            StakeTierBucket::Whale => 0,
            StakeTierBucket::Large => 1,
            StakeTierBucket::Mid => 2,
            StakeTierBucket::Small => 3,
            StakeTierBucket::Micro => 4,
        }
    } else {
        match s.commission_bucket() {
            CommissionBucket::Zero => 0,
            CommissionBucket::Low => 1,
            CommissionBucket::Standard => 2,
            CommissionBucket::High => 3,
        }
    }
}

fn bucket_id_exec(by_tier: bool, b: usize) -> (id: CohortId)
    ensures
        id == bucket_id(by_tier, b as int),
{
    if by_tier {
        let t = if b == 0 {
            StakeTierBucket::Whale
        } else if b == 1 {
            StakeTierBucket::Large
        } else if b == 2 {
            StakeTierBucket::Mid
        } else if b == 3 {
            StakeTierBucket::Small
        } else {
            StakeTierBucket::Micro
        };
        CohortId::StakeTier(t)
    } else {
        let c = if b == 0 {
            CommissionBucket::Zero
        } else if b == 1 {
            CommissionBucket::Low
        } else if b == 2 {
            CommissionBucket::Standard
        } else {
            CommissionBucket::High
        };
        CohortId::Commission(c)
    }
}

proof fn lemma_bucket_bounds(s: Seq<ValidatorSnapshot>, by_tier: bool, b: int)
    ensures
        bucket_count(s, by_tier, b) <= s.len(),
        bucket_stake(s, by_tier, b) <= s.len() * 0xFFFF_FFFF_FFFF_FFFF,
        bucket_commission(s, by_tier, b) <= bucket_count(s, by_tier, b) * 255,
    decreases s.len(),
{
    if s.len() > 0 {
        lemma_bucket_bounds(s.drop_last(), by_tier, b);
    }
}

fn build_cohorts(snapshots: &Vec<ValidatorSnapshot>, by_tier: bool) -> (out: Vec<Cohort>)
    ensures
        out@.map_values(|c: Cohort| cohort_row(c)).to_multiset() == bucket_rows(
            snapshots@,
            by_tier,
            bucket_total(by_tier),
        ).to_multiset(),
        sorted_desc_by(out@.map_values(|c: Cohort| cohort_row(c)), |r: (CohortId, u32, u128, u64)| row_stake(r)),
        forall|i: int| 0 <= i < out.len() ==> (#[trigger] out@[i]).label@ == cohort_label_text(out@[i].id),
{
    let total: usize = if by_tier { 5 } else { 4 };
    let mut counts: Vec<u128> = Vec::new();
    let mut stakes: Vec<u128> = Vec::new();
    let mut comms: Vec<u128> = Vec::new();
    let mut b: usize = 0;
    while b < total
        invariant
            total == bucket_total(by_tier),
            b <= total,
            counts.len() == b && stakes.len() == b && comms.len() == b,
            forall|x: int| 0 <= x < b ==> counts@[x] == 0 && stakes@[x] == 0 && comms@[x] == 0,
        decreases total - b,
    {
        counts.push(0);
        stakes.push(0);
        comms.push(0);
        b = b + 1;
    }
    let n = snapshots.len();
    let mut i: usize = 0;
    while i < n
        invariant
            n == snapshots.len(),
            total == bucket_total(by_tier),
            i <= n,
            counts.len() == total && stakes.len() == total && comms.len() == total,
            forall|x: int| 0 <= x < total ==> #[trigger] counts@[x] == bucket_count(snapshots@.subrange(0, i as int), by_tier, x),
            forall|x: int| 0 <= x < total ==> #[trigger] stakes@[x] == bucket_stake(snapshots@.subrange(0, i as int), by_tier, x),
            forall|x: int| 0 <= x < total ==> #[trigger] comms@[x] == bucket_commission(snapshots@.subrange(0, i as int), by_tier, x),
        decreases n - i,
    {
        let ghost pre = snapshots@.subrange(0, i as int);
        let ghost post = snapshots@.subrange(0, i + 1);
        assert(post.drop_last() =~= pre);
        let x = bucket_index_exec(by_tier, &snapshots[i]);
        proof {
            lemma_bucket_bounds(pre, by_tier, x as int);
        }
        let c = counts[x] + 1;
        let st = stakes[x] + snapshots[i].activated_stake_lamports as u128;
        let cm = comms[x] + snapshots[i].commission_pct as u128;
        counts.set(x, c);
        stakes.set(x, st);
        comms.set(x, cm);
        i = i + 1;
    }
    assert(snapshots@.subrange(0, n as int) =~= snapshots@);
    let mut rows: Vec<(CohortId, u32, u128, u64)> = Vec::new();
    let mut keys: Vec<u128> = Vec::new();
    let mut b: usize = 0;
    while b < total
        invariant
            n == snapshots.len(),
            total == bucket_total(by_tier),
            b <= total,
            counts.len() == total && stakes.len() == total && comms.len() == total,
            forall|x: int| 0 <= x < total ==> #[trigger] counts@[x] == bucket_count(snapshots@, by_tier, x),
            forall|x: int| 0 <= x < total ==> #[trigger] stakes@[x] == bucket_stake(snapshots@, by_tier, x),
            forall|x: int| 0 <= x < total ==> #[trigger] comms@[x] == bucket_commission(snapshots@, by_tier, x),
            rows.len() == keys.len(),
            rows@ == bucket_rows(snapshots@, by_tier, b as int),
            forall|x: int| 0 <= x < rows.len() ==> keys@[x] == row_stake(#[trigger] rows@[x]),
        decreases total - b,
    {
        if counts[b] > 0 {
            proof {
                lemma_bucket_bounds(snapshots@, by_tier, b as int);
            }
            let avg: u128 = comms[b] * 1000 / counts[b];
            proof {
                assert(avg <= 255_000) by (nonlinear_arith)
                    requires
                        avg == (comms@[b as int] * 1000) / (counts@[b as int] as int),
                        comms@[b as int] <= counts@[b as int] * 255,
                        counts@[b as int] > 0,
                ;
            }
            let id = bucket_id_exec(by_tier, b);
            let row = (id, counts[b] as u32, stakes[b], avg as u64);
            let k: u128 = stakes[b];
            rows.push(row);
            keys.push(k);
        }
        b = b + 1;
    }
    let sorted = sort_desc_by_key(rows, keys, Ghost(|r: (CohortId, u32, u128, u64)| row_stake(r)));
    let mut out: Vec<Cohort> = Vec::new();
    let mut j: usize = 0;
    while j < sorted.len()
        invariant
            j <= sorted.len(),
            out.len() == j,
            forall|x: int| 0 <= x < j ==> cohort_row(#[trigger] out@[x]) == sorted@[x],
            forall|x: int| 0 <= x < j ==> (#[trigger] out@[x]).label@ == cohort_label_text(out@[x].id),
        decreases sorted.len() - j,
    {
        let r = &sorted[j];
        let label = cohort_label(&r.0);
        let id = r.0.clone();
        out.push(Cohort {
            id,
            label,
            member_count: r.1,
            total_stake_lamports: r.2,
            avg_commission_milli: r.3,
        });
        j = j + 1;
    }
    assert(out@.map_values(|c: Cohort| cohort_row(c)) =~= sorted@);
    out
}

/// A cohort's label: the bucket name for tier and commission cohorts, else the full id text.
pub open spec fn cohort_label_text(id: CohortId) -> Seq<char> {
    match id {
        CohortId::StakeTier(b) => crate::models::stake_tier_text(b),
        CohortId::Commission(b) => crate::models::commission_bucket_text(b),
        _ => cohort_id_text(id),
    }
}

fn cohort_label(id: &CohortId) -> (s: String)
    ensures
        s@ == cohort_label_text(*id),
{
    match id {
        CohortId::StakeTier(b) => b.label(),
        CohortId::Commission(b) => b.label(),
        _ => id.label(),
    }
}

/// One cohort per non-empty stake tier, with its member count, total stake and mean
/// commission; largest total stake first.
pub fn build_stake_tier_cohorts(snapshots: &Vec<ValidatorSnapshot>) -> (out: Vec<Cohort>)
    ensures
        out@.map_values(|c: Cohort| cohort_row(c)).to_multiset() == bucket_rows(snapshots@, true, 5).to_multiset(),
        sorted_desc_by(out@.map_values(|c: Cohort| cohort_row(c)), |r: (CohortId, u32, u128, u64)| row_stake(r)),
        forall|i: int| 0 <= i < out.len() ==> (#[trigger] out@[i]).label@ == cohort_label_text(out@[i].id),
{
    build_cohorts(snapshots, true)
}

/// One cohort per non-empty commission bucket, with its member count, total stake and
/// mean commission; largest total stake first.
pub fn build_commission_cohorts(snapshots: &Vec<ValidatorSnapshot>) -> (out: Vec<Cohort>)
    ensures
        out@.map_values(|c: Cohort| cohort_row(c)).to_multiset() == bucket_rows(snapshots@, false, 4).to_multiset(),
        sorted_desc_by(out@.map_values(|c: Cohort| cohort_row(c)), |r: (CohortId, u32, u128, u64)| row_stake(r)),
        forall|i: int| 0 <= i < out.len() ==> (#[trigger] out@[i]).label@ == cohort_label_text(out@[i].id),
{
    build_cohorts(snapshots, false)
}

/// Position of the last snapshot among the first `m` of `s` for the vote account `key`.
pub open spec fn last_index_of(s: Seq<ValidatorSnapshot>, key: Seq<char>, m: int) -> Option<int>
    decreases m,
{
    if m <= 0 {
        None
    } else if s[m - 1].vote_pubkey@ == key {
        Some(m - 1)
    } else {
        last_index_of(s, key, m - 1)
    }
}

/// Snapshot `i` is the last one of its vote account in `s` (a later one would replace it).
pub open spec fn is_last_of_key(s: Seq<ValidatorSnapshot>, i: int) -> bool {
    forall|j: int| i < j < s.len() ==> (#[trigger] s[j]).vote_pubkey@ != s[i].vote_pubkey@
}

pub open spec fn tier_index(lamports: u64) -> int {
    match stake_tier_of(lamports) {
        StakeTierBucket::Whale => 0,
        StakeTierBucket::Large => 1,
        StakeTierBucket::Mid => 2,
        StakeTierBucket::Small => 3,
        StakeTierBucket::Micro => 4,
    }
}

/// The tier move that `from[i]` makes: `(from tier, to tier, summed stake of both epochs)`,
/// when it is the account's entry in `from`, the account appears in `to`, and its tier changed.
pub open spec fn tier_move(from: Seq<ValidatorSnapshot>, to: Seq<ValidatorSnapshot>, i: int) -> Option<(int, int, nat)> {
    if !is_last_of_key(from, i) {
        None
    } else {
        match last_index_of(to, from[i].vote_pubkey@, to.len() as int) {
            None => None,
            Some(j) => {
                let a = tier_index(from[i].activated_stake_lamports);
                let b = tier_index(to[j].activated_stake_lamports);
                if a == b {
                    None
                } else {
                    Some((a, b, (from[i].activated_stake_lamports + to[j].activated_stake_lamports) as nat))
                }
            },
        }
    }
}

/// Number of moves from tier `a` to tier `b` among the first `m` snapshots of `from`.
pub open spec fn move_count(from: Seq<ValidatorSnapshot>, to: Seq<ValidatorSnapshot>, a: int, b: int, m: int) -> nat
    decreases m,
{
    if m <= 0 {
        0
    } else {
        move_count(from, to, a, b, m - 1) + match tier_move(from, to, m - 1) {
            Some(t) => if t.0 == a && t.1 == b { 1nat } else { 0nat },
            None => 0nat,
        }
    }
}

/// Summed two-epoch stake of the moves from tier `a` to tier `b` among the first `m` snapshots.
pub open spec fn move_stake(from: Seq<ValidatorSnapshot>, to: Seq<ValidatorSnapshot>, a: int, b: int, m: int) -> nat
    decreases m,
{
    if m <= 0 {
        0
    } else {
        move_stake(from, to, a, b, m - 1) + match tier_move(from, to, m - 1) {
            Some(t) => if t.0 == a && t.1 == b { t.2 } else { 0nat },
            None => 0nat,
        }
    }
}

/// Flow of a pair of tiers: the mean of each mover's stake in the two epochs, summed
/// (rounded down to whole lamports).
pub open spec fn flow_row_of(from: Seq<ValidatorSnapshot>, to: Seq<ValidatorSnapshot>, p: int) -> (CohortId, CohortId, u128) {
    let a = p / 5;
    let b = p % 5;
    (
        CohortId::StakeTier(tier_at(a)),
        CohortId::StakeTier(tier_at(b)),
        (move_stake(from, to, a, b, from.len() as int) / 2) as u128,
    )
}

/// Flow rows of the tier pairs `p < m` (pair `p` is tier `p / 5` to tier `p % 5`) that saw a move.
pub open spec fn flow_rows(from: Seq<ValidatorSnapshot>, to: Seq<ValidatorSnapshot>, m: int) -> Seq<(CohortId, CohortId, u128)>
    decreases m,
{
    if m <= 0 {
        Seq::empty()
    } else {
        let prev = flow_rows(from, to, m - 1);
        if move_count(from, to, (m - 1) / 5, (m - 1) % 5, from.len() as int) > 0 {
            prev.push(flow_row_of(from, to, m - 1))
        } else {
            prev
        }
    }
}

pub open spec fn flow_row(f: CohortFlow) -> (CohortId, CohortId, u128) {
    (f.from_cohort, f.to_cohort, f.flow_lamports)
}

pub open spec fn flow_row_amount(r: (CohortId, CohortId, u128)) -> int {
    r.2 as int
}

fn last_match(s: &Vec<ValidatorSnapshot>, key: &String) -> (r: Option<usize>)
    ensures
        r matches Some(j) ==> j < s.len() && last_index_of(s@, key@, s.len() as int) == Some(j as int),
        r is None ==> last_index_of(s@, key@, s.len() as int) is None,
{
    let mut m: usize = s.len();
    while m > 0
        invariant
            m <= s.len(),
            last_index_of(s@, key@, s.len() as int) == last_index_of(s@, key@, m as int),
        decreases m,
    {
        if s[m - 1].vote_pubkey == *key {
            return Some(m - 1);
        }
        m = m - 1;
    }
    None
}

fn is_last_exec(s: &Vec<ValidatorSnapshot>, i: usize) -> (b: bool)
    requires
        i < s.len(),
    ensures
        b == is_last_of_key(s@, i as int),
{
    let mut j: usize = i + 1;
    while j < s.len()
        invariant
            i < j <= s.len(),
            forall|t: int| i < t < j ==> (#[trigger] s@[t]).vote_pubkey@ != s@[i as int].vote_pubkey@,
        decreases s.len() - j,
    {
        if s[j].vote_pubkey == s[i].vote_pubkey {
            assert(!is_last_of_key(s@, i as int));
            return false;
        }
        j = j + 1;
    }
    true
}

fn tier_index_exec(lamports: u64) -> (i: usize)
    ensures
        i == tier_index(lamports),
        i < 5,
{
    if lamports > crate::models::WHALE_STAKE_LAMPORTS {
        0
    } else if lamports > crate::models::LARGE_STAKE_LAMPORTS {
        1
    } else if lamports > crate::models::MID_STAKE_LAMPORTS {
        2
    } else if lamports >= crate::models::SMALL_STAKE_LAMPORTS {
        3
    } else {
        4
    }
}

fn tier_of_index(i: usize) -> (t: StakeTierBucket)
    ensures
        t == tier_at(i as int),
{
    if i == 0 {
        StakeTierBucket::Whale
    } else if i == 1 {
        StakeTierBucket::Large
    } else if i == 2 {
        StakeTierBucket::Mid
    } else if i == 3 {
        StakeTierBucket::Small
    } else {
        StakeTierBucket::Micro
    }
}

pub proof fn lemma_move_bounds(from: Seq<ValidatorSnapshot>, to: Seq<ValidatorSnapshot>, a: int, b: int, m: int)
    requires
        0 <= m <= from.len(),
    ensures
        move_count(from, to, a, b, m) <= m,
        move_stake(from, to, a, b, m) <= m * 2 * 0xFFFF_FFFF_FFFF_FFFF,
    decreases m,
{
    if m > 0 {
        lemma_move_bounds(from, to, a, b, m - 1);
    }
}

/// Stake moving between stake tiers from `from_epoch` to `to_epoch`: for every validator in
/// both snapshot sets whose tier changed, the mean of its two stakes counts towards its
/// (from tier, to tier) pair. One flow per pair that saw a move, largest first.
pub fn compute_cohort_flows(
    from_epoch: u64,
    to_epoch: u64,
    from_snapshots: &Vec<ValidatorSnapshot>,
    to_snapshots: &Vec<ValidatorSnapshot>,
) -> (out: Vec<CohortFlow>)
    requires
        from_snapshots.len() <= isize::MAX,
    ensures
        out@.map_values(|f: CohortFlow| flow_row(f)).to_multiset() == flow_rows(from_snapshots@, to_snapshots@, 25).to_multiset(),
        sorted_desc_by(out@.map_values(|f: CohortFlow| flow_row(f)), |r: (CohortId, CohortId, u128)| flow_row_amount(r)),
        forall|i: int| 0 <= i < out.len() ==> (#[trigger] out@[i]).epoch_range == (from_epoch, to_epoch)
            && out@[i].delegator_count == 0,
{
    let mut counts: Vec<u128> = Vec::new();
    let mut sums: Vec<u128> = Vec::new();
    let mut p: usize = 0;
    while p < 25
        invariant
            p <= 25,
            counts.len() == p && sums.len() == p,
            forall|x: int| 0 <= x < p ==> counts@[x] == 0 && sums@[x] == 0,
        decreases 25 - p,
    {
        counts.push(0);
        sums.push(0);
        p = p + 1;
    }
    let n = from_snapshots.len();
    let mut i: usize = 0;
    while i < n
        invariant
            n == from_snapshots.len(),
            n <= isize::MAX,
            i <= n,
            counts.len() == 25 && sums.len() == 25,
            forall|x: int| 0 <= x < 25 ==> #[trigger] counts@[x] == move_count(from_snapshots@, to_snapshots@, x / 5, x % 5, i as int),
            forall|x: int| 0 <= x < 25 ==> #[trigger] sums@[x] == move_stake(from_snapshots@, to_snapshots@, x / 5, x % 5, i as int),
        decreases n - i,
    {
        let ghost old_counts = counts@;
        let ghost old_sums = sums@;
        let ghost mv = tier_move(from_snapshots@, to_snapshots@, i as int);
        if is_last_exec(from_snapshots, i) {
            let key = &from_snapshots[i].vote_pubkey;
            if let Some(j) = last_match(to_snapshots, key) {
                let a = tier_index_exec(from_snapshots[i].activated_stake_lamports);
                let b = tier_index_exec(to_snapshots[j].activated_stake_lamports);
                if a != b {
                    let x = a * 5 + b;
                    proof {
                        lemma_move_bounds(from_snapshots@, to_snapshots@, a as int, b as int, i as int);
                        assert(sums@[x as int] <= i * 2 * 0xFFFF_FFFF_FFFF_FFFF) by {
                            assert(x as int / 5 == a as int && x as int % 5 == b as int);
                        }
                        assert(x / 5 == a && x % 5 == b);
                    }
                    let c = counts[x] + 1;
                    let sm = sums[x] + from_snapshots[i].activated_stake_lamports as u128
                        + to_snapshots[j].activated_stake_lamports as u128;
                    counts.set(x, c);
                    sums.set(x, sm);
                    assert(mv == Some((a as int, b as int, (from_snapshots@[i as int].activated_stake_lamports
                        + to_snapshots@[j as int].activated_stake_lamports) as nat)));
                } else {
                    assert(mv is None);
                }
            } else {
                assert(mv is None);
            }
        } else {
            assert(mv is None);
        }
        assert forall|y: int| 0 <= y < 25 implies #[trigger] counts@[y] == move_count(from_snapshots@, to_snapshots@, y / 5, y % 5, i + 1)
            && sums@[y] == move_stake(from_snapshots@, to_snapshots@, y / 5, y % 5, i + 1) by {
            assert(old_counts[y] == move_count(from_snapshots@, to_snapshots@, y / 5, y % 5, i as int));
            assert(old_sums[y] == move_stake(from_snapshots@, to_snapshots@, y / 5, y % 5, i as int));
        }
        i = i + 1;
    }
    let mut rows: Vec<(CohortId, CohortId, u128)> = Vec::new();
    let mut keys: Vec<u128> = Vec::new();
    let mut p: usize = 0;
    while p < 25
        invariant
            n == from_snapshots.len(),
            p <= 25,
            counts.len() == 25 && sums.len() == 25,
            forall|x: int| 0 <= x < 25 ==> #[trigger] counts@[x] == move_count(from_snapshots@, to_snapshots@, x / 5, x % 5, n as int),
            forall|x: int| 0 <= x < 25 ==> #[trigger] sums@[x] == move_stake(from_snapshots@, to_snapshots@, x / 5, x % 5, n as int),
            rows.len() == keys.len(),
            rows@ == flow_rows(from_snapshots@, to_snapshots@, p as int),
            forall|x: int| 0 <= x < rows.len() ==> keys@[x] == flow_row_amount(#[trigger] rows@[x]),
        decreases 25 - p,
    {
        if counts[p] > 0 {
            let from_id = CohortId::StakeTier(tier_of_index(p / 5));
            let to_id = CohortId::StakeTier(tier_of_index(p % 5));
            let amount = sums[p] / 2;
            rows.push((from_id, to_id, amount));
            keys.push(amount);
        }
        p = p + 1;
    }
    let sorted = sort_desc_by_key(rows, keys, Ghost(|r: (CohortId, CohortId, u128)| flow_row_amount(r)));
    let mut out: Vec<CohortFlow> = Vec::new();
    let mut j: usize = 0;
    while j < sorted.len()
        invariant
            j <= sorted.len(),
            out.len() == j,
            forall|x: int| 0 <= x < j ==> flow_row(#[trigger] out@[x]) == sorted@[x],
            forall|x: int| 0 <= x < j ==> (#[trigger] out@[x]).epoch_range == (from_epoch, to_epoch)
                && out@[x].delegator_count == 0,
        decreases sorted.len() - j,
    {
        let r = &sorted[j];
        out.push(CohortFlow {
            from_cohort: r.0.clone(),
            to_cohort: r.1.clone(),
            flow_lamports: r.2,
            epoch_range: (from_epoch, to_epoch),
            delegator_count: 0,
        });
        j = j + 1;
    }
    assert(out@.map_values(|f: CohortFlow| flow_row(f)) =~= sorted@);
    out
}

} // verus!
