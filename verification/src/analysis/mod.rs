//! Grouping of snapshots into per-validator histories, and the analyses built on them.
use vstd::prelude::*;
use crate::models::ValidatorSnapshot;

pub mod threat;
pub mod opportunity;
pub mod queue;
pub mod cohort;
pub mod adversarial;

verus! {

/// The snapshots of one validator, oldest epoch first.
pub struct ValidatorHistory {
    pub vote_pubkey: String,
    pub snapshots: Vec<ValidatorSnapshot>,
}

/// The snapshots of `s` whose vote account is `key`, in their order in `s`.
pub open spec fn snapshots_of(s: Seq<ValidatorSnapshot>, key: Seq<char>) -> Seq<ValidatorSnapshot>
    decreases s.len(),
{
    if s.len() == 0 {
        Seq::empty()
    } else {
        let prev = snapshots_of(s.drop_last(), key);
        if s.last().vote_pubkey@ == key {
            prev.push(s.last())
        } else {
            prev
        }
    }
}

/// No two histories share a vote account.
pub open spec fn distinct_keys(h: Seq<ValidatorHistory>) -> bool {
    forall|i: int, j: int|
        0 <= i < h.len() && 0 <= j < h.len() && i != j ==> #[trigger] h[i].vote_pubkey@
            != #[trigger] h[j].vote_pubkey@
}

/// Some history in `h` belongs to the vote account `key`.
pub open spec fn has_history(h: Seq<ValidatorHistory>, key: Seq<char>) -> bool {
    exists|j: int| 0 <= j < h.len() && (#[trigger] h[j]).vote_pubkey@ == key
}

/// `s` is ordered by non-decreasing epoch.
pub open spec fn epochs_ascending(s: Seq<ValidatorSnapshot>) -> bool {
    forall|a: int, b: int| 0 <= a < b < s.len() ==> s[a].epoch <= s[b].epoch
}

proof fn lemma_snapshots_of_members(s: Seq<ValidatorSnapshot>, key: Seq<char>)
    ensures
        forall|i: int| 0 <= i < snapshots_of(s, key).len() ==> (#[trigger] snapshots_of(s, key)[i]).vote_pubkey@ == key,
    decreases s.len(),
{
    if s.len() > 0 {
        lemma_snapshots_of_members(s.drop_last(), key);
    }
}

/// `x` placed after every element of `s` from an epoch no later than its own.
pub open spec fn insert_by_epoch(s: Seq<ValidatorSnapshot>, x: ValidatorSnapshot) -> Seq<ValidatorSnapshot>
    decreases s.len(),
{
    if s.len() == 0 {
        seq![x]
    } else if x.epoch < s[0].epoch {
        seq![x] + s
    } else {
        seq![s[0]] + insert_by_epoch(s.drop_first(), x)
    }
}

/// `s` sorted by epoch, snapshots of the same epoch in their order in `s` (a stable sort).
pub open spec fn epoch_sorted(s: Seq<ValidatorSnapshot>) -> Seq<ValidatorSnapshot>
    decreases s.len(),
{
    if s.len() == 0 {
        Seq::empty()
    } else {
        insert_by_epoch(epoch_sorted(s.drop_last()), s.last())
    }
}

proof fn lemma_insert_by_epoch(s: Seq<ValidatorSnapshot>, x: ValidatorSnapshot)
    requires
        epochs_ascending(s),
    ensures
        epochs_ascending(insert_by_epoch(s, x)),
        insert_by_epoch(s, x).to_multiset() == s.to_multiset().insert(x),
        insert_by_epoch(s, x).len() == s.len() + 1,
        forall|y: ValidatorSnapshot| #[trigger] insert_by_epoch(s, x).contains(y) ==> y == x || s.contains(y),
    decreases s.len(),
{
    broadcast use vstd::seq_lib::group_to_multiset_ensures;
    if s.len() == 0 {
        assert(seq![x] =~= Seq::<ValidatorSnapshot>::empty().push(x));
    } else if x.epoch < s[0].epoch {
        let r = seq![x] + s;
        assert forall|a: int, b: int| 0 <= a < b < r.len() implies r[a].epoch <= r[b].epoch by {
            if a > 0 {
                assert(r[a] == s[a - 1] && r[b] == s[b - 1]);
            } else {
                assert(r[b] == s[b - 1]);
            }
        }
        vstd::seq_lib::lemma_multiset_commutative(seq![x], s);
        assert(seq![x] =~= Seq::<ValidatorSnapshot>::empty().push(x));
        assert forall|y: ValidatorSnapshot| #[trigger] r.contains(y) implies y == x || s.contains(y) by {
            let k = choose|k: int| 0 <= k < r.len() && r[k] == y;
            if k > 0 {
                assert(s[k - 1] == y);
            }
        }
    } else {
        let t = s.drop_first();
        assert forall|a: int, b: int| 0 <= a < b < t.len() implies t[a].epoch <= t[b].epoch by {
            assert(t[a] == s[a + 1] && t[b] == s[b + 1]);
        }
        lemma_insert_by_epoch(t, x);
        let u = insert_by_epoch(t, x);
        let r = seq![s[0]] + u;
        assert forall|a: int, b: int| 0 <= a < b < r.len() implies r[a].epoch <= r[b].epoch by {
            if a == 0 {
                assert(r[b] == u[b - 1]);
                assert(u.contains(u[b - 1]));
                if u[b - 1] != x {
                    let k = choose|k: int| 0 <= k < t.len() && t[k] == u[b - 1];
                    assert(s[k + 1] == u[b - 1]);
                }
            } else {
                assert(r[a] == u[a - 1] && r[b] == u[b - 1]);
            }
        }
        assert(s =~= seq![s[0]] + t);
        vstd::seq_lib::lemma_multiset_commutative(seq![s[0]], t);
        vstd::seq_lib::lemma_multiset_commutative(seq![s[0]], u);
        assert forall|y: ValidatorSnapshot| #[trigger] r.contains(y) implies y == x || s.contains(y) by {
            let k = choose|k: int| 0 <= k < r.len() && r[k] == y;
            if k == 0 {
                assert(s[0] == y);
            } else {
                assert(u[k - 1] == y);
                assert(u.contains(y));
                if y != x {
                    let m = choose|m: int| 0 <= m < t.len() && t[m] == y;
                    assert(s[m + 1] == y);
                }
            }
        }
    }
}

/// A history sorted by epoch is in ascending epoch order and holds the same snapshots.
pub proof fn epoch_sorted_is_ascending(s: Seq<ValidatorSnapshot>)
    ensures
        epochs_ascending(epoch_sorted(s)),
        epoch_sorted(s).to_multiset() == s.to_multiset(),
        epoch_sorted(s).len() == s.len(),
    decreases s.len(),
{
    broadcast use vstd::seq_lib::group_to_multiset_ensures;
    if s.len() > 0 {
        epoch_sorted_is_ascending(s.drop_last());
        lemma_insert_by_epoch(epoch_sorted(s.drop_last()), s.last());
        assert(s =~= s.drop_last().push(s.last()));
    }
}

proof fn lemma_insert_by_epoch_at(s: Seq<ValidatorSnapshot>, x: ValidatorSnapshot, p: int)
    requires
        0 <= p <= s.len(),
        forall|j: int| 0 <= j < p ==> (#[trigger] s[j]).epoch <= x.epoch,
        p < s.len() ==> x.epoch < s[p].epoch,
    ensures
        insert_by_epoch(s, x) == s.insert(p, x),
    decreases s.len(),
{
    if s.len() == 0 {
        assert(s.insert(p, x) =~= seq![x]);
    } else if p == 0 {
        assert(s.insert(0, x) =~= seq![x] + s);
    } else {
        let t = s.drop_first();
        assert forall|j: int| 0 <= j < p - 1 implies (#[trigger] t[j]).epoch <= x.epoch by {
            assert(t[j] == s[j + 1]);
        }
        lemma_insert_by_epoch_at(t, x, p - 1);
        assert(s.insert(p, x) =~= seq![s[0]] + t.insert(p - 1, x));
    }
}

fn key_position(keys: &Vec<String>, key: &String) -> (r: Option<usize>)
    ensures
        r matches Some(i) ==> i < keys.len() && keys@[i as int]@ == key@,
        r is None ==> forall|i: int| 0 <= i < keys.len() ==> (#[trigger] keys@[i])@ != key@,
{
    let mut i: usize = 0;
    while i < keys.len()
        invariant
            i <= keys.len(),
            forall|j: int| 0 <= j < i ==> (#[trigger] keys@[j])@ != key@,
        decreases keys.len() - i,
    {
        if keys[i] == *key {
            return Some(i);
        }
        i = i + 1;
    }
    None
}

/// Groups snapshots by vote account; each history is sorted by epoch, snapshots of the same
/// epoch in their given order.
/// Histories appear in the order in which their vote account first occurs.
pub fn group_by_validator(snapshots: &Vec<ValidatorSnapshot>) -> (out: Vec<ValidatorHistory>)
    ensures
        distinct_keys(out@),
        forall|i: int| 0 <= i < snapshots.len() ==> has_history(out@, (#[trigger] snapshots@[i]).vote_pubkey@),
        forall|j: int| 0 <= j < out.len() ==> (#[trigger] out@[j]).snapshots@
            == epoch_sorted(snapshots_of(snapshots@, out@[j].vote_pubkey@)),
        forall|j: int| 0 <= j < out.len() ==> (#[trigger] out@[j]).snapshots@.to_multiset()
            == snapshots_of(snapshots@, out@[j].vote_pubkey@).to_multiset(),
        forall|j: int| 0 <= j < out.len() ==> epochs_ascending((#[trigger] out@[j]).snapshots@),
        forall|j: int| 0 <= j < out.len() ==> (#[trigger] out@[j]).snapshots.len() > 0,
{
    let n = snapshots.len();
    let mut keys: Vec<String> = Vec::new();
    let ghost mut origin: Seq<int> = Seq::empty();
    let ghost mut slot: Seq<int> = Seq::empty();
    let mut i: usize = 0;
    while i < n
        invariant
            n == snapshots.len(),
            i <= n,
            forall|a: int, b: int|
                0 <= a < keys.len() && 0 <= b < keys.len() && a != b ==> #[trigger] keys@[a]@
                    != #[trigger] keys@[b]@,
            slot.len() == i,
            origin.len() == keys.len(),
            forall|a: int| 0 <= a < i ==> 0 <= #[trigger] slot[a] < keys.len()
                && keys@[slot[a]]@ == snapshots@[a].vote_pubkey@,
            forall|b: int| 0 <= b < keys.len() ==> 0 <= #[trigger] origin[b] < i
                && keys@[b]@ == snapshots@[origin[b]].vote_pubkey@,
        decreases n - i,
    {
        let k = &snapshots[i].vote_pubkey;
        match key_position(&keys, k) {
            Some(p) => {
                proof {
                    slot = slot.push(p as int);
                }
            },
            None => {
                keys.push(k.clone());
                proof {
                    slot = slot.push(keys.len() - 1);
                    origin = origin.push(i as int);
                }
            },
        }
        i = i + 1;
    }
    let mut out: Vec<ValidatorHistory> = Vec::new();
    let mut g: usize = 0;
    while g < keys.len()
        invariant
            n == snapshots.len(),
            g <= keys.len(),
            out.len() == g,
            forall|a: int, b: int|
                0 <= a < keys.len() && 0 <= b < keys.len() && a != b ==> #[trigger] keys@[a]@
                    != #[trigger] keys@[b]@,
            slot.len() == n,
            origin.len() == keys.len(),
            forall|a: int| 0 <= a < n ==> 0 <= #[trigger] slot[a] < keys.len()
                && keys@[slot[a]]@ == snapshots@[a].vote_pubkey@,
            forall|b: int| 0 <= b < keys.len() ==> 0 <= #[trigger] origin[b] < n
                && keys@[b]@ == snapshots@[origin[b]].vote_pubkey@,
            forall|j: int| 0 <= j < g ==> (#[trigger] out@[j]).vote_pubkey@ == keys@[j]@,
            forall|j: int| 0 <= j < g ==> (#[trigger] out@[j]).snapshots@
                == epoch_sorted(snapshots_of(snapshots@, out@[j].vote_pubkey@)),
            forall|j: int| 0 <= j < g ==> (#[trigger] out@[j]).snapshots@.to_multiset()
                == snapshots_of(snapshots@, out@[j].vote_pubkey@).to_multiset(),
            forall|j: int| 0 <= j < g ==> epochs_ascending((#[trigger] out@[j]).snapshots@),
            forall|j: int| 0 <= j < g ==> (#[trigger] out@[j]).snapshots.len() > 0,
        decreases keys.len() - g,
    {
        let key = &keys[g];
        let mut members: Vec<ValidatorSnapshot> = Vec::new();
        let mut k: usize = 0;
        let ghost witness = origin[g as int];
        while k < n
            invariant
                n == snapshots.len(),
                k <= n,
                members@ == epoch_sorted(snapshots_of(snapshots@.subrange(0, k as int), key@)),
                0 <= witness < n,
                snapshots@[witness].vote_pubkey@ == key@,
                witness < k ==> members.len() > 0,
            decreases n - k,
        {
            let ghost pre = snapshots@.subrange(0, k as int);
            assert(snapshots@.subrange(0, k + 1).drop_last() =~= pre);
            proof {
                epoch_sorted_is_ascending(snapshots_of(pre, key@));
            }
            if snapshots[k].vote_pubkey == *key {
                let s = snapshots[k].clone();
                let mut p: usize = 0;
                while p < members.len() && members[p].epoch <= s.epoch
                    invariant
                        p <= members.len(),
                        forall|j: int| 0 <= j < p ==> (#[trigger] members@[j]).epoch <= s.epoch,
                    decreases members.len() - p,
                {
                    p = p + 1;
                }
                proof {
                    lemma_insert_by_epoch_at(members@, s, p as int);
                    let q = snapshots_of(pre, key@).push(snapshots@[k as int]);
                    assert(q.drop_last() =~= snapshots_of(pre, key@));
                    assert(snapshots_of(snapshots@.subrange(0, k + 1), key@) == q);
                }
                members.insert(p, s);
            }
            k = k + 1;
        }
        assert(snapshots@.subrange(0, n as int) =~= snapshots@);
        proof {
            epoch_sorted_is_ascending(snapshots_of(snapshots@, key@));
        }
        let sorted = members;
        let hist = ValidatorHistory { vote_pubkey: key.clone(), snapshots: sorted };
        out.push(hist);
        g = g + 1;
    }
    proof {
        assert forall|i: int| 0 <= i < snapshots.len() implies has_history(out@, (#[trigger] snapshots@[i]).vote_pubkey@) by {
            let b = slot[i];
            assert(out@[b].vote_pubkey@ == keys@[b]@);
        }
    }
    out
}

} // verus!
