//! Ordering of analysis results: a selection sort that puts the items with the
//! largest key first, keeping the relative order of items with equal keys.
use vstd::prelude::*;

verus! {

broadcast use vstd::seq_lib::group_to_multiset_ensures;

/// `s` is ordered by non-increasing `key`.
pub open spec fn sorted_desc_by<T>(s: Seq<T>, key: spec_fn(T) -> int) -> bool {
    forall|i: int, j: int| 0 <= i < j < s.len() ==> key(s[i]) >= key(s[j])
}

/// Reorders `items` so that their keys do not increase; `keys[i]` is the key of `items[i]`.
pub fn sort_desc_by_key<T>(items: Vec<T>, keys: Vec<u128>, Ghost(key): Ghost<spec_fn(T) -> int>) -> (out: Vec<T>)
    requires
        items.len() == keys.len(),
        forall|i: int| 0 <= i < items.len() ==> keys@[i] == key(#[trigger] items@[i]),
    ensures
        out@.to_multiset() == items@.to_multiset(),
        out.len() == items.len(),
        sorted_desc_by(out@, key),
{
    let ghost initial = items@;
    let mut rest = items;
    let mut rest_keys = keys;
    let mut out: Vec<T> = Vec::new();
    while rest.len() > 0
        invariant
            rest.len() == rest_keys.len(),
            forall|i: int| 0 <= i < rest.len() ==> rest_keys@[i] == key(#[trigger] rest@[i]),
            out@.to_multiset().add(rest@.to_multiset()) == initial.to_multiset(),
            out.len() + rest.len() == initial.len(),
            sorted_desc_by(out@, key),
            forall|i: int, j: int|
                0 <= i < out.len() && 0 <= j < rest.len() ==> key(#[trigger] out@[i]) >= key(
                    #[trigger] rest@[j],
                ),
        decreases rest.len(),
    {
        let mut best: usize = 0;
        let mut k: usize = 1;
        while k < rest.len()
            invariant
                rest.len() == rest_keys.len(),
                0 <= best < k <= rest.len(),
                forall|j: int| 0 <= j < k ==> rest_keys@[j] <= rest_keys@[best as int],
            decreases rest.len() - k,
        {
            if rest_keys[k] > rest_keys[best] {
                best = k;
            }
            k = k + 1;
        }
        let ghost before_rest = rest@;
        let ghost before_out = out@;
        assert(forall|j: int| 0 <= j < rest.len() ==> key(#[trigger] rest@[j]) <= key(rest@[best as int]));
        let x = rest.remove(best);
        let _ = rest_keys.remove(best);
        out.push(x);
        proof {
            assert(before_rest.remove(best as int) == rest@);
            assert(before_out.push(x) == out@);
            assert(out@.to_multiset() == before_out.to_multiset().insert(x));
            assert(rest@.to_multiset() == before_rest.to_multiset().remove(x));
            assert(before_rest.to_multiset().contains(x));
            assert(out@.to_multiset().add(rest@.to_multiset()) =~= initial.to_multiset());
            assert forall|i: int, j: int|
                0 <= i < out.len() && 0 <= j < rest.len() implies key(#[trigger] out@[i]) >= key(
                #[trigger] rest@[j],
            ) by {
                if j < best {
                    assert(rest@[j] == before_rest[j]);
                } else {
                    assert(rest@[j] == before_rest[j + 1]);
                }
                if i < before_out.len() {
                    assert(out@[i] == before_out[i]);
                }
            }
            assert forall|i: int, j: int| 0 <= i < j < out@.len() implies key(out@[i]) >= key(out@[j]) by {
                if j < before_out.len() {
                    assert(out@[i] == before_out[i]);
                    assert(out@[j] == before_out[j]);
                } else {
                    assert(out@[i] == before_out[i]);
                    assert(out@[j] == x);
                    assert(x == before_rest[best as int]);
                }
            }
            assert forall|i: int| 0 <= i < rest.len() implies rest_keys@[i] == key(#[trigger] rest@[i]) by {
                if i < best {
                    assert(rest@[i] == before_rest[i]);
                } else {
                    assert(rest@[i] == before_rest[i + 1]);
                }
            }
        }
    }
    assert(rest@ =~= Seq::<T>::empty());
    assert(out@.to_multiset().add(rest@.to_multiset()) =~= out@.to_multiset());
    out
}

/// Sequences holding the same elements still do after mapping every element.
pub proof fn lemma_multiset_map<T, V>(s1: Seq<T>, s2: Seq<T>, f: spec_fn(T) -> V)
    requires
        s1.to_multiset() == s2.to_multiset(),
    ensures
        s1.map_values(f).to_multiset() == s2.map_values(f).to_multiset(),
    decreases s1.len(),
{
    if s1.len() == 0 {
        assert(s1.to_multiset().len() == 0);
        assert(s2.len() == s2.to_multiset().len());
        assert(s2.len() == 0);
        assert(s1.map_values(f) =~= Seq::<V>::empty());
        assert(s2.map_values(f) =~= Seq::<V>::empty());
    } else {
        let x = s1.last();
        assert(s1.to_multiset().count(x) > 0) by {
            assert(s1.contains(x)) by {
                assert(s1[s1.len() - 1] == x);
            }
        }
        assert(s2.contains(x));
        let k = choose|k: int| 0 <= k < s2.len() && s2[k] == x;
        let t1 = s1.drop_last();
        let t2 = s2.remove(k);
        assert(s1 =~= t1.push(x));
        assert(t1.to_multiset() =~= s1.to_multiset().remove(x));
        assert(t2.to_multiset() =~= s2.to_multiset().remove(x));
        lemma_multiset_map(t1, t2, f);
        assert(s1.map_values(f) =~= t1.map_values(f).push(f(x)));
        assert(t2.map_values(f) =~= s2.map_values(f).remove(k));
        assert(s2.map_values(f)[k] == f(x));
        assert(t2.map_values(f).to_multiset() =~= s2.map_values(f).to_multiset().remove(f(x)));
        assert(s2.map_values(f).to_multiset().count(f(x)) > 0) by {
            assert(s2.map_values(f).contains(f(x)));
        }
    }
}

/// Every element of a sequence occurs in any sequence holding the same elements.
pub proof fn lemma_multiset_member<T>(a: Seq<T>, b: Seq<T>, i: int)
    requires
        a.to_multiset() == b.to_multiset(),
        0 <= i < a.len(),
    ensures
        b.contains(a[i]),
{
    assert(a.contains(a[i]));
    assert(a.to_multiset().count(a[i]) > 0);
}

} // verus!
