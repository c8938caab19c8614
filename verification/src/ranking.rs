//! Ordering positions by a numeric key, largest first, for the snapshot
//! views: most recent flows, busiest processes.

use vstd::prelude::*;

verus! {

/// The order of integer pairs that std documents for tuples: by the first
/// component, then the second.
pub open spec fn pair_le(a: (u64, u64), b: (u64, u64)) -> bool {
    a.0 < b.0 || (a.0 == b.0 && a.1 <= b.1)
}

/// `slice::sort_unstable` on integer pairs. Its documentation says it sorts
/// the slice in ascending order, which for tuples of integers is the order
/// of the first component and then the second; the elements are rearranged,
/// not changed. Nothing is said of the order of equal elements, and none
/// can occur among distinct pairs.
#[verifier::external_body]
fn sort_pairs(v: &mut Vec<(u64, u64)>)
    ensures
        final(v)@.to_multiset() == old(v)@.to_multiset(),
        forall|i: int, j: int| 0 <= i < j < final(v)@.len() ==> pair_le(final(v)@[i], final(v)@[j]),
{
    v.sort_unstable();
}

/// Position `i` ranks before position `j`: a larger key, or an equal key
/// and an earlier position.
pub open spec fn ranks_before(keys: Seq<u64>, i: int, j: int) -> bool {
    keys[i] > keys[j] || (keys[i] == keys[j] && i < j)
}

/// `order` lists the first `count` positions of `keys` in rank order: every
/// listed position is in range, each ranks before the ones listed after it,
/// and every position left out ranks after all listed ones.
pub open spec fn is_ranking(keys: Seq<u64>, order: Seq<int>, count: nat) -> bool {
    &&& order.len() == count
    &&& forall|j: int| 0 <= j < order.len() ==> 0 <= #[trigger] order[j] < keys.len()
    &&& forall|a: int, b: int| 0 <= a < b < order.len() ==> ranks_before(keys, order[a], order[b])
    &&& forall|i: int| 0 <= i < keys.len() && !order.contains(i) ==>
        forall|j: int| 0 <= j < order.len() ==> ranks_before(keys, #[trigger] order[j], i)
}

/// Positions of a list of numbers as machine integers.
pub open spec fn positions(v: Seq<usize>) -> Seq<int> {
    v.map_values(|x: usize| x as int)
}

/// The smaller of two numbers.
pub open spec fn min_nat(a: nat, b: nat) -> nat {
    if a < b { a } else { b }
}

/// The first `limit` positions of `keys`, largest key first and, among equal
/// keys, earliest position first.
pub fn rank_descending(keys: &Vec<u64>, limit: usize) -> (order: Vec<usize>)
    ensures
        is_ranking(keys@, positions(order@), min_nat(limit as nat, keys@.len())),
{
    broadcast use vstd::seq_lib::group_to_multiset_ensures;

    let n = keys.len();
    let mut pairs: Vec<(u64, u64)> = Vec::with_capacity(n);
    let mut i: usize = 0;
    while i < n
        invariant
            n == keys@.len(),
            i <= n,
            pairs@.len() == i,
            forall|k: int| 0 <= k < i ==> #[trigger] pairs@[k] == ((u64::MAX - keys@[k]) as u64, k as u64),
        decreases n - i,
    {
        pairs.push((u64::MAX - keys[i], i as u64));
        i = i + 1;
    }
    let ghost p = pairs@;
    assert(p.no_duplicates()) by {
        assert forall|a: int, b: int| 0 <= a < p.len() && 0 <= b < p.len() && a != b implies p[a] != p[b] by {
            assert(p[a].1 == a as u64 && p[b].1 == b as u64);
        }
    }
    sort_pairs(&mut pairs);
    let ghost q = pairs@;
    proof {
        p.lemma_multiset_has_no_duplicates();
        q.lemma_multiset_has_no_duplicates_conv();
    }
    // every sorted element is one of the original pairs, and conversely
    assert forall|j: int| 0 <= j < q.len() implies #[trigger] p.contains(q[j]) by {
        assert(q.contains(q[j]));
        assert(q.to_multiset().count(q[j]) > 0);
        assert(p.contains(q[j]));
    }
    assert forall|k: int| 0 <= k < n implies #[trigger] q.contains(p[k]) by {
        assert(p.contains(p[k]));
        assert(p.to_multiset().count(p[k]) > 0);
        assert(q.contains(p[k]));
    }
    assert(q.len() == q.to_multiset().len());
    assert(p.len() == p.to_multiset().len());
    assert forall|t: int| 0 <= t < q.len() implies (q[t].1 as int) < n && q[t].0 == u64::MAX - keys@[q[t].1 as int] by {
        assert(p.contains(q[t]));
        let k = choose|k: int| 0 <= k < p.len() && p[k] == q[t];
        assert(p[k] == ((u64::MAX - keys@[k]) as u64, k as u64));
    }
    let count = if limit < n { limit } else { n };
    let mut order: Vec<usize> = Vec::with_capacity(count);
    let mut j: usize = 0;
    while j < count
        invariant
            count <= n,
            n == keys@.len(),
            q == pairs@,
            q.len() == n,
            j <= count,
            order@.len() == j,
            forall|t: int| 0 <= t < j ==> #[trigger] order@[t] as int == q[t].1 as int,
            forall|t: int| 0 <= t < q.len() ==> q[t].1 < n,
        decreases count - j,
    {
        order.push(pairs[j].1 as usize);
        j = j + 1;
    }
    proof {
        let o = positions(order@);
        // sorted and distinct: strictly increasing
        assert forall|a: int, b: int| 0 <= a < b < q.len() implies q[a] != q[b] && pair_le(q[a], q[b]) by {}
        assert forall|a: int, b: int| 0 <= a < b < o.len() implies ranks_before(keys@, o[a], o[b]) by {
            assert(o[a] == q[a].1 as int && o[b] == q[b].1 as int);
            assert(q[a] != q[b]);
            assert(pair_le(q[a], q[b]));
            assert(q[a].0 == u64::MAX - keys@[q[a].1 as int]);
            assert(q[b].0 == u64::MAX - keys@[q[b].1 as int]);
        }
        assert forall|i: int| 0 <= i < keys@.len() && !o.contains(i) implies
            forall|t: int| 0 <= t < o.len() ==> ranks_before(keys@, #[trigger] o[t], i) by {
            assert(q.contains(p[i]));
            let jj = choose|jj: int| 0 <= jj < q.len() && q[jj] == p[i];
            assert(p[i] == ((u64::MAX - keys@[i]) as u64, i as u64));
            if jj < o.len() {
                assert(o[jj] == i);
                assert(o.contains(i));
            }
            assert forall|t: int| 0 <= t < o.len() implies ranks_before(keys@, #[trigger] o[t], i) by {
                assert(o[t] == q[t].1 as int);
                assert(t < jj);
                assert(q[t] != q[jj]);
                assert(pair_le(q[t], q[jj]));
                assert(q[t].0 == u64::MAX - keys@[q[t].1 as int]);
            }
        }
        assert forall|t: int| 0 <= t < o.len() implies 0 <= #[trigger] o[t] < keys@.len() by {
            assert(o[t] == q[t].1 as int);
        }
    }
    order
}

} // verus!
