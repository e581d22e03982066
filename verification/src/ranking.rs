//! Descending rankings of positions by integer keys.

use vstd::prelude::*;

verus! {

/// Position `i` ranks before position `j` in a descending ranking of `keys`:
/// its key is larger, or the keys are equal and `i` comes first.
pub open spec fn ranks_before(keys: Seq<int>, i: int, j: int) -> bool {
    keys[i] > keys[j] || (keys[i] == keys[j] && i < j)
}

/// `order` lists every position of `keys` exactly once, from the largest key
/// down; positions with equal keys keep their own order (a stable sort).
pub open spec fn is_descending_ranking(keys: Seq<int>, order: Seq<usize>) -> bool {
    &&& order.len() == keys.len()
    &&& forall|p: int| 0 <= p < order.len() ==> #[trigger] order[p] < keys.len()
    &&& forall|i: usize| i < keys.len() ==> #[trigger] order.contains(i)
    &&& forall|p: int, q: int|
        0 <= p < q < order.len() ==> ranks_before(keys, #[trigger] order[p] as int, #[trigger] order[q] as int)
}

/// The keys of a vector, as integers.
pub open spec fn int_keys(keys: Seq<i128>) -> Seq<int> {
    keys.map_values(|k: i128| k as int)
}

/// The positions of `keys` in descending order of key, equal keys in their
/// own order.
pub fn rank_descending(keys: &Vec<i128>) -> (order: Vec<usize>)
    ensures
        is_descending_ranking(int_keys(keys@), order@),
{
    let ghost ks = int_keys(keys@);
    let n = keys.len();
    let mut order: Vec<usize> = Vec::new();
    let mut i: usize = 0;
    while i < n
        invariant
            n == keys@.len(),
            ks == int_keys(keys@),
            0 <= i <= n,
            order@.len() == i,
            forall|p: int| 0 <= p < order@.len() ==> #[trigger] order@[p] < i,
            forall|j: usize| j < i ==> #[trigger] order@.contains(j),
            forall|p: int, q: int|
                0 <= p < q < order@.len() ==> ranks_before(ks, #[trigger] order@[p] as int, #[trigger] order@[q] as int),
        decreases n - i,
    {
        let mut p: usize = 0;
        while p < order.len() && keys[order[p]] >= keys[i]
            invariant
                n == keys@.len(),
                ks == int_keys(keys@),
                i < n,
                order@.len() == i,
                forall|x: int| 0 <= x < order@.len() ==> #[trigger] order@[x] < i,
                0 <= p <= order@.len(),
                forall|x: int| 0 <= x < p ==> ks[#[trigger] order@[x] as int] >= ks[i as int],
            decreases order@.len() - p,
        {
            p = p + 1;
        }
        let ghost old_order = order@;
        proof {
            if p < old_order.len() {
                assert(ks[old_order[p as int] as int] < ks[i as int]);
                assert forall|y: int| p <= y < old_order.len() implies ks[#[trigger] old_order[y] as int] < ks[i as int] by {
                    if y > p {
                        assert(ranks_before(ks, old_order[p as int] as int, old_order[y] as int));
                    }
                }
            }
        }
        order.insert(p, i);
        proof {
            let no = order@;
            assert(no == old_order.insert(p as int, i));
            assert forall|x: int| 0 <= x < no.len() implies #[trigger] no[x] < i + 1 by {
                if x < p {
                    assert(no[x] == old_order[x]);
                } else if x > p {
                    assert(no[x] == old_order[x - 1]);
                }
            }
            assert forall|j: usize| j < i + 1 implies #[trigger] no.contains(j) by {
                if j == i {
                    assert(no[p as int] == i);
                } else {
                    assert(old_order.contains(j));
                    let x = choose|x: int| 0 <= x < old_order.len() && old_order[x] == j;
                    if x < p {
                        assert(no[x] == j);
                    } else {
                        assert(no[x + 1] == j);
                    }
                }
            }
            assert forall|a: int, b: int| 0 <= a < b < no.len() implies ranks_before(ks, #[trigger] no[a] as int, #[trigger] no[b] as int) by {
                if a < p && b < p {
                    assert(no[a] == old_order[a] && no[b] == old_order[b]);
                } else if a < p && b == p {
                    assert(no[a] == old_order[a]);
                } else if a < p {
                    assert(no[a] == old_order[a] && no[b] == old_order[b - 1]);
                } else if a == p {
                    assert(no[b] == old_order[b - 1]);
                } else {
                    assert(no[a] == old_order[a - 1] && no[b] == old_order[b - 1]);
                }
            }
        }
        i = i + 1;
    }
    order
}

/// Law: the first `m` positions of a descending ranking hold the `m` largest
/// keys: no position outside them has a larger key than one inside.
pub proof fn lemma_ranking_prefix_is_top(keys: Seq<int>, order: Seq<usize>, m: int, p: int, j: usize)
    requires
        is_descending_ranking(keys, order),
        0 <= p < m <= order.len(),
        j < keys.len(),
        !order.take(m).contains(j),
    ensures
        keys[order[p] as int] >= keys[j as int],
{
    assert(order.contains(j));
    let q = choose|q: int| 0 <= q < order.len() && order[q] == j;
    if q < m {
        assert(order.take(m)[q] == j);
    }
    assert(ranks_before(keys, order[p] as int, order[q] as int));
}

/// The first `k` positions of two descending rankings of the same keys agree.
proof fn lemma_rankings_agree_below(keys: Seq<int>, o1: Seq<usize>, o2: Seq<usize>, k: int)
    requires
        is_descending_ranking(keys, o1),
        is_descending_ranking(keys, o2),
        0 <= k <= o1.len(),
    ensures
        forall|p: int| 0 <= p < k ==> o1[p] == o2[p],
    decreases k,
{
    if k > 0 {
        lemma_rankings_agree_below(keys, o1, o2, k - 1);
        let p = k - 1;
        if o1[p] != o2[p] {
            let a = o1[p];
            let b = o2[p];
            assert(o1.contains(b));
            let q = choose|q: int| 0 <= q < o1.len() && o1[q] == b;
            assert(o2.contains(a));
            let r = choose|r: int| 0 <= r < o2.len() && o2[r] == a;
            if q < p {
                assert(o2[q] == b);
                assert(ranks_before(keys, o2[q] as int, o2[p] as int));
            }
            if r < p {
                assert(o1[r] == a);
                assert(ranks_before(keys, o1[r] as int, o1[p] as int));
            }
            assert(ranks_before(keys, o1[p] as int, o1[q] as int));
            assert(ranks_before(keys, o2[p] as int, o2[r] as int));
        }
    }
}

/// Law: the descending ranking of given keys is unique, so a contract that
/// names "the" ranking pins the order down.
pub proof fn lemma_ranking_unique(keys: Seq<int>, o1: Seq<usize>, o2: Seq<usize>)
    requires
        is_descending_ranking(keys, o1),
        is_descending_ranking(keys, o2),
    ensures
        o1 == o2,
{
    lemma_rankings_agree_below(keys, o1, o2, o1.len() as int);
    assert(o1 =~= o2);
}

} // verus!
