//! Stable ranking of items by a score, highest first.
use vstd::prelude::*;
use vstd::set_lib::{lemma_int_range, lemma_subset_equality, set_int_range};

verus! {

/// Item `a` ranks before item `b`: a higher score, or an equal score and an
/// earlier position.
pub open spec fn ranks_before(scores: Seq<u64>, a: int, b: int) -> bool {
    scores[a] > scores[b] || (scores[a] == scores[b] && a < b)
}

/// `order` lists the positions of `scores` from the highest score down,
/// equal scores in the order they came in.
pub open spec fn is_ranking(scores: Seq<u64>, order: Seq<usize>) -> bool {
    &&& order.len() == scores.len()
    &&& forall|i: int| 0 <= i < order.len() ==> #[trigger] order[i] < scores.len()
    &&& forall|i: int, j: int|
        0 <= i < j < order.len() ==> ranks_before(
            scores,
            #[trigger] order[i] as int,
            #[trigger] order[j] as int,
        )
}

/// Every position of `scores` appears in a ranking of them.
proof fn lemma_ranking_covers(scores: Seq<u64>, order: Seq<usize>, x: int)
    requires
        is_ranking(scores, order),
        0 <= x < scores.len(),
    ensures
        exists|i: int| 0 <= i < order.len() && order[i] as int == x,
{
    let n = scores.len() as int;
    let oi = order.map_values(|v: usize| v as int);
    assert forall|i: int, j: int| 0 <= i < oi.len() && 0 <= j < oi.len() && i != j implies oi[i] != oi[j] by {
        if i < j {
            assert(ranks_before(scores, order[i] as int, order[j] as int));
        } else {
            assert(ranks_before(scores, order[j] as int, order[i] as int));
        }
    }
    oi.unique_seq_to_set();
    lemma_int_range(0, n);
    assert forall|v: int| oi.to_set().contains(v) implies set_int_range(0, n).contains(v) by {
        let i = choose|i: int| 0 <= i < oi.len() && oi[i] == v;
        assert(order[i] < scores.len());
    }
    lemma_subset_equality(oi.to_set(), set_int_range(0, n));
    assert(set_int_range(0, n).contains(x));
    assert(oi.to_set().contains(x));
    let i = choose|i: int| 0 <= i < oi.len() && oi[i] == x;
    assert(order[i] as int == x);
}

/// A list of scores has exactly one ranking: the order of the results of a
/// search is determined by their similarity keys.
pub proof fn lemma_ranking_unique(scores: Seq<u64>, o1: Seq<usize>, o2: Seq<usize>)
    requires
        is_ranking(scores, o1),
        is_ranking(scores, o2),
    ensures
        o1 == o2,
{
    assert forall|k: int| 0 <= k < o1.len() implies o1[k] == o2[k] by {
        lemma_ranking_agree_upto(scores, o1, o2, k);
    }
    assert(o1 =~= o2);
}

/// Two rankings agree on every position up to `k`.
proof fn lemma_ranking_agree_upto(scores: Seq<u64>, o1: Seq<usize>, o2: Seq<usize>, k: int)
    requires
        is_ranking(scores, o1),
        is_ranking(scores, o2),
        0 <= k < o1.len(),
    ensures
        forall|j: int| 0 <= j <= k ==> o1[j] == o2[j],
    decreases k,
{
    if k > 0 {
        lemma_ranking_agree_upto(scores, o1, o2, k - 1);
    }
    let x = o1[k] as int;
    let y = o2[k] as int;
    if x != y {
        lemma_ranking_covers(scores, o1, y);
        lemma_ranking_covers(scores, o2, x);
        let q = choose|i: int| 0 <= i < o1.len() && o1[i] as int == y;
        let m = choose|i: int| 0 <= i < o2.len() && o2[i] as int == x;
        // Positions before `k` hold the same items in both, so `y` comes
        // after `k` in `o1`, and `x` after `k` in `o2`.
        if q < k {
            assert(o2[q] == o1[q]);
            assert(ranks_before(scores, o2[q] as int, o2[k] as int));
        }
        if m < k {
            assert(o1[m] == o2[m]);
            assert(ranks_before(scores, o1[m] as int, o1[k] as int));
        }
        assert(ranks_before(scores, x, y));
        assert(ranks_before(scores, y, x));
    }
}

/// The positions of `scores` ranked from the highest score down; equal
/// scores keep the order they came in.
pub fn rank_order(scores: &Vec<u64>) -> (order: Vec<usize>)
    ensures
        is_ranking(scores@, order@),
{
    let n = scores.len();
    let mut order: Vec<usize> = Vec::new();
    let mut k: usize = 0;
    while k < n
        invariant
            n == scores@.len(),
            k <= n,
            order@.len() == k,
            forall|i: int| 0 <= i < order@.len() ==> #[trigger] order@[i] < k,
            forall|i: int, j: int|
                0 <= i < j < order@.len() ==> ranks_before(
                    scores@,
                    #[trigger] order@[i] as int,
                    #[trigger] order@[j] as int,
                ),
        decreases n - k,
    {
        // `k` goes after every item whose score is at least its own.
        let mut p: usize = 0;
        while p < order.len() && scores[order[p]] >= scores[k]
            invariant
                n == scores@.len(),
                k < n,
                p <= order@.len(),
                forall|i: int| 0 <= i < order@.len() ==> #[trigger] order@[i] < k,
                forall|i: int| 0 <= i < p ==> scores@[#[trigger] order@[i] as int] >= scores@[k as int],
            decreases order@.len() - p,
        {
            p = p + 1;
        }
        let ghost old_order = order@;
        let mut next: Vec<usize> = Vec::new();
        let mut i: usize = 0;
        while i < order.len()
            invariant
                order@ == old_order,
                p <= old_order.len(),
                i <= old_order.len(),
                next@.len() == if i <= p { i as int } else { i + 1 },
                forall|j: int| 0 <= j < i && j < p ==> #[trigger] next@[j] == old_order[j],
                i > p ==> next@[p as int] == k,
                forall|j: int| p < j <= i ==> #[trigger] next@[j] == old_order[j - 1],
                i == p ==> next@.len() == p,
            decreases old_order.len() - i,
        {
            if i == p {
                next.push(k);
            }
            next.push(order[i]);
            i = i + 1;
        }
        if p == order.len() {
            next.push(k);
        }
        proof {
            assert forall|a: int, b: int| 0 <= a < b < next@.len() implies ranks_before(
                scores@,
                next@[a] as int,
                next@[b] as int,
            ) by {
                if b < p {
                } else if b == p {
                    assert(scores@[old_order[a] as int] >= scores@[k as int]);
                } else if a < p {
                    assert(next@[b] == old_order[b - 1]);
                } else if a == p {
                    assert(next@[b] == old_order[b - 1]);
                    assert(!(scores@[old_order[p as int] as int] >= scores@[k as int]));
                    if b - 1 > p {
                        assert(ranks_before(scores@, old_order[p as int] as int, old_order[b - 1] as int));
                    }
                } else {
                    assert(next@[a] == old_order[a - 1]);
                    assert(next@[b] == old_order[b - 1]);
                }
            }
            assert forall|a: int| 0 <= a < next@.len() implies #[trigger] next@[a] < k + 1 by {
                if a < p {
                } else if a > p {
                    assert(next@[a] == old_order[a - 1]);
                }
            }
        }
        order = next;
        k = k + 1;
    }
    order
}

} // verus!
