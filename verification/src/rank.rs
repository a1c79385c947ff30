//! Ranking by weight: heaviest first, and among equals the one that came
//! first.

use vstd::prelude::*;
use vstd::set_lib::*;

verus! {

/// `order` ranks the positions of `weights`: it lists every position once,
/// by descending weight, positions of equal weight in ascending order.
pub open spec fn is_ranking(order: Seq<usize>, weights: Seq<u64>) -> bool {
    &&& order.len() == weights.len()
    &&& forall|i: int| 0 <= i < order.len() ==> (#[trigger] order[i]) < weights.len()
    &&& forall|i: int, j: int|
        0 <= i < j < order.len() ==> outranks(weights, #[trigger] order[i], #[trigger] order[j])
}

/// Position `a` stands before position `b` in a ranking.
pub open spec fn outranks(weights: Seq<u64>, a: usize, b: usize) -> bool {
    weights[a as int] > weights[b as int] || (weights[a as int] == weights[b as int] && a < b)
}

/// The ranking of a list of weights. There is exactly one.
pub open spec fn ranking_of(weights: Seq<u64>) -> Seq<usize> {
    choose|order: Seq<usize>| is_ranking(order, weights)
}

/// Ranks the positions of a list of weights.
pub fn rank_by_weight(weights: &Vec<u64>) -> (order: Vec<usize>)
    ensures
        is_ranking(order@, weights@),
        order@ == ranking_of(weights@),
{
    let mut order: Vec<usize> = Vec::new();
    let mut k: usize = 0;
    while k < weights.len()
        invariant
            k <= weights@.len(),
            is_ranking(order@, weights@.take(k as int)),
        decreases weights@.len() - k,
    {
        let ghost seen = weights@.take(k as int);
        let ghost grown = weights@.take(k + 1);
        let mut p: usize = 0;
        while p < order.len() && weights[order[p]] >= weights[k]
            invariant
                k < weights@.len(),
                p <= order@.len(),
                is_ranking(order@, weights@.take(k as int)),
                forall|i: int| 0 <= i < p ==> weights@[(#[trigger] order@[i]) as int] >= weights@[k as int],
            decreases order@.len() - p,
        {
            p = p + 1;
        }
        let ghost before = order@;
        order.insert(p, k);
        proof {
            let now = order@;
            assert forall|i: int| 0 <= i < now.len() implies (#[trigger] now[i]) < grown.len() by {
                if i < p {
                    assert(now[i] == before[i]);
                } else if i > p {
                    assert(now[i] == before[i - 1]);
                }
            }
            assert forall|i: int, j: int| 0 <= i < j < now.len() implies outranks(
                grown,
                #[trigger] now[i],
                #[trigger] now[j],
            ) by {
                if j < p {
                    assert(outranks(seen, before[i], before[j]));
                } else if j == p {
                    assert(now[i] == before[i]);
                    assert(before[i] < k);
                } else if i < p {
                    assert(outranks(seen, before[i], before[j - 1]));
                } else if i == p {
                    if p < j - 1 {
                        assert(outranks(seen, before[p as int], before[j - 1]));
                    }
                    assert(before[j - 1] < k);
                } else {
                    assert(outranks(seen, before[i - 1], before[j - 1]));
                }
            }
        }
        k = k + 1;
    }
    proof {
        assert(weights@.take(k as int) =~= weights@);
        lemma_ranking_is_unique(order@, ranking_of(weights@), weights@);
    }
    order
}

/// A ranking names every position.
pub proof fn lemma_ranking_covers(order: Seq<usize>, weights: Seq<u64>, position: usize)
    requires
        is_ranking(order, weights),
        position < weights.len(),
    ensures
        order.contains(position),
{
    let ints = order.map_values(|p: usize| p as int);
    let all = set_int_range(0, weights.len() as int);
    assert forall|i: int, j: int| 0 <= i < ints.len() && 0 <= j < ints.len() && i != j implies ints[i]
        != ints[j] by {
        if i < j {
            assert(outranks(weights, order[i], order[j]));
        } else {
            assert(outranks(weights, order[j], order[i]));
        }
    }
    ints.unique_seq_to_set();
    lemma_int_range(0, weights.len() as int);
    assert forall|x: int| ints.to_set().contains(x) implies all.contains(x) by {
        let i = choose|i: int| 0 <= i < ints.len() && ints[i] == x;
        assert(order[i] < weights.len());
    }
    lemma_len_subset(ints.to_set(), all);
    lemma_subset_equality(ints.to_set(), all);
    assert(all.contains(position as int));
    assert(ints.contains(position as int));
    let i = choose|i: int| 0 <= i < ints.len() && ints[i] == position as int;
    assert(order[i] == position);
}

proof fn lemma_rankings_agree_upto(one: Seq<usize>, other: Seq<usize>, weights: Seq<u64>, n: int)
    requires
        is_ranking(one, weights),
        is_ranking(other, weights),
        0 <= n <= weights.len(),
    ensures
        forall|i: int| 0 <= i < n ==> one[i] == other[i],
    decreases n,
{
    if n > 0 {
        lemma_rankings_agree_upto(one, other, weights, n - 1);
        let i = n - 1;
        let mine = one[i];
        lemma_ranking_covers(other, weights, mine);
        let j = choose|j: int| 0 <= j < other.len() && other[j] == mine;
        if j < i {
            assert(outranks(weights, one[j], one[i]));
        }
        if j > i {
            let theirs = other[i];
            assert(outranks(weights, other[i], other[j]));
            lemma_ranking_covers(one, weights, theirs);
            let m = choose|m: int| 0 <= m < one.len() && one[m] == theirs;
            if m < i {
                assert(outranks(weights, other[m], other[i]));
            } else if m > i {
                assert(outranks(weights, one[i], one[m]));
            }
        }
    }
}

/// The weights determine the ranking.
pub proof fn lemma_ranking_is_unique(one: Seq<usize>, other: Seq<usize>, weights: Seq<u64>)
    requires
        is_ranking(one, weights),
        is_ranking(other, weights),
    ensures
        one == other,
{
    lemma_rankings_agree_upto(one, other, weights, weights.len() as int);
    assert(one =~= other);
}

} // verus!
