//! Stable sorting by an integer rank.

use vstd::prelude::*;

verus! {

/// How many of the first `k` entries of `order` come before an entry of rank
/// `rank` that is put in last: those up to the last one whose rank is not above it.
pub open spec fn place(ranks: Seq<i64>, order: Seq<int>, rank: int, k: int) -> int
    decreases k,
{
    if k <= 0 {
        0
    } else if ranks[order[k - 1]] <= rank {
        k
    } else {
        place(ranks, order, rank, k - 1)
    }
}

/// The first `n` positions of `ranks`, in the order of their ranks; positions of
/// equal rank stay in their own order.
pub open spec fn stable_order_upto(ranks: Seq<i64>, n: int) -> Seq<int>
    decreases n,
{
    if n <= 0 {
        Seq::empty()
    } else {
        let before = stable_order_upto(ranks, n - 1);
        before.insert(place(ranks, before, ranks[n - 1] as int, before.len() as int), n - 1)
    }
}

/// The positions of `ranks`, in the order of their ranks.
pub open spec fn stable_order(ranks: Seq<i64>) -> Seq<int> {
    stable_order_upto(ranks, ranks.len() as int)
}

/// Whether position `i` belongs before position `j`.
pub open spec fn precedes(ranks: Seq<i64>, i: int, j: int) -> bool {
    ranks[i] < ranks[j] || (ranks[i] == ranks[j] && i < j)
}

proof fn lemma_place(ranks: Seq<i64>, order: Seq<int>, rank: int, k: int)
    requires
        0 <= k <= order.len(),
    ensures
        0 <= place(ranks, order, rank, k) <= k,
        place(ranks, order, rank, k) > 0 ==> ranks[order[place(ranks, order, rank, k) - 1]] <= rank,
        forall|i: int|
            place(ranks, order, rank, k) <= i < k ==> ranks[#[trigger] order[i]] > rank,
    decreases k,
{
    if k > 0 && ranks[order[k - 1]] > rank {
        lemma_place(ranks, order, rank, k - 1);
    }
}

proof fn lemma_stable_order_upto(ranks: Seq<i64>, n: int)
    requires
        0 <= n <= ranks.len(),
    ensures
        stable_order_upto(ranks, n).len() == n,
        stable_order_upto(ranks, n).no_duplicates(),
        forall|i: int|
            0 <= i < n ==> 0 <= #[trigger] stable_order_upto(ranks, n)[i] < n,
        forall|i: int, j: int|
            0 <= i < j < n ==> precedes(
                ranks,
                #[trigger] stable_order_upto(ranks, n)[i],
                #[trigger] stable_order_upto(ranks, n)[j],
            ),
    decreases n,
{
    if n > 0 {
        lemma_stable_order_upto(ranks, n - 1);
        let before = stable_order_upto(ranks, n - 1);
        let rank = ranks[n - 1] as int;
        lemma_place(ranks, before, rank, n - 1);
        let p = place(ranks, before, rank, n - 1);
        let now = stable_order_upto(ranks, n);
        assert(forall|i: int| 0 <= i < n ==> #[trigger] now[i] == if i < p {
            before[i]
        } else if i == p {
            n - 1
        } else {
            before[i - 1]
        });
        assert forall|i: int, j: int| 0 <= i < j < n implies precedes(
            ranks,
            #[trigger] now[i],
            #[trigger] now[j],
        ) by {
            if j == p {
                if i < p - 1 {
                    assert(precedes(ranks, before[i], before[p - 1]));
                }
            }
        }
    }
}

/// A stable order lists every position once, by increasing rank, and positions of
/// equal rank by increasing position.
pub proof fn stable_order_is_sorted(ranks: Seq<i64>)
    ensures
        stable_order(ranks).len() == ranks.len(),
        stable_order(ranks).no_duplicates(),
        forall|i: int|
            0 <= i < ranks.len() ==> 0 <= #[trigger] stable_order(ranks)[i] < ranks.len(),
        forall|i: int, j: int|
            0 <= i < j < ranks.len() ==> precedes(
                ranks,
                #[trigger] stable_order(ranks)[i],
                #[trigger] stable_order(ranks)[j],
            ),
{
    lemma_stable_order_upto(ranks, ranks.len() as int);
}

/// `order`, as mathematical integers.
pub open spec fn positions(order: Seq<usize>) -> Seq<int> {
    order.map_values(|i: usize| i as int)
}

/// The positions of `ranks`, in the order of their ranks.
pub fn sort_positions(ranks: &[i64]) -> (r: Vec<usize>)
    ensures
        positions(r@) == stable_order(ranks@),
        r.len() == ranks.len(),
        forall|i: int| 0 <= i < r.len() ==> #[trigger] r[i] < ranks.len(),
{
    let mut order: Vec<usize> = Vec::new();
    let mut n: usize = 0;
    while n < ranks.len()
        invariant
            n <= ranks.len(),
            order.len() == n,
            positions(order@) == stable_order_upto(ranks@, n as int),
            forall|i: int| 0 <= i < n ==> #[trigger] order[i] < n,
        decreases ranks.len() - n,
    {
        let rank: i64 = ranks[n];
        let mut k: usize = n;
        while k > 0 && ranks[order[k - 1]] > rank
            invariant
                k <= n,
                n < ranks.len(),
                order.len() == n,
                rank == ranks[n as int],
                forall|i: int| 0 <= i < n ==> #[trigger] order[i] < n,
                place(ranks@, positions(order@), rank as int, n as int) == place(
                    ranks@,
                    positions(order@),
                    rank as int,
                    k as int,
                ),
            decreases k,
        {
            k -= 1;
        }
        let ghost before = order@;
        order.insert(k, n);
        proof {
            assert(positions(order@) =~= positions(before).insert(k as int, n as int));
        }
        n += 1;
    }
    order
}

} // verus!
