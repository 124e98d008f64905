//! The pairs of different nodes in a fixed order, and the choice of some of
//! them by a row of coins.

use vstd::prelude::*;

verus! {

/// The pairs that the node `u` makes with the larger nodes below `n`, by
/// rising partner: `(u, u + 1)`, `(u, u + 2)`, ...
pub open spec fn pairs_of(n: nat, u: nat) -> Seq<(usize, usize)> {
    Seq::new((n - 1 - u) as nat, |k: int| (u as usize, (u + 1 + k) as usize))
}

/// The pairs `(a, b)` with `a < b < n` and `a < u`, by rising `a` and, for one
/// `a`, by rising `b`.
pub open spec fn pairs_before(n: nat, u: nat) -> Seq<(usize, usize)>
    decreases u,
{
    if u == 0 {
        Seq::empty()
    } else {
        pairs_before(n, (u - 1) as nat) + pairs_of(n, (u - 1) as nat)
    }
}

/// All pairs of two different nodes below `n`, smaller node first:
/// `(0, 1)`, `(0, 2)`, ..., `(1, 2)`, ...
pub open spec fn all_pairs(n: nat) -> Seq<(usize, usize)> {
    pairs_before(n, n)
}

/// The pairs whose coin shows `true`, in the order of the pairs. The coin at
/// a place belongs to the pair at that place.
pub open spec fn chosen(pairs: Seq<(usize, usize)>, coins: Seq<bool>) -> Seq<(usize, usize)>
    decreases pairs.len(),
{
    if pairs.len() == 0 {
        Seq::empty()
    } else {
        let rest = chosen(pairs.drop_last(), coins.drop_last());
        if coins.last() {
            rest.push(pairs.last())
        } else {
            rest
        }
    }
}

/// What `pairs_before` holds: the smaller node of each pair comes first and
/// is below `u`, no pair occurs twice, every pair of that kind occurs, and
/// there are `u * n - u * (u + 1) / 2` of them.
pub proof fn lemma_pairs_before(n: nat, u: nat)
    requires
        u <= n <= usize::MAX,
    ensures
        2 * pairs_before(n, u).len() == 2 * u * n - u * (u + 1),
        pairs_before(n, u).no_duplicates(),
        forall|i: int|
            0 <= i < pairs_before(n, u).len() ==> (#[trigger] pairs_before(n, u)[i]).0
                < pairs_before(n, u)[i].1 && pairs_before(n, u)[i].1 < n && pairs_before(n, u)[i].0
                < u,
        forall|a: usize, b: usize|
            a < b < n && a < u ==> #[trigger] pairs_before(n, u).contains((a, b)),
    decreases u,
{
    if u > 0 {
        let w = (u - 1) as nat;
        let front = pairs_before(n, w);
        let row = pairs_of(n, w);
        let all = pairs_before(n, u);
        lemma_pairs_before(n, w);
        assert(all =~= front + row);
        assert(2 * all.len() == 2 * u * n - u * (u + 1)) by (nonlinear_arith)
            requires
                2 * front.len() == 2 * w * n - w * (w + 1),
                all.len() == front.len() + (n - 1 - w),
                w == u - 1,
        ;
        assert forall|i: int| 0 <= i < all.len() implies (#[trigger] all[i]).0 < all[i].1 && all[i].1
            < n && all[i].0 < u by {
            if i < front.len() {
                assert(all[i] == front[i]);
            } else {
                assert(all[i] == row[i - front.len()]);
            }
        }
        assert forall|i: int, j: int| 0 <= i < all.len() && 0 <= j < all.len() && i != j implies all[i]
            != all[j] by {
            if i < front.len() {
                assert(all[i] == front[i]);
            } else {
                assert(all[i] == row[i - front.len()]);
            }
            if j < front.len() {
                assert(all[j] == front[j]);
            } else {
                assert(all[j] == row[j - front.len()]);
            }
        }
        assert forall|a: usize, b: usize| a < b < n && a < u implies #[trigger] all.contains(
            (a, b),
        ) by {
            if a < w {
                assert(front.contains((a, b)));
                let i = choose|i: int| 0 <= i < front.len() && front[i] == (a, b);
                assert(all[i] == (a, b));
            } else {
                let k = b - a - 1;
                assert(row[k] == (a, b));
                assert(all[front.len() + k] == (a, b));
            }
        }
    } else {
        assert(2 * u * n - u * (u + 1) == 0) by (nonlinear_arith)
            requires
                u == 0,
        ;
    }
}

/// There are `n * (n - 1) / 2` pairs of two different nodes below `n`, and no
/// more of them before any node.
pub proof fn lemma_pair_count(n: nat, u: nat)
    requires
        u <= n <= usize::MAX,
    ensures
        2 * all_pairs(n).len() == n * (n - 1),
        pairs_before(n, u).len() <= all_pairs(n).len(),
{
    lemma_pairs_before(n, n);
    lemma_pairs_before(n, u);
    assert(2 * n * n - n * (n + 1) == n * (n - 1)) by (nonlinear_arith);
    assert(n * (n - 1) - (2 * u * n - u * (u + 1)) == (n - u) * (n - u - 1)) by (nonlinear_arith);
    assert((n - u) * (n - u - 1) >= 0) by (nonlinear_arith)
        requires
            u <= n,
    ;
}

/// What `chosen` keeps: pairs out of the list, no more than the list has, and
/// none twice where the list has none twice. With every coin `true` it keeps
/// the whole list, and with every coin `false` nothing.
pub proof fn lemma_chosen(pairs: Seq<(usize, usize)>, coins: Seq<bool>)
    requires
        coins.len() == pairs.len(),
    ensures
        chosen(pairs, coins).len() <= pairs.len(),
        forall|i: int|
            0 <= i < chosen(pairs, coins).len() ==> pairs.contains(#[trigger] chosen(pairs, coins)[i]),
        pairs.no_duplicates() ==> chosen(pairs, coins).no_duplicates(),
        (forall|k: int| 0 <= k < coins.len() ==> coins[k]) ==> chosen(pairs, coins) == pairs,
        (forall|k: int| 0 <= k < coins.len() ==> !coins[k]) ==> chosen(pairs, coins).len() == 0,
    decreases pairs.len(),
{
    if pairs.len() > 0 {
        let front = pairs.drop_last();
        let rest = chosen(front, coins.drop_last());
        let kept = chosen(pairs, coins);
        lemma_chosen(front, coins.drop_last());
        assert forall|i: int| 0 <= i < kept.len() implies pairs.contains(#[trigger] kept[i]) by {
            if i < rest.len() {
                assert(kept[i] == rest[i]);
                let j = choose|j: int| 0 <= j < front.len() && front[j] == rest[i];
                assert(pairs[j] == kept[i]);
            } else {
                assert(kept[i] == pairs[pairs.len() - 1]);
            }
        }
        if pairs.no_duplicates() {
            assert(front.no_duplicates());
            assert forall|i: int, j: int| 0 <= i < kept.len() && 0 <= j < kept.len() && i
                != j implies kept[i] != kept[j] by {
                if i < rest.len() && j < rest.len() {
                    assert(kept[i] == rest[i] && kept[j] == rest[j]);
                } else {
                    let inner = if i < rest.len() {
                        i
                    } else {
                        j
                    };
                    assert(front.contains(rest[inner]));
                    let l = choose|l: int| 0 <= l < front.len() && front[l] == rest[inner];
                    assert(pairs[l] == rest[inner]);
                    assert(pairs[l] != pairs[pairs.len() - 1]);
                }
            }
        }
        if forall|k: int| 0 <= k < coins.len() ==> coins[k] {
            assert forall|k: int| 0 <= k < coins.drop_last().len() implies coins.drop_last()[k] by {
                assert(coins.drop_last()[k] == coins[k]);
            }
            assert(coins.last());
            assert(kept =~= pairs);
        }
        if forall|k: int| 0 <= k < coins.len() ==> !coins[k] {
            assert forall|k: int| 0 <= k < coins.drop_last().len() implies !coins.drop_last()[k] by {
                assert(coins.drop_last()[k] == coins[k]);
            }
            assert(!coins.last());
        }
    } else {
        assert(chosen(pairs, coins) =~= pairs);
    }
}

/// Taking one more pair with its coin: the choice grows by that pair if the
/// coin shows `true`, and stays as it is if not.
pub proof fn lemma_chosen_step(pairs: Seq<(usize, usize)>, coins: Seq<bool>, e: (usize, usize), coin: bool)
    requires
        coins.len() == pairs.len(),
    ensures
        chosen(pairs.push(e), coins.push(coin)) == if coin {
            chosen(pairs, coins).push(e)
        } else {
            chosen(pairs, coins)
        },
{
    assert(pairs.push(e).drop_last() =~= pairs);
    assert(coins.push(coin).drop_last() =~= coins);
}

} // verus!
