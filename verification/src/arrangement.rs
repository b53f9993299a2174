//! Arrangements of blue discs among a total for which two discs drawn
//! without replacement are both blue with a chance of exactly one half.
//!
//! From one such arrangement the next larger one follows by a linear step,
//! so the arrangements above any bound are found without search.
use vstd::prelude::*;

verus! {

/// Drawing two of `total` discs, `blue` of them blue, gives two blue discs
/// with a chance of exactly one half.
pub open spec fn balanced(blue: int, total: int) -> bool {
    2 * (blue * (blue - 1)) == total * (total - 1)
}

/// The arrangement that follows `(blue, total)`.
pub open spec fn successor(blue: int, total: int) -> (int, int) {
    (3 * blue + 2 * total - 2, 4 * blue + 3 * total - 3)
}

/// The `k`-th arrangement, counted from 15 blue discs of 21.
pub open spec fn arrangement(k: nat) -> (int, int)
    decreases k,
{
    if k == 0 {
        (15, 21)
    } else {
        successor(arrangement((k - 1) as nat).0, arrangement((k - 1) as nat).1)
    }
}

/// The step from one arrangement to the next keeps the chance at one half.
pub proof fn lemma_successor_balanced(blue: int, total: int)
    requires
        balanced(blue, total),
    ensures
        balanced(successor(blue, total).0, successor(blue, total).1),
{
    let b = 3 * blue + 2 * total - 2;
    let t = 4 * blue + 3 * total - 3;
    assert(2 * (b * (b - 1)) - t * (t - 1) == 2 * (blue * (blue - 1)) - total * (total - 1))
        by (nonlinear_arith)
        requires
            b == 3 * blue + 2 * total - 2,
            t == 4 * blue + 3 * total - 3,
    ;
}

/// Every arrangement is balanced and has fewer blue discs than discs, and
/// each has more discs than the one before.
pub proof fn lemma_arrangement(k: nat)
    ensures
        balanced(arrangement(k).0, arrangement(k).1),
        0 < arrangement(k).0 < arrangement(k).1,
        arrangement(k + 1) == successor(arrangement(k).0, arrangement(k).1),
        arrangement(k).1 < arrangement(k + 1).1,
    decreases k,
{
    if k == 0 {
        assert(balanced(15, 21)) by (nonlinear_arith);
    } else {
        lemma_arrangement((k - 1) as nat);
        lemma_successor_balanced(arrangement((k - 1) as nat).0, arrangement((k - 1) as nat).1);
    }
    assert(arrangement(k + 1) == successor(arrangement(k).0, arrangement(k).1));
}

/// The totals of the arrangements grow with their index.
pub proof fn lemma_totals_increase(j: nat, k: nat)
    requires
        j <= k,
    ensures
        arrangement(j).1 <= arrangement(k).1,
        j < k ==> arrangement(j).1 < arrangement(k).1,
    decreases k - j,
{
    if j < k {
        lemma_arrangement(j);
        lemma_totals_increase(j + 1, k);
    }
}

/// The arrangement that follows `(blue, total)`.
pub fn next_arrangement(blue: u64, total: u64) -> (next: (u64, u64))
    requires
        0 < blue <= total,
        successor(blue as int, total as int).1 <= u64::MAX,
    ensures
        (next.0 as int, next.1 as int) == successor(blue as int, total as int),
{
    (3 * blue + (2 * total - 2), 4 * blue + (3 * total - 3))
}

/// The first arrangement of the sequence with at least `target` discs, or
/// `None` where that arrangement is beyond the range of the integers.
pub fn first_arrangement(target: u64) -> (found: Option<(u64, u64)>)
    ensures
        found is None <==> forall|k: nat|
            #[trigger] arrangement(k).1 < target || arrangement(k).1 > u64::MAX,
        found matches Some(pair) ==> {
            &&& balanced(pair.0 as int, pair.1 as int)
            &&& pair.1 >= target
            &&& exists|k: nat|
                {
                    &&& (pair.0 as int, pair.1 as int) == #[trigger] arrangement(k)
                    &&& forall|j: nat| j < k ==> #[trigger] arrangement(j).1 < target
                }
        },
{
    let mut blue: u64 = 15;
    let mut total: u64 = 21;
    let ghost reached: nat = 0;
    while total < target
        invariant
            (blue as int, total as int) == arrangement(reached),
            forall|j: nat| j < reached ==> #[trigger] arrangement(j).1 < target,
        decreases
                if total < target {
                    target - total
                } else {
                    0
                },
    {
        proof {
            lemma_arrangement(reached);
        }
        let wide_total: u128 = 4 * (blue as u128) + 3 * (total as u128) - 3;
        if wide_total > u64::MAX as u128 {
            proof {
                assert forall|k: nat|
                    #[trigger] arrangement(k).1 < target || arrangement(k).1 > u64::MAX by {
                    if k > reached {
                        lemma_totals_increase(reached + 1, k);
                    } else if k < reached {
                    }
                }
            }
            return None;
        }
        let next = next_arrangement(blue, total);
        proof {
            assert forall|j: nat| j < reached + 1 implies #[trigger] arrangement(j).1 < target by {
                if j < reached {
                }
            }
            reached = reached + 1;
        }
        blue = next.0;
        total = next.1;
    }
    proof {
        lemma_arrangement(reached);
        assert(target <= arrangement(reached).1 <= u64::MAX);
    }
    Some((blue, total))
}

} // verus!
