//! The sequential core of the Monte Carlo harness: running batches of
//! independent games and reducing their outcomes into two frequency tables,
//! one for turns-to-win and one for turns-to-loss. The reduction is
//! insensitive to the order outcomes arrive in, so any number of workers can
//! feed it.

use vstd::prelude::*;
use crate::simulation::simulation_run;

verus! {

/// The total of the first `upto` frequencies of a table.
pub open spec fn sum_counts(s: Seq<usize>, upto: int) -> int
    decreases upto,
{
    if upto <= 0 {
        0
    } else {
        sum_counts(s, upto - 1) + s[upto - 1]
    }
}

/// How many of the first `upto` outcomes land in the bucket `v` of the win
/// table (nonnegative outcomes) or of the loss table (negated outcomes).
pub open spec fn count_outcomes(outcomes: Seq<isize>, wins_side: bool, v: int, upto: int) -> int
    decreases upto,
{
    if upto <= 0 {
        0
    } else {
        count_outcomes(outcomes, wins_side, v, upto - 1) + (if wins_side {
            if outcomes[upto - 1] >= 0 && outcomes[upto - 1] == v {
                1int
            } else {
                0int
            }
        } else {
            if outcomes[upto - 1] < 0 && -outcomes[upto - 1] == v {
                1int
            } else {
                0int
            }
        })
    }
}

/// Bumps the frequency for `index`, growing the table with zero-filled
/// buckets when the index lies beyond its current size.
pub fn increment(result: &mut Vec<usize>, index: usize)
    requires
        index < usize::MAX,
        index < old(result)@.len() ==> old(result)@[index as int] < usize::MAX,
    ensures
        final(result)@.len() == if index < old(result)@.len() {
            old(result)@.len() as int
        } else {
            index + 1
        },
        final(result)@[index as int] == (if index < old(result)@.len() {
            old(result)@[index as int] + 1
        } else {
            1int
        }),
        forall|j: int|
            0 <= j < old(result)@.len() && j != index ==> final(result)@[j] == old(result)@[j],
        forall|j: int|
            old(result)@.len() <= j < final(result)@.len() && j != index ==> final(result)@[j]
                == 0,
{
    if index >= result.len() {
        while result.len() < index + 1
            invariant
                old(result)@.len() <= result@.len() <= index + 1,
                index < usize::MAX,
                forall|j: int| 0 <= j < old(result)@.len() ==> result@[j] == old(result)@[j],
                forall|j: int| old(result)@.len() <= j < result@.len() ==> result@[j] == 0,
            decreases index + 1 - result@.len(),
        {
            result.push(0);
        }
    }
    let v = result[index];
    result[index] = v + 1;
}

/// Runs one batch of games back to back, collecting each game's outcome.
pub fn run_single(n_sims: usize) -> (r: Vec<isize>)
    ensures
        r@.len() == n_sims,
        forall|i: int| 0 <= i < r@.len() ==> -54 <= #[trigger] r@[i] <= 54 && r@[i] != 0,
{
    let mut outcomes: Vec<isize> = Vec::new();
    let mut k: usize = 0;
    while k < n_sims
        invariant
            0 <= k <= n_sims,
            outcomes@.len() == k,
            forall|i: int| 0 <= i < outcomes@.len() ==> -54 <= #[trigger] outcomes@[i] <= 54
                && outcomes@[i] != 0,
        decreases n_sims - k,
    {
        let n_turns = simulation_run();
        outcomes.push(n_turns);
        k = k + 1;
    }
    outcomes
}

/// A frequency table's total only changes at the bumped bucket: stepping one
/// outcome into a table adds exactly one to its total.
proof fn lemma_sum_after_increment(a: Seq<usize>, b: Seq<usize>, idx: int, k: int)
    requires
        0 <= idx < b.len(),
        a.len() <= b.len(),
        forall|j: int| 0 <= j < a.len() && j != idx ==> b[j] == a[j],
        forall|j: int| a.len() <= j < b.len() && j != idx ==> b[j] == 0,
        b[idx] == (if idx < a.len() {
            a[idx] + 1int
        } else {
            1int
        }),
        0 <= k <= b.len(),
    ensures
        sum_counts(b, k) == sum_counts(a, if k <= a.len() {
            k
        } else {
            a.len() as int
        }) + (if idx < k {
            1int
        } else {
            0int
        }),
    decreases k,
{
    if k > 0 {
        lemma_sum_after_increment(a, b, idx, k - 1);
    }
}

/// Reduces a batch of game outcomes into the two frequency tables: wins keyed
/// by turn count, losses keyed by negated turn count. Every outcome lands in
/// exactly one bucket of one table, so the tables' totals add up to the
/// number of outcomes.
pub fn tally(outcomes: &Vec<isize>) -> (r: (Vec<usize>, Vec<usize>))
    requires
        forall|i: int| 0 <= i < outcomes@.len() ==> #[trigger] outcomes@[i] != isize::MIN,
        outcomes@.len() < usize::MAX,
    ensures
        r.0@.len() >= 20,
        r.1@.len() >= 20,
        forall|v: int|
            0 <= v < r.0@.len() ==> #[trigger] r.0@[v] == count_outcomes(
                outcomes@,
                true,
                v,
                outcomes@.len() as int,
            ),
        forall|v: int|
            0 <= v < r.1@.len() ==> #[trigger] r.1@[v] == count_outcomes(
                outcomes@,
                false,
                v,
                outcomes@.len() as int,
            ),
        forall|v: int|
            v >= r.0@.len() ==> count_outcomes(outcomes@, true, v, outcomes@.len() as int) == 0,
        forall|v: int|
            v >= r.1@.len() ==> count_outcomes(outcomes@, false, v, outcomes@.len() as int) == 0,
        sum_counts(r.0@, r.0@.len() as int) + sum_counts(r.1@, r.1@.len() as int)
            == outcomes@.len(),
{
    let mut wins: Vec<usize> = Vec::new();
    let mut losses: Vec<usize> = Vec::new();
    while wins.len() < 20
        invariant
            wins@.len() <= 20,
            forall|j: int| 0 <= j < wins@.len() ==> wins@[j] == 0,
        decreases 20 - wins@.len(),
    {
        wins.push(0);
    }
    while losses.len() < 20
        invariant
            losses@.len() <= 20,
            forall|j: int| 0 <= j < losses@.len() ==> losses@[j] == 0,
        decreases 20 - losses@.len(),
    {
        losses.push(0);
    }
    proof {
        lemma_sum_zero(wins@, wins@.len() as int);
        lemma_sum_zero(losses@, losses@.len() as int);
        lemma_count_zero(outcomes@, true, 0);
        lemma_count_zero(outcomes@, false, 0);
    }
    let n = outcomes.len();
    let mut i: usize = 0;
    while i < n
        invariant
            0 <= i <= n,
            n == outcomes@.len(),
            n < usize::MAX,
            forall|t: int| 0 <= t < outcomes@.len() ==> #[trigger] outcomes@[t] != isize::MIN,
            wins@.len() >= 20,
            losses@.len() >= 20,
            forall|v: int|
                0 <= v < wins@.len() ==> #[trigger] wins@[v] == count_outcomes(
                    outcomes@,
                    true,
                    v,
                    i as int,
                ),
            forall|v: int|
                v >= wins@.len() ==> count_outcomes(outcomes@, true, v, i as int) == 0,
            forall|v: int|
                0 <= v < losses@.len() ==> #[trigger] losses@[v] == count_outcomes(
                    outcomes@,
                    false,
                    v,
                    i as int,
                ),
            forall|v: int|
                v >= losses@.len() ==> count_outcomes(outcomes@, false, v, i as int) == 0,
            sum_counts(wins@, wins@.len() as int) + sum_counts(losses@, losses@.len() as int)
                == i,
        decreases n - i,
    {
        let ghost old_wins = wins@;
        let ghost old_losses = losses@;
        let outcome = outcomes[i];
        if outcome < 0 {
            let n_turns = -outcome;
            proof {
                lemma_count_le(outcomes@, false, n_turns as int, i as int);
            }
            increment(&mut losses, n_turns as usize);
            proof {
                lemma_sum_after_increment(
                    old_losses,
                    losses@,
                    n_turns as int,
                    losses@.len() as int,
                );
                assert forall|v: int|
                    0 <= v < losses@.len() implies #[trigger] losses@[v] == count_outcomes(
                    outcomes@,
                    false,
                    v,
                    i as int + 1,
                ) by {
                    if v >= old_losses.len() && v != n_turns {
                        assert(count_outcomes(outcomes@, false, v, i as int) == 0);
                    }
                }
                assert forall|v: int| v >= losses@.len() implies #[trigger] count_outcomes(
                    outcomes@,
                    false,
                    v,
                    i as int + 1,
                ) == 0 by {
                    assert(count_outcomes(outcomes@, false, v, i as int) == 0);
                }
                assert forall|v: int| v >= wins@.len() implies #[trigger] count_outcomes(
                    outcomes@,
                    true,
                    v,
                    i as int + 1,
                ) == 0 by {
                    assert(count_outcomes(outcomes@, true, v, i as int) == 0);
                }
            }
        } else {
            proof {
                lemma_count_le(outcomes@, true, outcome as int, i as int);
            }
            increment(&mut wins, outcome as usize);
            proof {
                lemma_sum_after_increment(old_wins, wins@, outcome as int, wins@.len() as int);
                assert forall|v: int|
                    0 <= v < wins@.len() implies #[trigger] wins@[v] == count_outcomes(
                    outcomes@,
                    true,
                    v,
                    i as int + 1,
                ) by {
                    if v >= old_wins.len() && v != outcome {
                        assert(count_outcomes(outcomes@, true, v, i as int) == 0);
                    }
                }
                assert forall|v: int| v >= wins@.len() implies #[trigger] count_outcomes(
                    outcomes@,
                    true,
                    v,
                    i as int + 1,
                ) == 0 by {
                    assert(count_outcomes(outcomes@, true, v, i as int) == 0);
                }
                assert forall|v: int| v >= losses@.len() implies #[trigger] count_outcomes(
                    outcomes@,
                    false,
                    v,
                    i as int + 1,
                ) == 0 by {
                    assert(count_outcomes(outcomes@, false, v, i as int) == 0);
                }
            }
        }
        i = i + 1;
    }
    (wins, losses)
}

proof fn lemma_sum_zero(s: Seq<usize>, upto: int)
    requires
        upto <= s.len(),
        forall|j: int| 0 <= j < s.len() ==> s[j] == 0,
    ensures
        sum_counts(s, upto) == 0,
    decreases upto,
{
    if upto > 0 {
        lemma_sum_zero(s, upto - 1);
    }
}

proof fn lemma_count_zero(outcomes: Seq<isize>, wins_side: bool, upto: int)
    ensures
        forall|v: int| count_outcomes(outcomes, wins_side, v, 0) == 0,
{
}

/// A bucket's count never exceeds the number of outcomes scanned, which keeps
/// the frequency type from overflowing.
proof fn lemma_count_le(outcomes: Seq<isize>, wins_side: bool, v: int, upto: int)
    requires
        0 <= upto,
    ensures
        0 <= count_outcomes(outcomes, wins_side, v, upto) <= upto,
    decreases upto,
{
    if upto > 0 {
        lemma_count_le(outcomes, wins_side, v, upto - 1);
    }
}

} // verus!
