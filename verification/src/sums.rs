//! Sums of sequences of counts.

use vstd::prelude::*;

verus! {

/// The sum of all `counts`.
pub open spec fn total(counts: Seq<nat>) -> nat
    decreases counts.len(),
{
    if counts.len() == 0 {
        0
    } else {
        total(counts.drop_last()) + counts.last()
    }
}

/// Replacing one count shifts the sum by the difference.
pub proof fn lemma_total_update(counts: Seq<nat>, i: int, count: nat)
    requires
        0 <= i < counts.len(),
    ensures
        total(counts.update(i, count)) + counts[i] == total(counts) + count,
    decreases counts.len(),
{
    let after = counts.update(i, count);
    if i == counts.len() - 1 {
        assert(after.drop_last() =~= counts.drop_last());
    } else {
        lemma_total_update(counts.drop_last(), i, count);
        assert(after.drop_last() =~= counts.drop_last().update(i, count));
    }
}

/// No count is larger than the sum.
pub proof fn lemma_total_bounds(counts: Seq<nat>, i: int)
    requires
        0 <= i < counts.len(),
    ensures
        counts[i] <= total(counts),
    decreases counts.len(),
{
    if i < counts.len() - 1 {
        lemma_total_bounds(counts.drop_last(), i);
    }
}

/// A prefix sums up to no more than the whole.
pub proof fn lemma_total_prefix(counts: Seq<nat>, n: int)
    requires
        0 <= n <= counts.len(),
    ensures
        total(counts.take(n)) <= total(counts),
        n < counts.len() ==> total(counts.take(n + 1)) == total(counts.take(n)) + counts[n],
    decreases counts.len(),
{
    if n < counts.len() {
        assert(counts.take(n + 1).drop_last() =~= counts.take(n));
        lemma_total_prefix(counts.drop_last(), n);
        assert(counts.drop_last().take(n) =~= counts.take(n));
    } else {
        assert(counts.take(n) =~= counts);
    }
}

/// Zeros sum up to zero.
pub proof fn lemma_total_zeros(counts: Seq<nat>)
    requires
        forall|i: int| 0 <= i < counts.len() ==> counts[i] == 0,
    ensures
        total(counts) == 0,
    decreases counts.len(),
{
    if counts.len() > 0 {
        lemma_total_zeros(counts.drop_last());
    }
}

} // verus!
