//! Summation over sequences of counters, with the lemmas the histogram
//! code needs to track totals across element updates.

use vstd::prelude::*;

verus! {

/// Mathematical sum of a sequence of counters.
pub open spec fn sum_counts(s: Seq<u32>) -> int
    decreases s.len(),
{
    if s.len() == 0 {
        0
    } else {
        sum_counts(s.drop_last()) + s.last()
    }
}

/// The sum of unsigned counters is never negative.
pub proof fn lemma_sum_nonneg(s: Seq<u32>)
    ensures
        sum_counts(s) >= 0,
    decreases s.len(),
{
    if s.len() > 0 {
        lemma_sum_nonneg(s.drop_last());
    }
}

/// Each counter is bounded by the sum of the whole sequence.
pub proof fn lemma_sum_element_le(s: Seq<u32>, i: int)
    requires
        0 <= i < s.len(),
    ensures
        s[i] <= sum_counts(s),
    decreases s.len(),
{
    if i == s.len() - 1 {
        lemma_sum_nonneg(s.drop_last());
    } else {
        lemma_sum_element_le(s.drop_last(), i);
    }
}

/// Appending a counter adds its value to the sum.
pub proof fn lemma_sum_push(s: Seq<u32>, v: u32)
    ensures
        sum_counts(s.push(v)) == sum_counts(s) + v,
{
    assert(s.push(v).drop_last() =~= s);
}

/// Overwriting one counter changes the sum by the difference.
pub proof fn lemma_sum_update(s: Seq<u32>, i: int, v: u32)
    requires
        0 <= i < s.len(),
    ensures
        sum_counts(s.update(i, v)) == sum_counts(s) - s[i] + v,
    decreases s.len(),
{
    if i == s.len() - 1 {
        assert(s.update(i, v).drop_last() =~= s.drop_last());
        assert(s.update(i, v).last() == v);
    } else {
        assert(s.update(i, v).drop_last() =~= s.drop_last().update(i, v));
        lemma_sum_update(s.drop_last(), i, v);
        assert(s.update(i, v).last() == s.last());
    }
}

/// Extending a prefix by one element adds that element to the prefix sum.
pub proof fn lemma_sum_take_succ(s: Seq<u32>, j: int)
    requires
        0 <= j < s.len(),
    ensures
        sum_counts(s.take(j + 1)) == sum_counts(s.take(j)) + s[j],
{
    assert(s.take(j + 1).drop_last() =~= s.take(j));
    assert(s.take(j + 1).last() == s[j]);
}

/// A prefix sum never exceeds the sum of the whole sequence.
pub proof fn lemma_sum_take_le(s: Seq<u32>, j: int)
    requires
        0 <= j <= s.len(),
    ensures
        sum_counts(s.take(j)) <= sum_counts(s),
    decreases s.len() - j,
{
    if j == s.len() {
        assert(s.take(j) =~= s);
    } else {
        lemma_sum_take_succ(s, j);
        lemma_sum_take_le(s, j + 1);
    }
}

} // verus!
