//! Analysis of the collected difference histogram: folding to a smaller
//! number of bins, and per-bit frequency statistics from which marginal
//! probabilities and binary Shannon entropies are derived.
//!
//! Probabilities are exact rationals here: bit `b` is set with probability
//! `freq[b] / total`. The caller turns these into floating-point
//! probabilities and entropies; the classification of the degenerate cases
//! (entropy exactly zero) is decided here, in `entropy_is_zero`.

use vstd::prelude::*;
use crate::sums::{
    sum_counts,
    lemma_sum_element_le,
    lemma_sum_update,
    lemma_sum_take_succ,
    lemma_sum_take_le,
    lemma_sum_nonneg,
};
use crate::histogram::hist_size;

verus! {

/// Why an analysis step could not produce a result.
#[derive(Clone, Copy, Debug, PartialEq, Eq, Structural)]
pub enum AnalysisError {
    /// The folded histogram's size is not a power of two dividing the
    /// difference histogram's size.
    InvalidFoldConfig,
    /// The difference histogram is entirely empty, so no probability can be
    /// formed (it would divide by zero).
    InsufficientData,
}

/// A folded size is valid when it is a power of two that divides the
/// source histogram's size.
pub open spec fn valid_fold_config(len: int, low_diff: usize) -> bool {
    &&& low_diff > 0
    &&& (low_diff & ((low_diff - 1) as usize)) == 0
    &&& len % (low_diff as int) == 0
}

/// Sum of the bins of `diffs` whose index is congruent to `k` modulo `m`.
pub open spec fn fold_count(diffs: Seq<u32>, m: int, k: int) -> int
    decreases diffs.len(),
{
    if diffs.len() == 0 {
        0
    } else {
        fold_count(diffs.drop_last(), m, k) + if (diffs.len() - 1) % m == k {
            diffs.last() as int
        } else {
            0int
        }
    }
}

/// Whether bit `b` of the bin index `i` is set.
pub open spec fn nth_bit(i: usize, b: usize) -> bool {
    ((i >> b) & 1) == 1
}

/// Sum of the bins of `diffs` whose index has bit `b` set.
pub open spec fn bit_freq(diffs: Seq<u32>, b: usize) -> int
    decreases diffs.len(),
{
    if diffs.len() == 0 {
        0
    } else {
        bit_freq(diffs.drop_last(), b) + if nth_bit((diffs.len() - 1) as usize, b) {
            diffs.last() as int
        } else {
            0int
        }
    }
}

/// Extending the bin prefix by one adds that bin to exactly one folded bin.
proof fn lemma_fold_count_take_succ(diffs: Seq<u32>, m: int, j: int, k: int)
    requires
        0 <= j < diffs.len(),
    ensures
        fold_count(diffs.take(j + 1), m, k) == fold_count(diffs.take(j), m, k) + if j % m == k {
            diffs[j] as int
        } else {
            0int
        },
{
    assert(diffs.take(j + 1).drop_last() =~= diffs.take(j));
}

/// Extending the bin prefix by one adds that bin to the frequency of each
/// bit its index has set.
proof fn lemma_bit_freq_take_succ(diffs: Seq<u32>, j: int, b: usize)
    requires
        0 <= j < diffs.len(),
        diffs.len() <= usize::MAX,
    ensures
        bit_freq(diffs.take(j + 1), b) == bit_freq(diffs.take(j), b) + if nth_bit(j as usize, b) {
            diffs[j] as int
        } else {
            0int
        },
{
    assert(diffs.take(j + 1).drop_last() =~= diffs.take(j));
}

/// A per-bit frequency is bounded by the sum of all bins.
proof fn lemma_bit_freq_bounds(diffs: Seq<u32>, b: usize)
    ensures
        0 <= bit_freq(diffs, b) <= sum_counts(diffs),
    decreases diffs.len(),
{
    if diffs.len() > 0 {
        lemma_bit_freq_bounds(diffs.drop_last(), b);
    }
}

/// Fold the difference histogram down to `low_diff` bins: bin `k` of the
/// result accumulates every source bin whose index is congruent to `k`
/// modulo `low_diff`. Succeeds exactly when `low_diff` is a power of two
/// dividing the source size; a configuration that would mis-fold is
/// rejected rather than silently masked.
pub fn fold(diffs: &Vec<u32>, low_diff: usize) -> (r: Result<Vec<u32>, AnalysisError>)
    requires
        sum_counts(diffs@) <= u32::MAX,
    ensures
        match r {
            Ok(folded) => {
                &&& valid_fold_config(diffs@.len() as int, low_diff)
                &&& folded@.len() == low_diff
                &&& forall|k: int|
                    0 <= k < low_diff ==> folded@[k] == fold_count(diffs@, low_diff as int, k)
                &&& sum_counts(folded@) == sum_counts(diffs@)
            },
            Err(e) => {
                &&& e == AnalysisError::InvalidFoldConfig
                &&& !valid_fold_config(diffs@.len() as int, low_diff)
            },
        },
{
    if low_diff == 0 || (low_diff & (low_diff - 1)) != 0 || diffs.len() % low_diff != 0 {
        return Err(AnalysisError::InvalidFoldConfig);
    }
    let mut folded: Vec<u32> = crate::histogram::zero_counters(low_diff);
    let mut i: usize = 0;
    while i < diffs.len()
        invariant
            sum_counts(diffs@) <= u32::MAX,
            low_diff > 0,
            i <= diffs@.len(),
            folded@.len() == low_diff,
            forall|k: int|
                0 <= k < low_diff ==> folded@[k] == fold_count(
                    diffs@.take(i as int),
                    low_diff as int,
                    k,
                ),
            sum_counts(folded@) == sum_counts(diffs@.take(i as int)),
        decreases diffs@.len() - i,
    {
        let k: usize = i % low_diff;
        let n: u32 = diffs[i];
        let c: u32 = folded[k];
        proof {
            lemma_sum_element_le(folded@, k as int);
            lemma_sum_take_succ(diffs@, i as int);
            lemma_sum_take_le(diffs@, i + 1);
            lemma_sum_update(folded@, k as int, (c + n) as u32);
        }
        folded[k] = c + n;
        proof {
            assert forall|kk: int| 0 <= kk < low_diff implies folded@[kk] == fold_count(
                diffs@.take(i + 1),
                low_diff as int,
                kk,
            ) by {
                lemma_fold_count_take_succ(diffs@, low_diff as int, i as int, kk);
            }
        }
        i = i + 1;
    }
    proof {
        assert(diffs@.take(diffs@.len() as int) =~= diffs@);
    }
    Ok(folded)
}

/// Per-bit statistics of the difference histogram: for each bit position,
/// the total count of observed differences whose value has that bit set,
/// together with the total count of observed differences. The empirical
/// probability that bit `b` of a difference is set is the exact rational
/// `freq[b] / total`.
pub struct BitStats {
    /// For each bit position `b` below the histogram's index width, the
    /// count of observed differences with bit `b` set.
    pub freq: Vec<u32>,
    /// Count of all observed differences; positive, so each `freq[b] / total`
    /// is a well-formed probability.
    pub total: u32,
}

/// Compute the per-bit set-counts of the difference histogram. Succeeds
/// exactly when the histogram is non-empty; an all-zero histogram yields
/// `InsufficientData` since no probability could be formed from it.
///
/// Each frequency lies between zero and the total, so each probability
/// `freq[b] / total` lies in `[0, 1]`.
pub fn analyze_bits(diffs: &Vec<u32>, diff_bits: usize) -> (r: Result<BitStats, AnalysisError>)
    requires
        0 < diff_bits < 32,
        diffs@.len() == hist_size(diff_bits),
        sum_counts(diffs@) <= u32::MAX,
    ensures
        match r {
            Ok(stats) => {
                &&& sum_counts(diffs@) > 0
                &&& stats.freq@.len() == diff_bits
                &&& stats.total == sum_counts(diffs@)
                &&& forall|b: int|
                    0 <= b < diff_bits ==> stats.freq@[b] == bit_freq(diffs@, b as usize)
                &&& forall|b: int| 0 <= b < diff_bits ==> stats.freq@[b] <= stats.total
            },
            Err(e) => {
                &&& e == AnalysisError::InsufficientData
                &&& sum_counts(diffs@) == 0
            },
        },
{
    let mut freq: Vec<u32> = crate::histogram::zero_counters(diff_bits);
    let mut total: u32 = 0;
    let mut i: usize = 0;
    while i < diffs.len()
        invariant
            0 < diff_bits < 32,
            sum_counts(diffs@) <= u32::MAX,
            i <= diffs@.len(),
            diffs@.len() <= usize::MAX,
            freq@.len() == diff_bits,
            forall|b: int|
                0 <= b < diff_bits ==> freq@[b] == bit_freq(diffs@.take(i as int), b as usize),
            total == sum_counts(diffs@.take(i as int)),
        decreases diffs@.len() - i,
    {
        let n: u32 = diffs[i];
        proof {
            lemma_sum_take_succ(diffs@, i as int);
            lemma_sum_take_le(diffs@, i + 1);
            lemma_sum_nonneg(diffs@.take(i as int));
        }
        if n > 0 {
            let mut b: usize = 0;
            while b < diff_bits
                invariant
                    0 < diff_bits < 32,
                    sum_counts(diffs@) <= u32::MAX,
                    i < diffs@.len(),
                    diffs@.len() <= usize::MAX,
                    n == diffs@[i as int],
                    b <= diff_bits,
                    freq@.len() == diff_bits,
                    forall|bb: int|
                        0 <= bb < b ==> freq@[bb] == bit_freq(diffs@.take(i + 1), bb as usize),
                    forall|bb: int|
                        b <= bb < diff_bits ==> freq@[bb] == bit_freq(
                            diffs@.take(i as int),
                            bb as usize,
                        ),
                    sum_counts(diffs@.take(i + 1)) <= sum_counts(diffs@),
                decreases diff_bits - b,
            {
                proof {
                    lemma_bit_freq_take_succ(diffs@, i as int, b);
                    lemma_bit_freq_bounds(diffs@.take(i as int), b);
                    lemma_sum_take_succ(diffs@, i as int);
                }
                if (i >> b) & 1 == 1 {
                    let c: u32 = freq[b];
                    freq[b] = c + n;
                }
                b = b + 1;
            }
            total = total + n;
        } else {
            proof {
                assert forall|bb: int| 0 <= bb < diff_bits implies freq@[bb] == bit_freq(
                    diffs@.take(i + 1),
                    bb as usize,
                ) by {
                    lemma_bit_freq_take_succ(diffs@, i as int, bb as usize);
                }
            }
        }
        i = i + 1;
    }
    proof {
        assert(diffs@.take(diffs@.len() as int) =~= diffs@);
    }
    if total == 0 {
        Err(AnalysisError::InsufficientData)
    } else {
        proof {
            assert forall|b: int| 0 <= b < diff_bits implies freq@[b] <= total by {
                lemma_bit_freq_bounds(diffs@, b as usize);
            }
        }
        Ok(BitStats { freq, total })
    }
}

/// The binary Shannon entropy of the probability `freq / total` is exactly
/// zero when the probability is zero or one, and positive otherwise; this
/// decides which case holds, so the caller computing the entropy in
/// floating point never evaluates a logarithm of zero.
pub fn entropy_is_zero(freq: u32, total: u32) -> (r: bool)
    requires
        0 < total,
        freq <= total,
    ensures
        r <==> (freq == 0 || freq == total),
{
    freq == 0 || freq == total
}

/// Folding is deterministic: any two folded histograms of the same
/// difference histogram and folded size are equal.
pub proof fn lemma_fold_deterministic(diffs: Seq<u32>, low_diff: usize, f1: Seq<u32>, f2: Seq<u32>)
    requires
        f1.len() == low_diff,
        f2.len() == low_diff,
        forall|k: int| 0 <= k < low_diff ==> f1[k] == fold_count(diffs, low_diff as int, k),
        forall|k: int| 0 <= k < low_diff ==> f2[k] == fold_count(diffs, low_diff as int, k),
    ensures
        f1 == f2,
{
    assert(f1 =~= f2);
}

/// Per-bit analysis is deterministic: any two frequency vectors over the
/// same difference histogram and bit width are equal, as are the totals.
pub proof fn lemma_analyze_bits_deterministic(
    diffs: Seq<u32>,
    diff_bits: usize,
    s1: BitStats,
    s2: BitStats,
)
    requires
        s1.freq@.len() == diff_bits,
        s2.freq@.len() == diff_bits,
        forall|b: int| 0 <= b < diff_bits ==> s1.freq@[b] == bit_freq(diffs, b as usize),
        forall|b: int| 0 <= b < diff_bits ==> s2.freq@[b] == bit_freq(diffs, b as usize),
        s1.total == sum_counts(diffs),
        s2.total == sum_counts(diffs),
    ensures
        s1.freq@ == s2.freq@,
        s1.total == s2.total,
{
    assert(s1.freq@ =~= s2.freq@);
}

} // verus!
