//! Histogram collection: a fixed number of timer samples is reduced to a
//! histogram over the low-order bits of each sample, a histogram over the
//! differences of adjacent samples, and a count of differences that fell
//! outside the difference histogram's range.

use vstd::prelude::*;
use crate::sums::{sum_counts, lemma_sum_element_le, lemma_sum_push, lemma_sum_update, lemma_sum_nonneg};
use crate::sampler::get_input;

verus! {

/// The two histograms one run collects.
pub struct DataOut {
    /// Counter per value of the `low_bits` low-order bits of a sample.
    pub low_bits: Vec<u32>,
    /// Counter per difference of adjacent samples, for differences in
    /// `[0, 2^diff_bits)`.
    pub diffs: Vec<u32>,
}

/// Number of bins of a histogram indexed by `bits` low-order bits.
pub open spec fn hist_size(bits: usize) -> int {
    (1usize << bits) as int
}

/// Mask keeping the `low_bits` low-order bits of a sample.
pub open spec fn low_mask(low_bits: usize) -> i64 {
    (((1usize << low_bits) - 1) as i64)
}

/// Bin of the low-bits histogram a sample falls in: its low-order bits.
pub open spec fn low_index(t: i64, low_bits: usize) -> int {
    (t & low_mask(low_bits)) as int
}

/// How many samples fall in bin `idx` of the low-bits histogram.
pub open spec fn low_count(samples: Seq<i64>, low_bits: usize, idx: int) -> int
    decreases samples.len(),
{
    if samples.len() == 0 {
        0
    } else {
        low_count(samples.drop_last(), low_bits, idx) + if low_index(
            samples.last(),
            low_bits,
        ) == idx {
            1int
        } else {
            0int
        }
    }
}

/// How many adjacent pairs of samples differ by exactly `d`.
pub open spec fn diff_count(samples: Seq<i64>, d: int) -> int
    decreases samples.len(),
{
    if samples.len() <= 1 {
        0
    } else {
        diff_count(samples.drop_last(), d) + if samples.last() - samples[samples.len() - 2]
            == d {
            1int
        } else {
            0int
        }
    }
}

/// Whether a difference lies outside the difference histogram's range.
/// A negative difference (the clock moved backward) is deliberately treated
/// the same way as one too large for the histogram.
pub open spec fn diff_out_of_range(d: int, diff_bits: usize) -> bool {
    d < 0 || d >= hist_size(diff_bits)
}

/// How many adjacent pairs of samples differ by an out-of-range amount.
pub open spec fn ignored_count(samples: Seq<i64>, diff_bits: usize) -> int
    decreases samples.len(),
{
    if samples.len() <= 1 {
        0
    } else {
        ignored_count(samples.drop_last(), diff_bits) + if diff_out_of_range(
            samples.last() - samples[samples.len() - 2],
            diff_bits,
        ) {
            1int
        } else {
            0int
        }
    }
}

/// A power of two with exponent below the index width fits comfortably.
proof fn lemma_pow2_usize_bounds(k: usize)
    by (bit_vector)
    requires
        k < 32,
    ensures
        1usize <= (1usize << k) <= 0x8000_0000usize,
{
}

/// Masking with a non-negative mask yields a value between zero and the mask.
proof fn lemma_and_mask_bounds(t: i64, m: i64)
    by (bit_vector)
    requires
        0 <= m,
    ensures
        0 <= (t & m) <= m,
{
}

/// Extending the sample prefix by one moves exactly one low-bits bin.
proof fn lemma_low_count_take_succ(samples: Seq<i64>, low_bits: usize, j: int, idx: int)
    requires
        0 <= j < samples.len(),
    ensures
        low_count(samples.take(j + 1), low_bits, idx) == low_count(samples.take(j), low_bits, idx)
            + if low_index(samples[j], low_bits) == idx {
            1int
        } else {
            0int
        },
{
    assert(samples.take(j + 1).drop_last() =~= samples.take(j));
    assert(samples.take(j + 1).last() == samples[j]);
}

/// Extending the sample prefix by one adds at most one difference.
proof fn lemma_diff_count_take_succ(samples: Seq<i64>, j: int, d: int)
    requires
        1 <= j < samples.len(),
    ensures
        diff_count(samples.take(j + 1), d) == diff_count(samples.take(j), d) + if samples[j]
            - samples[j - 1] == d {
            1int
        } else {
            0int
        },
{
    assert(samples.take(j + 1).drop_last() =~= samples.take(j));
}

/// Extending the sample prefix by one adds at most one ignored difference.
proof fn lemma_ignored_count_take_succ(samples: Seq<i64>, diff_bits: usize, j: int)
    requires
        1 <= j < samples.len(),
    ensures
        ignored_count(samples.take(j + 1), diff_bits) == ignored_count(samples.take(j), diff_bits)
            + if diff_out_of_range(samples[j] - samples[j - 1], diff_bits) {
            1int
        } else {
            0int
        },
{
    assert(samples.take(j + 1).drop_last() =~= samples.take(j));
}

/// A vector of `n` counters, all zero.
pub(crate) fn zero_counters(n: usize) -> (v: Vec<u32>)
    ensures
        v@.len() == n,
        forall|i: int| 0 <= i < n ==> v@[i] == 0,
        sum_counts(v@) == 0,
{
    let mut v: Vec<u32> = Vec::new();
    let mut j: usize = 0;
    while j < n
        invariant
            j <= n,
            v@.len() == j,
            forall|i: int| 0 <= i < j ==> v@[i] == 0,
            sum_counts(v@) == 0,
        decreases n - j,
    {
        proof {
            lemma_sum_push(v@, 0);
        }
        v.push(0);
        j = j + 1;
    }
    v
}

/// Accumulate the histograms over a given sequence of timestamp samples.
///
/// Every sample lands in one bin of the low-bits histogram. Every pair of
/// adjacent samples contributes its difference to one bin of the difference
/// histogram when the difference lies in `[0, 2^diff_bits)`, and to the
/// ignored count otherwise; the first sample has no predecessor and yields
/// no difference.
pub fn accumulate(samples: &Vec<i64>, low_bits: usize, diff_bits: usize) -> (r: (DataOut, u32))
    requires
        0 < low_bits < 32,
        0 < diff_bits < 32,
        samples@.len() <= u32::MAX,
    ensures
        r.0.low_bits@.len() == hist_size(low_bits),
        r.0.diffs@.len() == hist_size(diff_bits),
        forall|i: int|
            0 <= i < hist_size(low_bits) ==> r.0.low_bits@[i] == low_count(samples@, low_bits, i),
        forall|d: int| 0 <= d < hist_size(diff_bits) ==> r.0.diffs@[d] == diff_count(samples@, d),
        r.1 == ignored_count(samples@, diff_bits),
        sum_counts(r.0.low_bits@) == samples@.len(),
        sum_counts(r.0.diffs@) + r.1 == if samples@.len() == 0 {
            0int
        } else {
            samples@.len() - 1
        },
{
    proof {
        lemma_pow2_usize_bounds(low_bits);
        lemma_pow2_usize_bounds(diff_bits);
    }
    let n_low: usize = 1usize << low_bits;
    let max_diff: usize = 1usize << diff_bits;
    let mask: i64 = (n_low - 1) as i64;

    let mut low_hist: Vec<u32> = zero_counters(n_low);
    let mut diff_hist: Vec<u32> = zero_counters(max_diff);
    let mut ignored: u32 = 0;
    let mut last: i64 = 0;

    let mut j: usize = 0;
    while j < samples.len()
        invariant
            0 < low_bits < 32,
            0 < diff_bits < 32,
            samples@.len() <= u32::MAX,
            j <= samples@.len(),
            n_low == (1usize << low_bits),
            max_diff == (1usize << diff_bits),
            mask == low_mask(low_bits),
            low_hist@.len() == n_low,
            diff_hist@.len() == max_diff,
            j >= 1 ==> last == samples@[j - 1],
            forall|i: int|
                0 <= i < n_low ==> low_hist@[i] == low_count(samples@.take(j as int), low_bits, i),
            forall|d: int|
                0 <= d < max_diff ==> diff_hist@[d] == diff_count(samples@.take(j as int), d),
            ignored == ignored_count(samples@.take(j as int), diff_bits),
            sum_counts(low_hist@) == j,
            sum_counts(diff_hist@) + ignored == if j == 0 {
                0int
            } else {
                j - 1
            },
        decreases samples@.len() - j,
    {
        let sample: i64 = samples[j];

        // low-bits histogram: every sample lands in exactly one bin
        proof {
            lemma_pow2_usize_bounds(low_bits);
            lemma_and_mask_bounds(sample, mask);
        }
        let idx: usize = (sample & mask) as usize;
        let c: u32 = low_hist[idx];
        proof {
            lemma_sum_element_le(low_hist@, idx as int);
            lemma_sum_update(low_hist@, idx as int, (c + 1) as u32);
        }
        low_hist[idx] = c + 1;
        proof {
            assert forall|i: int| 0 <= i < n_low implies low_hist@[i] == low_count(
                samples@.take(j + 1),
                low_bits,
                i,
            ) by {
                lemma_low_count_take_succ(samples@, low_bits, j as int, i);
            }
        }

        // difference histogram: only samples with a predecessor contribute
        if j > 0 {
            let delta: i128 = (sample as i128) - (last as i128);
            if 0 <= delta && delta < (max_diff as i128) {
                let d: usize = delta as usize;
                let cd: u32 = diff_hist[d];
                proof {
                    lemma_sum_element_le(diff_hist@, d as int);
                    lemma_sum_update(diff_hist@, d as int, (cd + 1) as u32);
                }
                diff_hist[d] = cd + 1;
            } else {
                proof {
                    lemma_sum_nonneg(diff_hist@);
                }
                ignored = ignored + 1;
            }
            proof {
                assert forall|dd: int| 0 <= dd < max_diff implies diff_hist@[dd] == diff_count(
                    samples@.take(j + 1),
                    dd,
                ) by {
                    lemma_diff_count_take_succ(samples@, j as int, dd);
                }
                lemma_ignored_count_take_succ(samples@, diff_bits, j as int);
            }
        } else {
            proof {
                assert(samples@.take(1int).drop_last() =~= samples@.take(0int));
                assert forall|dd: int| 0 <= dd < max_diff implies diff_hist@[dd] == diff_count(
                    samples@.take(j + 1),
                    dd,
                ) by {
                    assert(diff_count(samples@.take(j + 1), dd) == 0);
                }
                assert(ignored_count(samples@.take(j + 1), diff_bits) == 0);
            }
        }

        last = sample;
        j = j + 1;
    }
    proof {
        assert(samples@.take(samples@.len() as int) =~= samples@);
    }
    (DataOut { low_bits: low_hist, diffs: diff_hist }, ignored)
}

/// Sample the timer `sample_count` times and accumulate the histograms.
///
/// The sample values depend on the clock, so the contract states what holds
/// of every outcome: every sample is counted in the low-bits histogram, and
/// every difference between adjacent samples is counted exactly once, either
/// in the difference histogram or as ignored.
pub fn collect(sample_count: usize, low_bits: usize, diff_bits: usize) -> (r: (DataOut, u32))
    requires
        0 < low_bits < 32,
        0 < diff_bits < 32,
        sample_count <= u32::MAX,
    ensures
        r.0.low_bits@.len() == hist_size(low_bits),
        r.0.diffs@.len() == hist_size(diff_bits),
        sum_counts(r.0.low_bits@) == sample_count,
        sum_counts(r.0.diffs@) + r.1 == if sample_count == 0 {
            0int
        } else {
            sample_count - 1
        },
{
    let mut samples: Vec<i64> = Vec::new();
    let mut j: usize = 0;
    while j < sample_count
        invariant
            j <= sample_count,
            samples@.len() == j,
        decreases sample_count - j,
    {
        let t: u64 = get_input();
        samples.push(#[verifier::truncate] (t as i64));
        j = j + 1;
    }
    accumulate(&samples, low_bits, diff_bits)
}

} // verus!
