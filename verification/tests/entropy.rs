use timer_entropy::{accumulate, analyze_bits, collect, entropy_is_zero, fold, AnalysisError};

fn sum(counters: &[u32]) -> u64 {
    counters.iter().map(|&c| c as u64).sum()
}

/// Binary Shannon entropy of the probability `freq / total`, as the
/// reporting side computes it.
fn binary_entropy(freq: u32, total: u32) -> f64 {
    if entropy_is_zero(freq, total) {
        0.0
    } else {
        let p = freq as f64 / total as f64;
        p * -p.log2() + (1.0 - p) * -(1.0 - p).log2()
    }
}

#[test]
fn low_bits_conservation() {
    let samples: Vec<i64> = vec![3, 900, 1027, 1027, -5, 4096, 77];
    let (data, _ignored) = accumulate(&samples, 10, 10);
    assert_eq!(data.low_bits.len(), 1024);
    assert_eq!(sum(&data.low_bits), samples.len() as u64);
}

#[test]
fn diff_conservation() {
    let samples: Vec<i64> = vec![3, 900, 1027, 1027, -5, 4096, 77];
    let (data, ignored) = accumulate(&samples, 10, 10);
    assert_eq!(data.diffs.len(), 1024);
    assert_eq!(sum(&data.diffs) + ignored as u64, samples.len() as u64 - 1);
}

#[test]
fn empty_and_single_sample_runs() {
    let (data, ignored) = accumulate(&Vec::new(), 10, 10);
    assert_eq!(sum(&data.low_bits), 0);
    assert_eq!(sum(&data.diffs), 0);
    assert_eq!(ignored, 0);

    let (data, ignored) = accumulate(&vec![42], 10, 10);
    assert_eq!(sum(&data.low_bits), 1);
    assert_eq!(data.low_bits[42], 1);
    assert_eq!(sum(&data.diffs), 0);
    assert_eq!(ignored, 0);
}

#[test]
fn low_bits_binning() {
    // 1027 = 1024 + 3 shares the bin of 3; a negative sample is binned by
    // its low-order bits as well.
    let samples: Vec<i64> = vec![3, 1027, -1];
    let (data, _ignored) = accumulate(&samples, 10, 10);
    assert_eq!(data.low_bits[3], 2);
    assert_eq!(data.low_bits[1023], 1);
}

#[test]
fn monotonic_constant_step() {
    // A monotonically increasing sequence with constant step 1 puts every
    // difference in bin 1 and ignores none.
    let samples: Vec<i64> = (0..1000).collect();
    let (data, ignored) = accumulate(&samples, 10, 10);
    assert_eq!(data.diffs[1], 999);
    assert_eq!(sum(&data.diffs), 999);
    assert_eq!(ignored, 0);
}

#[test]
fn over_range_difference_is_ignored() {
    // One difference at or above 2^10 increments the ignored count by
    // exactly 1 and no difference bin.
    let samples: Vec<i64> = vec![0, 2048];
    let (data, ignored) = accumulate(&samples, 10, 10);
    assert_eq!(ignored, 1);
    assert_eq!(sum(&data.diffs), 0);
}

#[test]
fn backward_clock_jump_is_ignored() {
    // A negative difference is merged into the same ignored bucket as an
    // over-range one.
    let samples: Vec<i64> = vec![1000, 900, 901];
    let (data, ignored) = accumulate(&samples, 10, 10);
    assert_eq!(ignored, 1);
    assert_eq!(data.diffs[1], 1);
    assert_eq!(sum(&data.diffs), 1);
}

#[test]
fn boundary_differences() {
    // 1023 is the largest representable difference; 1024 is the smallest
    // ignored one; 0 is representable.
    let samples: Vec<i64> = vec![0, 1023, 1023, 2047];
    let (data, ignored) = accumulate(&samples, 10, 10);
    assert_eq!(data.diffs[1023], 1);
    assert_eq!(data.diffs[0], 1);
    assert_eq!(data.diffs[1024 - 1], 1);
    assert_eq!(ignored, 1);
}

#[test]
fn fold_sums_congruent_bins() {
    let diffs: Vec<u32> = vec![1, 2, 3, 4, 5, 6, 7, 8];
    let folded = fold(&diffs, 4).unwrap();
    assert_eq!(folded, vec![1 + 5, 2 + 6, 3 + 7, 4 + 8]);
    assert_eq!(sum(&folded), sum(&diffs));
}

#[test]
fn fold_preserves_sum() {
    let diffs: Vec<u32> = vec![9, 0, 0, 1, 30, 2, 2, 2, 0, 0, 0, 0, 5, 5, 5, 5];
    for low_diff in [1, 2, 4, 8, 16] {
        let folded = fold(&diffs, low_diff).unwrap();
        assert_eq!(folded.len(), low_diff);
        assert_eq!(sum(&folded), sum(&diffs));
    }
}

#[test]
fn fold_rejects_invalid_configurations() {
    let diffs: Vec<u32> = vec![1, 2, 3, 4, 5, 6, 7, 8];
    assert_eq!(fold(&diffs, 0), Err(AnalysisError::InvalidFoldConfig));
    assert_eq!(fold(&diffs, 3), Err(AnalysisError::InvalidFoldConfig));
    assert_eq!(fold(&vec![1, 2, 3, 4, 5, 6], 4), Err(AnalysisError::InvalidFoldConfig));
}

#[test]
fn fold_is_deterministic() {
    let diffs: Vec<u32> = vec![1, 0, 7, 0, 0, 2, 0, 9];
    assert_eq!(fold(&diffs, 4).unwrap(), fold(&diffs, 4).unwrap());
}

#[test]
fn analyze_bits_counts_set_bits() {
    // Bin 5 (binary 101) with count 7 and bin 2 (binary 010) with count 3:
    // bit 0 and bit 2 are set in 7 observations, bit 1 in 3.
    let mut diffs: Vec<u32> = vec![0; 1024];
    diffs[5] = 7;
    diffs[2] = 3;
    let stats = analyze_bits(&diffs, 10).unwrap();
    assert_eq!(stats.total, 10);
    assert_eq!(stats.freq[0], 7);
    assert_eq!(stats.freq[1], 3);
    assert_eq!(stats.freq[2], 7);
    for b in 3..10 {
        assert_eq!(stats.freq[b], 0);
    }
}

#[test]
fn analyze_bits_is_deterministic() {
    let mut diffs: Vec<u32> = vec![0; 1024];
    diffs[175] = 60000;
    diffs[200] = 40000;
    let s1 = analyze_bits(&diffs, 10).unwrap();
    let s2 = analyze_bits(&diffs, 10).unwrap();
    assert_eq!(s1.freq, s2.freq);
    assert_eq!(s1.total, s2.total);
}

#[test]
fn analyze_bits_rejects_empty_histogram() {
    let diffs: Vec<u32> = vec![0; 1024];
    assert!(matches!(analyze_bits(&diffs, 10), Err(AnalysisError::InsufficientData)));
}

#[test]
fn all_counts_on_zero_give_zero_entropy() {
    // Every difference is 0, so no bit is ever set: every probability is 0,
    // every per-bit entropy is 0, and so is their sum.
    let diffs: Vec<u32> = vec![100, 0, 0, 0];
    let stats = analyze_bits(&diffs, 2).unwrap();
    assert_eq!(stats.total, 100);
    let mut total_entropy = 0.0;
    for b in 0..2 {
        assert_eq!(stats.freq[b], 0);
        assert_eq!(stats.freq[b] as f64 / stats.total as f64, 0.0);
        assert!(entropy_is_zero(stats.freq[b], stats.total));
        total_entropy += binary_entropy(stats.freq[b], stats.total);
    }
    assert_eq!(total_entropy, 0.0);
}

#[test]
fn even_split_gives_one_bit_of_entropy() {
    // Differences 0 and 1 each occur 50 times: bit 0 is set with
    // probability one half and carries exactly one bit of entropy; bit 1 is
    // never set.
    let diffs: Vec<u32> = vec![50, 50, 0, 0];
    let stats = analyze_bits(&diffs, 2).unwrap();
    assert_eq!(stats.total, 100);
    assert_eq!(stats.freq[0], 50);
    assert_eq!(stats.freq[0] as f64 / stats.total as f64, 0.5);
    assert!(!entropy_is_zero(stats.freq[0], stats.total));
    assert_eq!(binary_entropy(stats.freq[0], stats.total), 1.0);
    assert_eq!(stats.freq[1], 0);
    assert_eq!(stats.freq[1] as f64 / stats.total as f64, 0.0);
    assert!(entropy_is_zero(stats.freq[1], stats.total));
    assert_eq!(binary_entropy(stats.freq[1], stats.total), 0.0);
}

#[test]
fn probabilities_are_bounded() {
    let samples: Vec<i64> = (0..5000).map(|i| i * 37 % 4000).collect();
    let (data, _ignored) = accumulate(&samples, 10, 10);
    if let Ok(stats) = analyze_bits(&data.diffs, 10) {
        for b in 0..10 {
            assert!(stats.freq[b] <= stats.total);
            let p = stats.freq[b] as f64 / stats.total as f64;
            assert!((0.0..=1.0).contains(&p));
        }
    }
}

#[test]
fn entropy_is_zero_cases() {
    assert!(entropy_is_zero(0, 10));
    assert!(entropy_is_zero(10, 10));
    assert!(!entropy_is_zero(1, 10));
    assert!(!entropy_is_zero(9, 10));
}

#[test]
fn collect_conserves_counts() {
    // Runs against the real clock: whatever values come back, every sample
    // is counted once and every difference once.
    let (data, ignored) = collect(500, 10, 10);
    assert_eq!(sum(&data.low_bits), 500);
    assert_eq!(sum(&data.diffs) + ignored as u64, 499);
}

#[test]
fn full_pipeline_on_collected_data() {
    let (data, ignored) = collect(2000, 10, 10);
    assert_eq!(sum(&data.diffs) + ignored as u64, 1999);
    let folded = fold(&data.diffs, 32).unwrap();
    assert_eq!(sum(&folded), sum(&data.diffs));
    if sum(&data.diffs) > 0 {
        let stats = analyze_bits(&data.diffs, 10).unwrap();
        assert_eq!(stats.total as u64, sum(&data.diffs));
        let total_entropy: f64 =
            (0..10).map(|b| binary_entropy(stats.freq[b], stats.total)).sum();
        assert!((0.0..=10.0).contains(&total_entropy));
    }
}

#[test]
fn to_nanos_combines_seconds_and_remainder() {
    assert_eq!(timer_entropy::to_nanos(0, 0), 0);
    assert_eq!(timer_entropy::to_nanos(0, 999_999_999), 999_999_999);
    assert_eq!(timer_entropy::to_nanos(3, 250), 3_000_000_250);
    assert_eq!(timer_entropy::to_nanos(1_700_000_000, 123_456_789), 1_700_000_000_123_456_789);
}

#[test]
fn to_nanos_reduces_modulo_two_to_the_64() {
    // 2^55 seconds is 2^64 nanoseconds exactly, which reduces to zero.
    assert_eq!(timer_entropy::to_nanos(1u64 << 55, 0), 0);
    assert_eq!(timer_entropy::to_nanos(1u64 << 55, 7), 7);
    assert_eq!(timer_entropy::to_nanos(u64::MAX, 999_999_999), u64::MAX);
}

#[test]
fn get_input_returns_nanoseconds() {
    let a = timer_entropy::get_input();
    assert!(a > 0);
}
