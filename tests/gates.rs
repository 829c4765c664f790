use poneglyphdb::ops::{GroupByOp, RangeCheckOp};
use poneglyphdb::optimization::{distinct_group_bys, distinct_range_checks};
use poneglyphdb::aggregation::aggregation_witness;
use poneglyphdb::group_by::group_witness;
use poneglyphdb::join::join_witness;
use poneglyphdb::range_check::{check_less_than, decompose_64bit};
use poneglyphdb::sort::{is_non_decreasing, sort_witness, sorted_copy};
use ff::Field;
use pasta_curves::Fp;
use poneglyphdb::SynthesisError;

#[test]
fn decompose_splits_into_little_endian_bytes() {
    let chunks = decompose_64bit(0x0102_0304_0506_0708);
    assert_eq!(chunks, vec![8, 7, 6, 5, 4, 3, 2, 1]);
    assert_eq!(decompose_64bit(0), vec![0; 8]);
    assert_eq!(decompose_64bit(u64::MAX), vec![255; 8]);
}

#[test]
fn less_than_around_threshold() {
    let t = 100u64;
    assert_eq!(check_less_than(t - 1, t, 0).check, 1);
    assert_eq!(check_less_than(t, t, 0).check, 0);
    assert_eq!(check_less_than(t + 1, t, 0).check, 0);
}

#[test]
fn less_than_residue_and_table_flag() {
    let w = check_less_than(10, 20, 10);
    assert_eq!(w.check, 1);
    assert_eq!(w.diff, 1 + 10 - 20 - 10);
    assert!(w.diff_in_table);
    let w = check_less_than(30, 20, 0);
    assert_eq!(w.check, 0);
    assert_eq!(w.diff, 10);
    assert!(check_less_than(0, 5, 255).diff_in_table);
    assert!(!check_less_than(0, 5, 256).diff_in_table);
}

#[test]
fn less_than_for_all_small_thresholds() {
    for t in 0u64..256 {
        for x in [0u64, t.saturating_sub(1), t, t + 1, u64::MAX] {
            let expected = if x < t { 1 } else { 0 };
            assert_eq!(check_less_than(x, t, 0).check, expected);
        }
    }
}

#[test]
fn sorted_copy_sorts_and_keeps_values() {
    assert_eq!(sorted_copy(&[300, 100, 200, 100]), vec![100, 100, 200, 300]);
    assert_eq!(sorted_copy(&[]), Vec::<u64>::new());
    assert_eq!(sorted_copy(&[7]), vec![7]);
}

#[test]
fn sort_witness_gives_adjacent_differences() {
    let w = sort_witness(&[300, 100, 200], &[100, 200, 300]).unwrap();
    assert_eq!(w.diffs, vec![100, 100]);
    let w = sort_witness(&[5, 5, 5], &[5, 5, 5]).unwrap();
    assert_eq!(w.diffs, vec![0, 0]);
    assert_eq!(sort_witness(&[], &[]).unwrap().diffs, Vec::<u64>::new());
    assert_eq!(sort_witness(&[4], &[4]).unwrap().diffs, Vec::<u64>::new());
}

#[test]
fn sort_witness_errors() {
    assert_eq!(sort_witness(&[1, 2], &[1]).err(), Some(SynthesisError::LengthMismatch));
    assert_eq!(sort_witness(&[1, 2], &[2, 1]).err(), Some(SynthesisError::NotSorted));
    assert_eq!(sort_witness(&[1, 2], &[1, 3]).err(), Some(SynthesisError::NotPermutation));
    assert_eq!(sort_witness(&[1, 1, 2], &[1, 2, 2]).err(), Some(SynthesisError::NotPermutation));
}

#[test]
fn group_boundaries_mark_key_changes() {
    let w = group_witness(&[1, 1, 2]);
    assert_eq!(w.boundaries, vec![0, 1]);
    assert_eq!(w.gaps, vec![0, 1]);
    let w = group_witness(&[1, 2, 3, 4]);
    assert_eq!(w.boundaries, vec![1, 1, 1]);
    let w = group_witness(&[7, 7, 7]);
    assert_eq!(w.boundaries, vec![0, 0]);
}

#[test]
fn group_boundaries_empty_and_single() {
    let w = group_witness(&[]);
    assert!(w.boundaries.is_empty());
    let w = group_witness(&[9]);
    assert_eq!(w.boundaries, vec![0]);
    assert_eq!(w.gaps, vec![0]);
}

#[test]
fn group_inverse_witness() {
    let w = group_witness(&[1, 3, 3]);
    assert_eq!(w.gaps, vec![2, 0]);
    assert_eq!(w.inverses[0] * Fp::from(2u64), Fp::ONE);
    assert_eq!(w.inverses[1], Fp::ZERO);
    assert_eq!(group_witness(&[4]).inverses, vec![Fp::ZERO]);
}

#[test]
fn sortedness_check() {
    assert!(is_non_decreasing(&[1, 1, 2]));
    assert!(is_non_decreasing(&[]));
    assert!(!is_non_decreasing(&[5, 2]));
}

#[test]
fn sum_per_customer() {
    // customer A = 1, B = 2; amounts (A,100), (A,200), (B,50)
    let keys = [1u64, 1, 2];
    let values = [100u64, 200, 50];
    let w = aggregation_witness(&keys, &values, "sum").unwrap();
    assert_eq!(w.restarts, vec![1, 0, 1]);
    assert_eq!(w.results, vec![100, 300, 50]);
    assert_eq!(w.results[1], 300);
    assert_eq!(w.results[2], 50);
    assert!(w.value_gaps.is_empty());
    assert_eq!(group_witness(&keys).boundaries, vec![0, 1]);
}

#[test]
fn max_per_customer() {
    let keys = [1u64, 1, 2];
    let values = [100u64, 200, 50];
    let w = aggregation_witness(&keys, &values, "max").unwrap();
    assert_eq!(w.results, vec![100, 200, 50]);
    assert_eq!(w.value_gaps, vec![0, 0, 0]);
    assert_eq!(w.prev_gaps, vec![0, 100, 0]);
}

#[test]
fn min_and_count_aggregates() {
    let keys = [1u64, 1, 1, 2, 2];
    let values = [30u64, 10, 20, 5, 9];
    let w = aggregation_witness(&keys, &values, "min").unwrap();
    assert_eq!(w.results, vec![30, 10, 10, 5, 5]);
    assert_eq!(w.value_gaps, vec![0, 0, 10, 0, 4]);
    assert_eq!(w.prev_gaps, vec![0, 20, 0, 0, 0]);
    let w = aggregation_witness(&keys, &values, "count").unwrap();
    assert_eq!(w.results, vec![1, 2, 3, 1, 2]);
}

#[test]
fn sum_does_not_overflow_64_bits() {
    let w = aggregation_witness(&[0, 0], &[u64::MAX, u64::MAX], "sum").unwrap();
    assert_eq!(w.results[1], 2 * (u64::MAX as u128));
}

#[test]
fn claimed_sum_that_no_group_has() {
    let w = aggregation_witness(&[1, 1, 2], &[100, 200, 50], "sum").unwrap();
    assert!(!w.results.contains(&999));
}

#[test]
fn aggregation_errors_and_empty_input() {
    assert_eq!(aggregation_witness(&[1, 2], &[1], "sum").err(), Some(SynthesisError::LengthMismatch));
    assert_eq!(aggregation_witness(&[1], &[1], "avg").err(), Some(SynthesisError::UnknownAggregate));
    let w = aggregation_witness(&[], &[], "sum").unwrap();
    assert!(w.results.is_empty());
}

#[test]
fn inner_join_of_shifted_keys() {
    let w = join_witness(&[1, 2, 3], &[10, 20, 30], &[2, 3, 4], &[7, 8, 9]);
    assert_eq!(w.sorted_keys1, vec![1, 2, 3]);
    assert_eq!(w.sorted_keys2, vec![2, 3, 4]);
    assert_eq!(w.matches, vec![0, 1, 1, 0]);
    assert_eq!(w.rows, vec![(1, 10, 0, 0), (2, 20, 2, 7), (3, 30, 3, 8), (0, 0, 4, 9)]);
    assert_eq!(w.residue1, vec![1]);
    assert_eq!(w.residue2, vec![4]);
}

#[test]
fn join_matches_after_sorting() {
    let w = join_witness(&[3, 1, 2], &[30, 10, 20], &[2, 1, 3], &[200, 100, 300]);
    assert_eq!(w.matches, vec![1, 1, 1]);
    assert!(w.residue1.is_empty());
    assert!(w.residue2.is_empty());
    assert_eq!(w.rows[0], (1, 10, 1, 100));
    assert_eq!(w.sorted_values1, vec![10, 20, 30]);
}

#[test]
fn join_of_unequal_lengths_pads_with_zeros() {
    let w = join_witness(&[5, 1], &[50, 10], &[1, 5, 9], &[11, 55, 99]);
    assert_eq!(w.matches, vec![1, 1, 0]);
    assert_eq!(w.enabled, vec![true, true, false]);
    assert_eq!(w.rows[2], (0, 0, 9, 99));
    assert!(w.residue1.is_empty());
    assert_eq!(w.residue2, vec![9]);
    let w = join_witness(&[], &[], &[4], &[40]);
    assert_eq!(w.matches, vec![0]);
    assert!(w.residue1.is_empty());
    assert_eq!(w.residue2, vec![4]);
}

#[test]
fn join_with_repeated_keys() {
    let w = join_witness(&[1, 1], &[5, 6], &[1], &[7]);
    assert_eq!(w.matches, vec![1, 0]);
    assert_eq!(w.rows, vec![(1, 5, 1, 7), (1, 6, 0, 0)]);
    assert!(w.residue1.is_empty());
    assert!(w.residue2.is_empty());
}

#[test]
fn repeated_range_checks_are_dropped() {
    let ops = vec![
        RangeCheckOp { value: 1, threshold: 5, u: 4 },
        RangeCheckOp { value: 2, threshold: 5, u: 3 },
        RangeCheckOp { value: 9, threshold: 5, u: 4 },
        RangeCheckOp { value: 3, threshold: 6, u: 4 },
    ];
    let kept = distinct_range_checks(&ops);
    assert_eq!(kept, vec![ops[0], ops[1], ops[3]]);
}

#[test]
fn repeated_group_bys_are_dropped() {
    let ops = vec![
        GroupByOp { group_keys: vec![3] },
        GroupByOp { group_keys: vec![1, 2] },
        GroupByOp { group_keys: vec![1] },
        GroupByOp { group_keys: vec![1, 2] },
    ];
    let kept: Vec<Vec<u64>> = distinct_group_bys(&ops).into_iter().map(|g| g.group_keys).collect();
    assert_eq!(kept, vec![vec![1], vec![1, 2], vec![3]]);
}
