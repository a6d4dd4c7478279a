use data_postprocessor::tally::{jitter_transform, tally_of_values, Tally};

fn naive_mean(values: &[i64]) -> f64 {
    let sum: f64 = values.iter().map(|v| *v as f64).sum();
    sum / values.len() as f64
}

fn naive_stddev(values: &[i64]) -> f64 {
    let mean = naive_mean(values);
    let sq_mean: f64 =
        values.iter().map(|v| (*v as f64) * (*v as f64)).sum::<f64>() / values.len() as f64;
    (sq_mean - mean * mean).sqrt()
}

#[test]
fn new_tally_is_empty_with_sentinel_extremes() {
    let t = Tally::new();
    assert_eq!(t.count, 0);
    assert_eq!(t.sum, 0);
    assert_eq!(t.ssum, 0);
    assert_eq!(t.min, i64::MAX);
    assert_eq!(t.max, i64::MIN);
}

#[test]
fn add_accumulates_exact_moments() {
    let mut t = Tally::new();
    for v in [3i64, -7, 0, 12, 5] {
        t.add(v);
    }
    assert_eq!(t.count, 5);
    assert_eq!(t.sum, 3 - 7 + 0 + 12 + 5);
    assert_eq!(t.ssum, 9 + 49 + 0 + 144 + 25);
    assert_eq!(t.min, -7);
    assert_eq!(t.max, 12);
}

#[test]
fn min_max_equal_true_extremes_on_mixed_signs() {
    let values: Vec<i64> = vec![-1, -50, 2, 49, 0, -50, 17];
    let t = tally_of_values(&values);
    assert_eq!(t.min, *values.iter().min().unwrap());
    assert_eq!(t.max, *values.iter().max().unwrap());
}

#[test]
fn mean_and_stddev_match_two_pass_computation() {
    // Mixed magnitudes, negative and near-zero values, as a latency trace
    // with clock skew could produce them.
    let values: Vec<i64> = vec![10, 11, 9, 650, -3, 0, 1, 2_000, 10, 12];
    let t = tally_of_values(&values);
    let mean = t.sum as f64 / t.count as f64;
    let stddev = ((t.ssum as f64 / t.count as f64) - mean * mean).sqrt();
    assert!((mean - naive_mean(&values)).abs() < 1e-9);
    assert!((stddev - naive_stddev(&values)).abs() < 1e-6);
}

#[test]
fn avg_is_floor_of_arithmetic_mean() {
    let mut t = Tally::new();
    t.add(1);
    t.add(2);
    assert_eq!(t.avg(), 1);  // 3 / 2 floors to 1
    let mut neg = Tally::new();
    neg.add(-1);
    neg.add(-2);
    assert_eq!(neg.avg(), -2);  // -3 / 2 floors to -2
    let mut exact = Tally::new();
    exact.add(600);
    exact.add(650);
    exact.add(620);
    assert_eq!(exact.avg(), 623);  // 1870 / 3 floors to 623
}

#[test]
fn stddev_is_exact_on_an_integral_spread() {
    // The classic spread with mean 5 and population deviation exactly 2.
    let values: Vec<i64> = vec![2, 4, 4, 4, 5, 5, 7, 9];
    let t = tally_of_values(&values);
    assert_eq!(t.avg(), 5);
    assert_eq!(t.stddev(), 2);
}

#[test]
fn stddev_floors_through_the_raw_moments() {
    // ssum/count floors 5/2 to 2, the mean floors 3/2 to 1: variance 1.
    let values: Vec<i64> = vec![1, 2];
    let t = tally_of_values(&values);
    assert_eq!(t.stddev(), 1);
    // A constant sequence has deviation zero.
    let flat: Vec<i64> = vec![40, 40, 40];
    assert_eq!(tally_of_values(&flat).stddev(), 0);
}

#[test]
fn jitter_transform_maps_to_inter_packet_steps() {
    let values: Vec<i64> = vec![100, 140, 90, 90, 250];
    let out = jitter_transform(&values);
    assert_eq!(out, vec![0, 40, -50, 0, 160]);
}

#[test]
fn jitter_transform_handles_empty_and_single() {
    let empty: Vec<i64> = Vec::new();
    assert_eq!(jitter_transform(&empty), Vec::<i64>::new());
    let one: Vec<i64> = vec![77];
    assert_eq!(jitter_transform(&one), vec![0]);
}
