use data_postprocessor::window::window_bounds;
use data_postprocessor::ConfigError;

const SECOND_US: i64 = 1_000_000;

#[test]
fn absent_cut_leaves_full_range() {
    assert_eq!(window_bounds(100, 10 * SECOND_US, None), Ok((0, 100)));
    assert_eq!(window_bounds(0, SECOND_US, None), Ok((0, 0)));
}

#[test]
fn zero_cut_equals_full_range() {
    assert_eq!(window_bounds(100, 10 * SECOND_US, Some(0)), Ok((0, 100)));
}

#[test]
fn cut_scales_linearly_with_record_share() {
    // 100 records over 10 seconds: one second cut trims 10 records per end.
    assert_eq!(window_bounds(100, 10 * SECOND_US, Some(SECOND_US)), Ok((10, 90)));
    // The start index floors: 100 * 0.15 / 10 = 1.5 -> 1.
    assert_eq!(window_bounds(100, 10 * SECOND_US, Some(150_000)), Ok((1, 99)));
}

#[test]
fn growing_cut_moves_bounds_monotonically() {
    let mut prev_start: usize = 0;
    let mut prev_end: usize = 100;
    for cut_seconds in 0i64..8 {
        let (start, end) =
            window_bounds(100, 10 * SECOND_US, Some(cut_seconds * SECOND_US)).unwrap();
        assert!(start >= prev_start);
        assert!(end <= prev_end);
        assert!(end <= 100);
        prev_start = start;
        prev_end = end;
    }
}

#[test]
fn oversized_cut_collapses_to_empty_window() {
    let (start, end) = window_bounds(100, 10 * SECOND_US, Some(6 * SECOND_US)).unwrap();
    assert_eq!((start, end), (60, 40));
    assert!(start >= end);
    let (start2, end2) = window_bounds(100, 10 * SECOND_US, Some(1000 * SECOND_US)).unwrap();
    assert_eq!((start2, end2), (100, 0));
}

#[test]
fn negative_cut_is_rejected_before_any_work() {
    assert_eq!(window_bounds(100, 10 * SECOND_US, Some(-1)), Err(ConfigError::NegativeCut));
    assert_eq!(
        window_bounds(0, SECOND_US, Some(-5 * SECOND_US)),
        Err(ConfigError::NegativeCut)
    );
}
