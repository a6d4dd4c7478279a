use data_postprocessor::detect::Sample;
use data_postprocessor::report::{run_validation, ValidateConfig, DEFAULT_MIN_RUN};
use data_postprocessor::ConfigError;

const SECOND_US: i64 = 1_000_000;

fn samples_of(latencies: &[i64]) -> Vec<Sample> {
    latencies
        .iter()
        .enumerate()
        .map(|(i, l)| Sample { timestamp_us: (i as i64) * SECOND_US, latency_us: *l })
        .collect()
}

fn fixed_config(threshold_us: i64, min_run: usize, cut_us: Option<i64>) -> ValidateConfig {
    ValidateConfig {
        threshold_us: Some(threshold_us),
        deviation_percent: None,
        cut_us,
        min_run,
    }
}

#[test]
fn validation_reports_the_concrete_anomaly() {
    let samples = samples_of(&[10, 10, 600, 650, 620, 10, 700, 10]);
    let cfg = fixed_config(500, 2, None);
    let report = run_validation(&samples, 8 * SECOND_US, &cfg).unwrap();
    assert_eq!(report.total_duration_us, 8 * SECOND_US);
    assert_eq!(report.total_records, 8);
    assert_eq!(report.threshold_us, 500);
    assert_eq!(report.anomalies.len(), 1);
    assert_eq!(report.anomalies[0].tally.count, 3);
    let summary = report.summary.as_ref().expect("summary present with anomalies");
    assert_eq!(summary.packet_counts.count, 1);
    assert_eq!(summary.packet_counts.sum, 3);
    assert_eq!(summary.average_latencies.min, 623);
    assert_eq!(summary.maximum_latencies.max, 650);
}

#[test]
fn validation_without_anomalies_has_no_summary() {
    let samples = samples_of(&[10, 11, 12]);
    let cfg = fixed_config(500, DEFAULT_MIN_RUN, None);
    let report = run_validation(&samples, 3 * SECOND_US, &cfg).unwrap();
    assert!(report.summary.is_none());
    assert_eq!(report.anomalies.len(), 0);
    assert_eq!(report.global.count, 3);
}

#[test]
fn default_threshold_applies_when_none_is_given() {
    let samples = samples_of(&[499, 500, 501, 10]);
    let cfg = ValidateConfig {
        threshold_us: None,
        deviation_percent: None,
        cut_us: None,
        min_run: 2,
    };
    let report = run_validation(&samples, 4 * SECOND_US, &cfg).unwrap();
    assert_eq!(report.threshold_us, 500);
    assert_eq!(report.anomalies.len(), 1);
    assert_eq!(report.anomalies[0].tally.count, 2);
}

#[test]
fn conflicting_threshold_options_are_rejected() {
    let samples = samples_of(&[10, 20]);
    let cfg = ValidateConfig {
        threshold_us: Some(500),
        deviation_percent: Some(50),
        cut_us: None,
        min_run: 2,
    };
    let err = match run_validation(&samples, 2 * SECOND_US, &cfg) {
        Err(e) => e,
        Ok(_) => panic!("expected a rejected configuration"),
    };
    assert_eq!(err, ConfigError::ConflictingThresholds);
}

#[test]
fn negative_cut_is_rejected_by_the_pipeline() {
    let samples = samples_of(&[10, 20]);
    let cfg = fixed_config(500, 2, Some(-SECOND_US));
    let err = match run_validation(&samples, 2 * SECOND_US, &cfg) {
        Err(e) => e,
        Ok(_) => panic!("expected a rejected configuration"),
    };
    assert_eq!(err, ConfigError::NegativeCut);
}

#[test]
fn cut_trims_both_ends_before_detection() {
    // Ten records over ten seconds; cutting one second drops one record at
    // each end, so the edge runs disappear from the report.
    let samples = samples_of(&[900, 10, 10, 600, 620, 10, 10, 10, 10, 900]);
    let cfg = fixed_config(500, 2, Some(SECOND_US));
    let report = run_validation(&samples, 10 * SECOND_US, &cfg).unwrap();
    assert_eq!(report.total_records, 8);
    assert_eq!(report.anomalies.len(), 1);
    assert_eq!(report.anomalies[0].tally.min, 600);
    assert_eq!(report.global.max, 620);
}

#[test]
fn collapsed_window_yields_zero_count_report() {
    let samples = samples_of(&[600, 700, 800, 900]);
    let cfg = fixed_config(500, 2, Some(100 * SECOND_US));
    let report = run_validation(&samples, 4 * SECOND_US, &cfg).unwrap();
    assert_eq!(report.total_records, 0);
    assert_eq!(report.global.count, 0);
    assert_eq!(report.anomalies.len(), 0);
    assert!(report.summary.is_none());
}

#[test]
fn adaptive_deviation_sets_threshold_from_window_mean() {
    // The window's mean latency is 225; a deviation of 100 percent doubles
    // it to 450, so only the 600 run qualifies.
    let samples = samples_of(&[80, 120, 90, 110, 600, 600, 100, 100]);
    let cfg = ValidateConfig {
        threshold_us: None,
        deviation_percent: Some(100),
        cut_us: None,
        min_run: 2,
    };
    let report = run_validation(&samples, 8 * SECOND_US, &cfg).unwrap();
    let mean: i64 = (80 + 120 + 90 + 110 + 600 + 600 + 100 + 100) / 8;
    assert_eq!(report.threshold_us, mean * 2);
    assert_eq!(report.anomalies.len(), 1);
    assert_eq!(report.anomalies[0].tally.count, 2);
}

#[test]
fn empty_input_yields_zero_count_report() {
    let samples: Vec<Sample> = Vec::new();
    let cfg = fixed_config(500, 2, None);
    let report = run_validation(&samples, SECOND_US, &cfg).unwrap();
    assert_eq!(report.total_records, 0);
    assert_eq!(report.global.count, 0);
    assert!(report.summary.is_none());
}
