//! Report assembly and the end-to-end validation pipeline.
//!
//! The report is the terminal aggregate of one validation run: the window's
//! global tally, the ordered anomaly list, the threshold actually used and,
//! when anomalies exist, the three anomaly-of-anomalies summary tallies.
//! Assembly is pure aggregation — no recomputation, no I/O.

use crate::detect::{
    adaptive_threshold_us, anomalies_match_runs, detect_all, latencies_of, latencies_vec,
    samples_bounded, spec_adaptive_threshold, spec_closed_runs, spec_run_lengths, spec_run_maxes,
    spec_run_means, Anomaly, AnomalyDetector, Sample,
};
use crate::tally::{sum_of, tally_of_values, values_bounded, Tally};
use crate::window::{spec_end_index, spec_start_index, window_bounds};
use crate::{ConfigError, MAX_DEVIATION_PERCENT, MAX_SAMPLES};
use vstd::prelude::*;

verus! {

/// Default anomaly threshold in microseconds, used when neither a fixed
/// threshold nor a deviation percentage is given.
pub const DEFAULT_THRESHOLD_US: i64 = 500;

/// Default minimum run length for a run to count as an anomaly.
pub const DEFAULT_MIN_RUN: usize = 2;

/// The three summary tallies over the emitted anomalies, updated once per
/// anomaly rather than once per sample.
pub struct AnomalySummary {
    /// Tally over each anomaly's packet count.
    pub packet_counts: Tally,
    /// Tally over each anomaly's floor-mean latency.
    pub average_latencies: Tally,
    /// Tally over each anomaly's maximum latency.
    pub maximum_latencies: Tally,
}

/// The terminal aggregate of one validation run, immutable once assembled.
pub struct Report {
    /// Total duration of the trace in microseconds, as the caller derived it
    /// from the first and last record.
    pub total_duration_us: i64,
    /// How many records the (trimmed) window held.
    pub total_records: usize,
    /// Tally over every latency inside the window.
    pub global: Tally,
    /// The anomaly threshold actually used, in microseconds.
    pub threshold_us: i64,
    /// The minimum run length actually used.
    pub min_run: usize,
    /// The emitted anomalies, in order.
    pub anomalies: Vec<Anomaly>,
    /// Summary statistics over the anomalies; present exactly when at least
    /// one anomaly was emitted.
    pub summary: Option<AnomalySummary>,
}

/// What it means for a report to describe a window of samples under a
/// threshold and a minimum run length.
pub open spec fn report_for(r: Report, s: Seq<Sample>, threshold: int, min_run: int) -> bool {
    let runs = spec_closed_runs(s, threshold, min_run);
    &&& r.global.wf()
    &&& r.global.samples@ == latencies_of(s)
    &&& r.total_records == s.len()
    &&& r.threshold_us == threshold
    &&& r.min_run == min_run
    &&& anomalies_match_runs(r.anomalies@, runs)
    &&& (r.summary is Some <==> runs.len() > 0)
    &&& (r.summary is Some ==> {
        &&& r.summary->0.packet_counts.wf()
        &&& r.summary->0.packet_counts.samples@ == spec_run_lengths(runs)
        &&& r.summary->0.average_latencies.wf()
        &&& r.summary->0.average_latencies.samples@ == spec_run_means(runs)
        &&& r.summary->0.maximum_latencies.wf()
        &&& r.summary->0.maximum_latencies.samples@ == spec_run_maxes(runs)
    })
}

/// Pure aggregation of already-computed parts into one report. The summary
/// is present exactly when the anomaly list is non-empty.
pub fn assemble_report(
    total_duration_us: i64,
    total_records: usize,
    global: Tally,
    threshold_us: i64,
    min_run: usize,
    anomalies: Vec<Anomaly>,
    packet_counts: Tally,
    average_latencies: Tally,
    maximum_latencies: Tally,
) -> (r: Report)
    ensures
        r.total_duration_us == total_duration_us,
        r.total_records == total_records,
        r.global == global,
        r.threshold_us == threshold_us,
        r.min_run == min_run,
        r.anomalies@ == anomalies@,
        anomalies@.len() > 0 ==> r.summary is Some && r.summary->0.packet_counts == packet_counts
            && r.summary->0.average_latencies == average_latencies
            && r.summary->0.maximum_latencies == maximum_latencies,
        anomalies@.len() == 0 ==> r.summary is None,
{
    let summary = if anomalies.len() > 0 {
        Some(AnomalySummary { packet_counts, average_latencies, maximum_latencies })
    } else {
        None
    };
    Report { total_duration_us, total_records, global, threshold_us, min_run, anomalies, summary }
}

/// Package a finished detector's accumulators as the final report.
pub fn report_of_detector(d: AnomalyDetector, total_duration_us: i64) -> (r: Report)
    requires
        d.wf(),
    ensures
        report_for(r, d.seen@, d.threshold_us as int, d.min_run as int),
        r.total_duration_us == total_duration_us,
{
    let total_records = d.global.count;
    assemble_report(
        total_duration_us,
        total_records,
        d.global,
        d.threshold_us,
        d.min_run,
        d.anomalies,
        d.summary_packets,
        d.summary_avgs,
        d.summary_maxes,
    )
}

/// Threshold-independence law: the threshold (and with it the deviation
/// percentage that produced it) and the minimum run length decide only
/// which anomalies are reported; any two reports over the same window agree
/// on every global-tally field and on the record count.
pub proof fn lemma_threshold_changes_no_global_stat(
    r1: Report,
    r2: Report,
    s: Seq<Sample>,
    t1: int,
    t2: int,
    m1: int,
    m2: int,
)
    requires
        report_for(r1, s, t1, m1),
        report_for(r2, s, t2, m2),
    ensures
        r1.global.count == r2.global.count,
        r1.global.sum == r2.global.sum,
        r1.global.ssum == r2.global.ssum,
        r1.global.min == r2.global.min,
        r1.global.max == r2.global.max,
        r1.total_records == r2.total_records,
{
}

/// The configuration of one validation run, as the CLI layer hands it over.
/// A fixed threshold and a deviation percentage are mutually exclusive.
pub struct ValidateConfig {
    /// Fixed anomaly threshold in microseconds, when given.
    pub threshold_us: Option<i64>,
    /// Deviation percentage for the adaptive threshold, when given.
    pub deviation_percent: Option<u32>,
    /// Microseconds to cut from each end of the trace, when given.
    pub cut_us: Option<i64>,
    /// Minimum run length for an anomaly.
    pub min_run: usize,
}

/// The window of samples left after trimming.
pub open spec fn spec_trimmed_window(s: Seq<Sample>, duration_us: int, cut_us: Option<i64>) -> Seq<
    Sample,
> {
    if cut_us is Some {
        let start = spec_start_index(s.len() as int, duration_us, cut_us->0 as int);
        let end = spec_end_index(s.len() as int, duration_us, cut_us->0 as int);
        if start < end {
            s.subrange(start, end)
        } else {
            Seq::empty()
        }
    } else {
        s
    }
}

/// The threshold a configuration selects over a window: adaptive when a
/// deviation percentage is given (zero over an empty window, where nothing
/// is compared against it), else the fixed threshold, else the default.
pub open spec fn spec_threshold_choice(trimmed: Seq<Sample>, cfg: ValidateConfig) -> int {
    if cfg.deviation_percent is Some {
        if trimmed.len() == 0 {
            0
        } else {
            spec_adaptive_threshold(
                sum_of(latencies_of(trimmed)),
                trimmed.len() as int,
                cfg.deviation_percent->0 as int,
            )
        }
    } else if cfg.threshold_us is Some {
        cfg.threshold_us->0 as int
    } else {
        DEFAULT_THRESHOLD_US as int
    }
}

/// Copy one index range of the sample vector.
fn samples_window(samples: &Vec<Sample>, start: usize, end: usize) -> (out: Vec<Sample>)
    requires
        start <= end,
        end as int <= samples@.len(),
    ensures
        out@ == samples@.subrange(start as int, end as int),
{
    let mut out: Vec<Sample> = Vec::new();
    let mut i: usize = start;
    proof {
        assert(samples@.subrange(start as int, start as int) =~= Seq::<Sample>::empty());
    }
    while i < end
        invariant
            start <= i <= end,
            end as int <= samples@.len(),
            out@ == samples@.subrange(start as int, i as int),
        decreases end - i,
    {
        out.push(samples[i]);
        proof {
            assert(out@ =~= samples@.subrange(start as int, i + 1));
        }
        i = i + 1;
    }
    out
}

/// The whole validation pass over one trace's samples: reject a bad
/// configuration before any work, trim the window, choose the threshold
/// (running the adaptive pre-pass when asked), detect anomalies and
/// assemble the report. An empty trimmed window is valid input and yields a
/// zero-count report.
pub fn run_validation(samples: &Vec<Sample>, total_duration_us: i64, cfg: &ValidateConfig) -> (r:
    Result<Report, ConfigError>)
    requires
        samples@.len() <= MAX_SAMPLES,
        samples_bounded(samples@),
        cfg.cut_us is Some ==> total_duration_us > 0,
        cfg.deviation_percent is Some ==> cfg.deviation_percent->0 <= MAX_DEVIATION_PERCENT,
    ensures
        r is Err <==> (cfg.threshold_us is Some && cfg.deviation_percent is Some) || (
        cfg.cut_us is Some && cfg.cut_us->0 < 0),
        r is Err ==> r->Err_0 == (if cfg.threshold_us is Some && cfg.deviation_percent is Some {
            ConfigError::ConflictingThresholds
        } else {
            ConfigError::NegativeCut
        }),
        r is Ok ==> ({
            let trimmed = spec_trimmed_window(samples@, total_duration_us as int, cfg.cut_us);
            &&& report_for(
                r->Ok_0,
                trimmed,
                spec_threshold_choice(trimmed, *cfg),
                cfg.min_run as int,
            )
            &&& r->Ok_0.total_duration_us == total_duration_us
        }),
{
    if cfg.threshold_us.is_some() && cfg.deviation_percent.is_some() {
        return Err(ConfigError::ConflictingThresholds);
    }
    let n = samples.len();
    let bounds = window_bounds(n, total_duration_us, cfg.cut_us);
    let (start, end) = match bounds {
        Ok(b) => b,
        Err(e) => {
            return Err(e);
        },
    };
    let trimmed = if start < end {
        samples_window(samples, start, end)
    } else {
        Vec::new()
    };
    let ghost trimmed_spec = spec_trimmed_window(samples@, total_duration_us as int, cfg.cut_us);
    proof {
        if cfg.cut_us is None && n > 0 {
            assert(samples@.subrange(0, n as int) =~= samples@);
        }
        if cfg.cut_us is None && n == 0 {
            assert(trimmed@ =~= trimmed_spec);
        }
        assert(trimmed@ == trimmed_spec);
        assert(samples_bounded(trimmed@)) by {
            if start < end {
                assert(forall|i: int|
                    0 <= i < trimmed@.len() ==> #[trigger] trimmed@[i] == samples@[start + i]);
            }
        }
        assert(trimmed@.len() <= samples@.len());
    }
    let threshold: i64 = match cfg.deviation_percent {
        Some(dev) => {
            if trimmed.len() == 0 {
                0
            } else {
                let lats = latencies_vec(&trimmed);
                proof {
                    assert(values_bounded(lats@)) by {
                        assert(forall|i: int|
                            0 <= i < trimmed@.len() ==> #[trigger] lats@[i]
                                == trimmed@[i].latency_us);
                    }
                }
                let pre = tally_of_values(&lats);
                adaptive_threshold_us(&pre, dev)
            }
        },
        None => match cfg.threshold_us {
            Some(t) => t,
            None => DEFAULT_THRESHOLD_US,
        },
    };
    proof {
        assert(threshold as int == spec_threshold_choice(trimmed_spec, *cfg));
    }
    let det = detect_all(&trimmed, threshold, cfg.min_run);
    let rep = report_of_detector(det, total_duration_us);
    Ok(rep)
}

} // verus!
