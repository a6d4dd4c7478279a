//! Run-length anomaly detection over latency samples.
//!
//! The detector consumes a (possibly trimmed) sequence of latency samples
//! one by one. A sample at or above the threshold opens or extends a
//! candidate run; a sample below the threshold closes the open run, which is
//! emitted as an anomaly when it is at least `min_run` samples long and
//! discarded otherwise. A run still open at the end of the stream is
//! discarded — an anomaly must close inside the window to be reported.
//! Alongside the anomalies the detector keeps a global tally over every
//! sample and three anomaly-of-anomalies summary tallies, updated once per
//! emitted anomaly.

use crate::tally::{
    lemma_mean_between_extremes, lemma_min_max_are_extremes, lemma_sum_of_bounded,
    lemma_tally_add_fits, max_of, min_of, sum_of, tally_of_values, values_bounded, Tally,
};
use crate::{MAX_ABS_LATENCY_US, MAX_DEVIATION_PERCENT, MAX_SAMPLES};
use vstd::prelude::*;

verus! {

/// One latency sample inside the analysed window: the transmit time of its
/// record (microseconds, relative to the trace's first record) and the
/// latency derived from the record, in integer microseconds.
#[derive(Clone, Copy, Debug, PartialEq, Eq, Structural)]
pub struct Sample {
    /// Relative transmit time of the record, in microseconds.
    pub timestamp_us: i64,
    /// Latency of the record, in microseconds.
    pub latency_us: i64,
}

/// The latencies of a sample sequence, in order.
pub open spec fn latencies_of(s: Seq<Sample>) -> Seq<i64> {
    s.map_values(|x: Sample| x.latency_us)
}

/// Every latency's magnitude is at most `MAX_ABS_LATENCY_US`.
pub open spec fn samples_bounded(s: Seq<Sample>) -> bool {
    forall|i: int|
        0 <= i < s.len() ==> -MAX_ABS_LATENCY_US <= #[trigger] s[i].latency_us
            <= MAX_ABS_LATENCY_US
}

/// The candidate run still open after the given samples: the maximal suffix
/// whose latencies all meet the threshold.
pub open spec fn spec_open_run(s: Seq<Sample>, threshold: int) -> Seq<Sample>
    decreases s.len(),
{
    if s.len() == 0 {
        Seq::empty()
    } else if s.last().latency_us >= threshold {
        spec_open_run(s.drop_last(), threshold).push(s.last())
    } else {
        Seq::empty()
    }
}

/// The emitted anomalies of a sample sequence, each as the run of samples it
/// covers, in order of appearance: a below-threshold sample closes the run
/// open before it, and the run is kept exactly when it is non-empty and at
/// least `min_run` long. A run still open at the end is not in the result.
pub open spec fn spec_closed_runs(s: Seq<Sample>, threshold: int, min_run: int) -> Seq<Seq<Sample>>
    decreases s.len(),
{
    if s.len() == 0 {
        Seq::empty()
    } else if s.last().latency_us >= threshold {
        spec_closed_runs(s.drop_last(), threshold, min_run)
    } else {
        let open = spec_open_run(s.drop_last(), threshold);
        if open.len() >= min_run && open.len() >= 1 {
            spec_closed_runs(s.drop_last(), threshold, min_run).push(open)
        } else {
            spec_closed_runs(s.drop_last(), threshold, min_run)
        }
    }
}

/// The floor mean of a run's latencies, as its tally reports it.
pub open spec fn spec_run_mean(run: Seq<Sample>) -> i64
    recommends
        run.len() > 0,
{
    (sum_of(latencies_of(run)) / (run.len() as int)) as i64
}

/// The per-anomaly packet counts the summary accumulates.
pub open spec fn spec_run_lengths(runs: Seq<Seq<Sample>>) -> Seq<i64> {
    runs.map_values(|r: Seq<Sample>| r.len() as i64)
}

/// The per-anomaly floor-mean latencies the summary accumulates.
pub open spec fn spec_run_means(runs: Seq<Seq<Sample>>) -> Seq<i64> {
    runs.map_values(|r: Seq<Sample>| spec_run_mean(r))
}

/// The per-anomaly maximum latencies the summary accumulates.
pub open spec fn spec_run_maxes(runs: Seq<Seq<Sample>>) -> Seq<i64> {
    runs.map_values(|r: Seq<Sample>| max_of(latencies_of(r)) as i64)
}

/// Every sample of the open run meets the threshold.
pub proof fn lemma_open_run_above_threshold(s: Seq<Sample>, threshold: int)
    ensures
        forall|i: int|
            0 <= i < spec_open_run(s, threshold).len() ==> #[trigger] spec_open_run(
                s,
                threshold,
            )[i].latency_us >= threshold,
    decreases s.len(),
{
    if s.len() > 0 && s.last().latency_us >= threshold {
        lemma_open_run_above_threshold(s.drop_last(), threshold);
        let prev = spec_open_run(s.drop_last(), threshold);
        let cur = spec_open_run(s, threshold);
        assert forall|i: int|
            0 <= i < cur.len() implies #[trigger] cur[i].latency_us >= threshold by {
            if i < prev.len() {
                assert(cur[i] == prev[i]);
                assert(prev[i].latency_us >= threshold);
            } else {
                assert(cur[i] == s.last());
            }
        }
    }
}

/// Every sample of every emitted run meets the threshold: an anomaly covers
/// at-or-above-threshold samples and nothing else.
pub proof fn lemma_closed_runs_above_threshold(s: Seq<Sample>, threshold: int, min_run: int)
    ensures
        forall|i: int, j: int|
            0 <= i < spec_closed_runs(s, threshold, min_run).len() && 0 <= j < spec_closed_runs(
                s,
                threshold,
                min_run,
            )[i].len() ==> #[trigger] spec_closed_runs(s, threshold, min_run)[i][j].latency_us
                >= threshold,
    decreases s.len(),
{
    if s.len() > 0 {
        let d = s.drop_last();
        lemma_closed_runs_above_threshold(d, threshold, min_run);
        lemma_open_run_above_threshold(d, threshold);
        let prev = spec_closed_runs(d, threshold, min_run);
        let cur = spec_closed_runs(s, threshold, min_run);
        let open = spec_open_run(d, threshold);
        assert forall|i: int, j: int|
            0 <= i < cur.len() && 0 <= j < cur[i].len() implies #[trigger] cur[i][j].latency_us
            >= threshold by {
            if s.last().latency_us < threshold && open.len() >= min_run && open.len() >= 1 {
                if i < prev.len() {
                    assert(cur[i] == prev[i]);
                    assert(prev[i][j].latency_us >= threshold);
                } else {
                    assert(cur[i] == open);
                    assert(open[j].latency_us >= threshold);
                }
            } else {
                assert(cur == prev);
                assert(prev[i][j].latency_us >= threshold);
            }
        }
    }
}

/// Conservation bound: every closed run is matched by a distinct closing
/// sample beyond its own members, and the open run's members are further
/// distinct samples. So runs are few and short relative to the input.
pub proof fn lemma_runs_counting(s: Seq<Sample>, threshold: int, min_run: int)
    ensures
        2 * spec_closed_runs(s, threshold, min_run).len() + spec_open_run(s, threshold).len()
            <= s.len(),
    decreases s.len(),
{
    if s.len() > 0 {
        lemma_runs_counting(s.drop_last(), threshold, min_run);
    }
}

/// The open run keeps only samples of its input, so a bounded input leaves
/// the open run bounded.
pub proof fn lemma_open_run_bounded(s: Seq<Sample>, threshold: int)
    requires
        samples_bounded(s),
    ensures
        samples_bounded(spec_open_run(s, threshold)),
        spec_open_run(s, threshold).len() <= s.len(),
    decreases s.len(),
{
    if s.len() > 0 {
        assert(samples_bounded(s.drop_last()));
        lemma_open_run_bounded(s.drop_last(), threshold);
        if s.last().latency_us >= threshold {
            let prev = spec_open_run(s.drop_last(), threshold);
            assert(samples_bounded(prev.push(s.last())));
        }
    }
}

/// Every closed run of a bounded input is non-empty, at most as long as the
/// input, at least `min_run` long, and bounded.
pub proof fn lemma_closed_runs_wf(s: Seq<Sample>, threshold: int, min_run: int)
    requires
        samples_bounded(s),
    ensures
        forall|i: int|
            0 <= i < spec_closed_runs(s, threshold, min_run).len() ==> {
                let run = #[trigger] spec_closed_runs(s, threshold, min_run)[i];
                &&& 1 <= run.len() <= s.len()
                &&& run.len() >= min_run
                &&& samples_bounded(run)
            },
    decreases s.len(),
{
    if s.len() > 0 {
        let d = s.drop_last();
        assert(samples_bounded(d));
        lemma_closed_runs_wf(d, threshold, min_run);
        lemma_open_run_bounded(d, threshold);
        let prev = spec_closed_runs(d, threshold, min_run);
        assert(forall|i: int| 0 <= i < prev.len() ==> #[trigger] prev[i].len() <= d.len());
    }
}

/// Bounds for everything the three summary tallies accumulate, so each
/// summary's moments provably fit their accumulators.
pub proof fn lemma_summary_values_bounded(s: Seq<Sample>, threshold: int, min_run: int)
    requires
        samples_bounded(s),
        s.len() <= MAX_SAMPLES,
    ensures
        values_bounded(spec_run_lengths(spec_closed_runs(s, threshold, min_run))),
        values_bounded(spec_run_means(spec_closed_runs(s, threshold, min_run))),
        values_bounded(spec_run_maxes(spec_closed_runs(s, threshold, min_run))),
{
    let runs = spec_closed_runs(s, threshold, min_run);
    lemma_closed_runs_wf(s, threshold, min_run);
    assert forall|i: int| 0 <= i < runs.len() implies {
        &&& -MAX_ABS_LATENCY_US <= min_of(latencies_of(#[trigger] runs[i]))
        &&& max_of(latencies_of(runs[i])) <= MAX_ABS_LATENCY_US
        &&& min_of(latencies_of(runs[i])) <= max_of(latencies_of(runs[i]))
        &&& min_of(latencies_of(runs[i])) <= sum_of(latencies_of(runs[i])) / (runs[i].len() as int)
            <= max_of(latencies_of(runs[i]))
    } by {
        let run = runs[i];
        let lats = latencies_of(run);
        assert(lats.len() == run.len());
        assert(values_bounded(lats)) by {
            assert(forall|j: int| 0 <= j < run.len() ==> #[trigger] lats[j] == run[j].latency_us);
        }
        lemma_min_max_are_extremes(lats);
        lemma_mean_between_extremes(lats);
        let jmin = choose|j: int| 0 <= j < lats.len() && lats[j] == min_of(lats);
        let jmax = choose|j: int| 0 <= j < lats.len() && lats[j] == max_of(lats);
        assert(-MAX_ABS_LATENCY_US <= lats[jmin] && lats[jmax] <= MAX_ABS_LATENCY_US);
    }
    assert forall|i: int|
        0 <= i < spec_run_lengths(runs).len() implies -MAX_ABS_LATENCY_US <= #[trigger] spec_run_lengths(
        runs,
    )[i] <= MAX_ABS_LATENCY_US by {
        assert(spec_run_lengths(runs)[i] == runs[i].len() as i64);
    }
    assert forall|i: int|
        0 <= i < spec_run_means(runs).len() implies -MAX_ABS_LATENCY_US <= #[trigger] spec_run_means(
        runs,
    )[i] <= MAX_ABS_LATENCY_US by {
        assert(spec_run_means(runs)[i] == spec_run_mean(runs[i]));
        assert(min_of(latencies_of(runs[i])) <= sum_of(latencies_of(runs[i])) / (
        runs[i].len() as int) <= max_of(latencies_of(runs[i])));
    }
    assert forall|i: int|
        0 <= i < spec_run_maxes(runs).len() implies -MAX_ABS_LATENCY_US <= #[trigger] spec_run_maxes(
        runs,
    )[i] <= MAX_ABS_LATENCY_US by {
        assert(spec_run_maxes(runs)[i] == max_of(latencies_of(runs[i])) as i64);
        assert(runs[i].len() >= 1);
        lemma_min_max_are_extremes(latencies_of(runs[i]));
    }
}

/// One emitted anomaly: the relative transmit time of its run's first
/// sample and a tally over the run's latencies. Immutable once created.
pub struct Anomaly {
    /// Relative transmit time (microseconds) of the run's first sample.
    pub timestamp_us: i64,
    /// Statistics over the run's latencies: count, min, mean, max.
    pub tally: Tally,
}

/// One anomaly describes one run.
pub open spec fn anomaly_matches_run(a: Anomaly, run: Seq<Sample>) -> bool {
    &&& a.tally.wf()
    &&& a.tally.samples@ == latencies_of(run)
    &&& a.timestamp_us == run[0].timestamp_us
}

/// The anomaly list describes the run list, one to one and in order.
pub open spec fn anomalies_match_runs(anomalies: Seq<Anomaly>, runs: Seq<Seq<Sample>>) -> bool {
    &&& anomalies.len() == runs.len()
    &&& forall|i: int| 0 <= i < runs.len() ==> anomaly_matches_run(#[trigger] anomalies[i], runs[i])
}

/// The two-state run detector (`Idle` is an empty run buffer, `InRun` a
/// non-empty one) together with every accumulator the report needs.
pub struct AnomalyDetector {
    /// Latency threshold (microseconds): a sample at or above it belongs to
    /// a candidate run.
    pub threshold_us: i64,
    /// Minimum run length for a closed run to be emitted as an anomaly.
    pub min_run: usize,
    /// The samples of the currently open candidate run.
    pub run_buffer: Vec<Sample>,
    /// Tally over every sample seen, inside or outside runs.
    pub global: Tally,
    /// Anomalies emitted so far, in order of their closing sample.
    pub anomalies: Vec<Anomaly>,
    /// Tally over the emitted anomalies' packet counts.
    pub summary_packets: Tally,
    /// Tally over the emitted anomalies' floor-mean latencies.
    pub summary_avgs: Tally,
    /// Tally over the emitted anomalies' maximum latencies.
    pub summary_maxes: Tally,
    /// Every sample pushed so far, in order.
    pub seen: Ghost<Seq<Sample>>,
}

impl AnomalyDetector {
    /// The runs the samples seen so far have closed and kept.
    pub open spec fn runs(&self) -> Seq<Seq<Sample>> {
        spec_closed_runs(self.seen@, self.threshold_us as int, self.min_run as int)
    }

    /// Everything the detector holds is determined by the seen samples.
    pub open spec fn wf(&self) -> bool {
        &&& self.seen@.len() <= MAX_SAMPLES
        &&& samples_bounded(self.seen@)
        &&& self.global.wf()
        &&& self.global.samples@ == latencies_of(self.seen@)
        &&& self.run_buffer@ == spec_open_run(self.seen@, self.threshold_us as int)
        &&& anomalies_match_runs(self.anomalies@, self.runs())
        &&& self.summary_packets.wf()
        &&& self.summary_packets.samples@ == spec_run_lengths(self.runs())
        &&& self.summary_avgs.wf()
        &&& self.summary_avgs.samples@ == spec_run_means(self.runs())
        &&& self.summary_maxes.wf()
        &&& self.summary_maxes.samples@ == spec_run_maxes(self.runs())
    }

    /// A detector in its idle state, with nothing seen.
    pub fn new(threshold_us: i64, min_run: usize) -> (d: Self)
        ensures
            d.wf(),
            d.seen@ == Seq::<Sample>::empty(),
            d.threshold_us == threshold_us,
            d.min_run == min_run,
    {
        let d = AnomalyDetector {
            threshold_us,
            min_run,
            run_buffer: Vec::new(),
            global: Tally::new(),
            anomalies: Vec::new(),
            summary_packets: Tally::new(),
            summary_avgs: Tally::new(),
            summary_maxes: Tally::new(),
            seen: Ghost(Seq::empty()),
        };
        proof {
            assert(latencies_of(d.seen@) =~= Seq::<i64>::empty());
            assert(d.summary_packets.samples@ =~= spec_run_lengths(d.runs()));
            assert(d.summary_avgs.samples@ =~= spec_run_means(d.runs()));
            assert(d.summary_maxes.samples@ =~= spec_run_maxes(d.runs()));
        }
        d
    }

    /// Feed one sample: the global tally always takes it; at or above the
    /// threshold it extends the open run; below the threshold it closes the
    /// open run, which is emitted when at least `min_run` long and discarded
    /// otherwise.
    pub fn push_sample(&mut self, x: Sample)
        requires
            old(self).wf(),
            old(self).seen@.len() < MAX_SAMPLES,
            -MAX_ABS_LATENCY_US <= x.latency_us <= MAX_ABS_LATENCY_US,
        ensures
            final(self).wf(),
            final(self).seen@ == old(self).seen@.push(x),
            final(self).threshold_us == old(self).threshold_us,
            final(self).min_run == old(self).min_run,
    {
        let ghost seen0 = self.seen@;
        let ghost seen1 = seen0.push(x);
        let ghost t = self.threshold_us as int;
        let ghost m = self.min_run as int;
        proof {
            assert(seen1.drop_last() =~= seen0);
            assert(samples_bounded(seen1));
            assert(latencies_of(seen1) =~= latencies_of(seen0).push(x.latency_us));
            assert(values_bounded(latencies_of(seen0))) by {
                assert(forall|j: int|
                    0 <= j < seen0.len() ==> #[trigger] latencies_of(seen0)[j]
                        == seen0[j].latency_us);
            }
            lemma_tally_add_fits(latencies_of(seen0), x.latency_us);
            assert(latencies_of(seen0).push(x.latency_us).drop_last() =~= latencies_of(seen0));
        }
        self.global.add(x.latency_us);
        if x.latency_us >= self.threshold_us {
            self.run_buffer.push(x);
            proof {
                self.seen@ = seen1;
                assert(self.run_buffer@ == spec_open_run(seen1, t));
                assert(spec_closed_runs(seen1, t, m) == spec_closed_runs(seen0, t, m));
            }
        } else {
            let ghost open0 = spec_open_run(seen0, t);
            let ghost runs0 = spec_closed_runs(seen0, t, m);
            let ghost runs1 = spec_closed_runs(seen1, t, m);
            let emit = self.run_buffer.len() >= self.min_run && self.run_buffer.len() >= 1;
            proof {
                lemma_open_run_bounded(seen0, t);
                lemma_runs_counting(seen0, t, m);
                lemma_summary_values_bounded(seen0, t, m);
            }
            if emit {
                proof {
                    assert(runs1 == runs0.push(open0));
                    assert(samples_bounded(self.run_buffer@));
                }
                let lats = latencies_vec(&self.run_buffer);
                proof {
                    assert(values_bounded(lats@)) by {
                        assert(forall|j: int|
                            0 <= j < self.run_buffer@.len() ==> #[trigger] lats@[j]
                                == self.run_buffer@[j].latency_us);
                    }
                }
                let run_tally = tally_of_values(&lats);
                let mean = run_tally.avg();
                let mx = run_tally.max;
                let packets = self.run_buffer.len() as i64;
                let ts = self.run_buffer[0].timestamp_us;
                proof {
                    lemma_min_max_are_extremes(lats@);
                    let jmin = choose|j: int| 0 <= j < lats@.len() && lats@[j] == min_of(lats@);
                    let jmax = choose|j: int| 0 <= j < lats@.len() && lats@[j] == max_of(lats@);
                    assert(-MAX_ABS_LATENCY_US <= lats@[jmin] && lats@[jmax] <= MAX_ABS_LATENCY_US);
                    assert(-MAX_ABS_LATENCY_US <= mean <= MAX_ABS_LATENCY_US);
                    assert(-MAX_ABS_LATENCY_US <= mx <= MAX_ABS_LATENCY_US);
                    assert(0 <= packets <= MAX_ABS_LATENCY_US);
                    assert(runs0.len() + 1 <= MAX_SAMPLES);
                    lemma_tally_add_fits(spec_run_lengths(runs0), packets);
                    lemma_tally_add_fits(spec_run_means(runs0), mean);
                    lemma_tally_add_fits(spec_run_maxes(runs0), mx);
                }
                self.summary_packets.add(packets);
                self.summary_avgs.add(mean);
                self.summary_maxes.add(mx);
                self.anomalies.push(Anomaly { timestamp_us: ts, tally: run_tally });
                proof {
                    assert(spec_run_lengths(runs1) =~= spec_run_lengths(runs0).push(packets));
                    assert(spec_run_means(runs1) =~= spec_run_means(runs0).push(mean)) by {
                        assert(spec_run_mean(open0) == mean) by {
                            assert(lats@ == latencies_of(open0));
                        }
                        assert(forall|i: int|
                            0 <= i < runs0.len() ==> #[trigger] spec_run_means(runs1)[i]
                                == spec_run_means(runs0)[i]);
                    }
                    assert(spec_run_maxes(runs1) =~= spec_run_maxes(runs0).push(mx)) by {
                        assert(max_of(latencies_of(open0)) as i64 == mx);
                        assert(forall|i: int|
                            0 <= i < runs0.len() ==> #[trigger] spec_run_maxes(runs1)[i]
                                == spec_run_maxes(runs0)[i]);
                    }
                    assert(anomaly_matches_run(self.anomalies@.last(), open0));
                    assert forall|i: int| 0 <= i < runs1.len() implies anomaly_matches_run(
                        #[trigger] self.anomalies@[i],
                        runs1[i],
                    ) by {
                        if i < runs0.len() {
                            assert(self.anomalies@[i] == old(self).anomalies@[i]);
                            assert(anomaly_matches_run(old(self).anomalies@[i], runs0[i]));
                        }
                    }
                }
            } else {
                proof {
                    assert(runs1 == runs0);
                }
            }
            self.run_buffer.clear();
            proof {
                self.seen@ = seen1;
                assert(self.run_buffer@ =~= spec_open_run(seen1, t));
            }
        }
    }
}

/// The latencies of a sample vector, as plain values.
pub fn latencies_vec(samples: &Vec<Sample>) -> (out: Vec<i64>)
    ensures
        out@ == latencies_of(samples@),
{
    let mut out: Vec<i64> = Vec::new();
    let n = samples.len();
    let mut i: usize = 0;
    while i < n
        invariant
            n == samples@.len(),
            0 <= i <= n,
            out@ == latencies_of(samples@).take(i as int),
        decreases n - i,
    {
        out.push(samples[i].latency_us);
        proof {
            assert(out@ =~= latencies_of(samples@).take(i + 1));
        }
        i = i + 1;
    }
    proof {
        assert(latencies_of(samples@).take(n as int) =~= latencies_of(samples@));
    }
    out
}

/// Run a fresh detector over a whole window of samples, in order.
pub fn detect_all(samples: &Vec<Sample>, threshold_us: i64, min_run: usize) -> (d:
    AnomalyDetector)
    requires
        samples@.len() <= MAX_SAMPLES,
        samples_bounded(samples@),
    ensures
        d.wf(),
        d.seen@ == samples@,
        d.threshold_us == threshold_us,
        d.min_run == min_run,
{
    let mut d = AnomalyDetector::new(threshold_us, min_run);
    let n = samples.len();
    proof {
        assert(samples@.take(0) =~= Seq::<Sample>::empty());
    }
    let mut i: usize = 0;
    while i < n
        invariant
            d.wf(),
            d.threshold_us == threshold_us,
            d.min_run == min_run,
            n == samples@.len(),
            n <= MAX_SAMPLES,
            samples_bounded(samples@),
            0 <= i <= n,
            d.seen@ == samples@.take(i as int),
        decreases n - i,
    {
        proof {
            assert(-MAX_ABS_LATENCY_US <= samples@[i as int].latency_us <= MAX_ABS_LATENCY_US);
        }
        d.push_sample(samples[i]);
        proof {
            assert(samples@.take(i as int).push(samples@[i as int]) =~= samples@.take(i + 1));
        }
        i = i + 1;
    }
    proof {
        assert(samples@.take(n as int) =~= samples@);
    }
    d
}

/// Deviation-adaptive threshold: the window's mean latency raised by
/// `deviation_percent` percent, as one floor division.
pub open spec fn spec_adaptive_threshold(sum: int, count: int, deviation_percent: int) -> int
    recommends
        count > 0,
{
    sum * (100 + deviation_percent) / (100 * count)
}

/// Compute the adaptive threshold from a pre-pass tally over the window's
/// latencies: the window's mean latency raised by `deviation_percent`
/// percent. Needs the full pre-pass, hence a second read of the window.
pub fn adaptive_threshold_us(pre_pass: &Tally, deviation_percent: u32) -> (t: i64)
    requires
        pre_pass.wf(),
        pre_pass.count > 0,
        pre_pass.count <= MAX_SAMPLES,
        values_bounded(pre_pass.samples@),
        deviation_percent <= MAX_DEVIATION_PERCENT,
    ensures
        t as int == spec_adaptive_threshold(
            sum_of(pre_pass.samples@),
            pre_pass.samples@.len() as int,
            deviation_percent as int,
        ),
{
    let factor: i128 = 100 + deviation_percent as i128;
    let den: i128 = 100 * (pre_pass.count as i128);
    let ghost s = sum_of(pre_pass.samples@);
    let ghost cnt = pre_pass.samples@.len() as int;
    let ghost a = MAX_ABS_LATENCY_US as int;
    let ghost cap = (100 * cnt) * (1001 * a);
    proof {
        lemma_sum_of_bounded(pre_pass.samples@);
        assert(-(cnt * a) <= s <= cnt * a);
        assert(s * (factor as int) <= cap && -cap <= s * (factor as int)) by (nonlinear_arith)
            requires
                -(cnt * a) <= s <= cnt * a,
                100 <= factor <= 100100,
                cnt >= 1,
                a >= 0,
                cap == (100 * cnt) * (1001 * a),
        ;
        assert(cap <= (100 * 0x8000_0000) * (1001 * 0x8000_0000_0000)) by {
            vstd::arithmetic::mul::lemma_mul_inequality(
                100 * cnt,
                100int * 0x8000_0000,
                1001int * 0x8000_0000_0000,
            );
        }
    }
    let num: i128 = pre_pass.sum * factor;
    proof {
        vstd::arithmetic::div_mod::lemma_div_is_ordered(num as int, cap, den as int);
        vstd::arithmetic::div_mod::lemma_div_is_ordered(-cap, num as int, den as int);
        vstd::arithmetic::div_mod::lemma_div_multiples_vanish(1001 * a, den as int);
        assert(cap == (den as int) * (1001 * a));
        assert(-cap == (den as int) * (-(1001 * a))) by (nonlinear_arith)
            requires
                cap == (den as int) * (1001 * a),
        ;
        vstd::arithmetic::div_mod::lemma_div_multiples_vanish(-(1001 * a), den as int);
    }
    let q = num.checked_div_euclid(den);
    q.unwrap() as i64
}

/// Adaptive-threshold law, uniform case: over a window whose latencies all
/// equal one even value `mu`, a deviation of 50 percent yields exactly one
/// and a half times `mu` — stated without division as twice the threshold
/// equalling three times `mu`. An odd `mu` floors the exact midpoint, so it
/// stays outside this law.
pub proof fn lemma_adaptive_threshold_uniform(lats: Seq<i64>, mu: i64)
    requires
        lats.len() > 0,
        forall|i: int| 0 <= i < lats.len() ==> #[trigger] lats[i] == mu,
        mu % 2 == 0,
    ensures
        2 * spec_adaptive_threshold(sum_of(lats), lats.len() as int, 50) == 3 * mu,
{
    let n = lats.len() as int;
    crate::tally::lemma_sum_of_uniform(lats, mu);
    vstd::arithmetic::div_mod::lemma_fundamental_div_mod(mu as int, 2);
    let w = mu as int / 2;
    assert(mu == 2 * w);
    assert((n * (mu as int)) * 150 == (100 * n) * (3 * w)) by (nonlinear_arith)
        requires
            mu == 2 * w,
    ;
    vstd::arithmetic::div_mod::lemma_div_multiples_vanish(3 * w, 100 * n);
}

} // verus!
