//! Online statistics accumulator over integer-microsecond samples.
//!
//! One pass, O(1) memory: count, sum, sum of squares, minimum and maximum.
//! The fields are exact integer moments of the sample history, which the
//! accumulator carries as a ghost sequence. Whole-microsecond floor values
//! of the mean and the standard deviation are derived here; fractional
//! displays are the caller's to compute from the exact exposed moments.

use crate::{MAX_ABS_LATENCY_US, MAX_SAMPLES};
use vstd::prelude::*;

verus! {

/// Sum of a sample sequence.
pub open spec fn sum_of(s: Seq<i64>) -> int
    decreases s.len(),
{
    if s.len() == 0 {
        0
    } else {
        sum_of(s.drop_last()) + s.last()
    }
}

/// Sum of the squares of a sample sequence.
pub open spec fn sum_sq_of(s: Seq<i64>) -> int
    decreases s.len(),
{
    if s.len() == 0 {
        0
    } else {
        sum_sq_of(s.drop_last()) + s.last() * s.last()
    }
}

/// Minimum of a sample sequence, starting from `i64::MAX` like the
/// accumulator itself, so the empty sequence's minimum is `i64::MAX`.
pub open spec fn min_of(s: Seq<i64>) -> int
    decreases s.len(),
{
    if s.len() == 0 {
        i64::MAX as int
    } else if s.last() < min_of(s.drop_last()) {
        s.last() as int
    } else {
        min_of(s.drop_last())
    }
}

/// Maximum of a sample sequence, starting from `i64::MIN`.
pub open spec fn max_of(s: Seq<i64>) -> int
    decreases s.len(),
{
    if s.len() == 0 {
        i64::MIN as int
    } else if s.last() > max_of(s.drop_last()) {
        s.last() as int
    } else {
        max_of(s.drop_last())
    }
}

/// Every value's magnitude is at most `MAX_ABS_LATENCY_US`.
pub open spec fn values_bounded(s: Seq<i64>) -> bool {
    forall|i: int|
        0 <= i < s.len() ==> -MAX_ABS_LATENCY_US <= #[trigger] s[i] <= MAX_ABS_LATENCY_US
}

/// The variance a `stddev` call reports, from the raw moments: each
/// expectation a floor division, and the difference clamped at zero where
/// the two floors cross (possible only around a negative mean).
pub open spec fn spec_floor_variance(s: Seq<i64>) -> int
    recommends
        s.len() > 0,
{
    let ex2 = sum_sq_of(s) / (s.len() as int);
    let ex = sum_of(s) / (s.len() as int);
    if ex2 - ex * ex >= 0 {
        ex2 - ex * ex
    } else {
        0
    }
}

/// Floor integer square root, by bisection.
fn isqrt_u128(v: u128) -> (r: u128)
    ensures
        r * r <= v,
        v < (r + 1) * (r + 1),
{
    let mut low: u128 = 0;
    let mut high: u128 = 0x1_0000_0000_0000_0000;
    proof {
        assert(high * high > u128::MAX) by (nonlinear_arith)
            requires
                high == 0x1_0000_0000_0000_0000u128,
        ;
    }
    while low + 1 < high
        invariant
            low < high <= 0x1_0000_0000_0000_0000u128,
            low * low <= v,
            v < high * high,
        decreases high - low,
    {
        let mid: u128 = low + (high - low) / 2;
        proof {
            assert(low < mid < high);
            assert(mid * mid <= u128::MAX) by (nonlinear_arith)
                requires
                    0 <= mid < 0x1_0000_0000_0000_0000u128,
            ;
        }
        if mid * mid <= v {
            low = mid;
        } else {
            high = mid;
        }
    }
    low
}

/// O(1)-space accumulator for count, sum, sum of squares, minimum and
/// maximum of a stream of `i64` microsecond samples. The ghost `samples`
/// field is the history the concrete fields are exact moments of.
pub struct Tally {
    /// How many samples were added.
    pub count: usize,
    /// Exact sum of the samples.
    pub sum: i128,
    /// Exact sum of the squares of the samples.
    pub ssum: i128,
    /// Smallest sample added, `i64::MAX` before the first.
    pub min: i64,
    /// Largest sample added, `i64::MIN` before the first.
    pub max: i64,
    /// The history of added samples, in order.
    pub samples: Ghost<Seq<i64>>,
}

impl Tally {
    /// The concrete fields are the exact moments of the sample history.
    pub open spec fn wf(&self) -> bool {
        &&& self.count == self.samples@.len()
        &&& self.sum == sum_of(self.samples@)
        &&& self.ssum == sum_sq_of(self.samples@)
        &&& self.min == min_of(self.samples@)
        &&& self.max == max_of(self.samples@)
    }

    /// An empty accumulator.
    pub fn new() -> (t: Tally)
        ensures
            t.wf(),
            t.samples@ == Seq::<i64>::empty(),
            t.count == 0,
    {
        Tally {
            count: 0,
            sum: 0,
            ssum: 0,
            min: i64::MAX,
            max: i64::MIN,
            samples: Ghost(Seq::empty()),
        }
    }

    /// Fold one sample into the accumulator.
    pub fn add(&mut self, v: i64)
        requires
            old(self).wf(),
            old(self).count < usize::MAX,
            sum_sq_of(old(self).samples@) + v * v <= i128::MAX,
        ensures
            final(self).wf(),
            final(self).samples@ == old(self).samples@.push(v),
            final(self).count == old(self).count + 1,
    {
        proof {
            let s = self.samples@;
            assert(s.push(v).drop_last() =~= s);
            lemma_sum_of_abs_bound(s);
            assert((s.len() + 1) * 0x8000_0000_0000_0000 <= 0xffff_ffff_ffff_ffff
                * 0x8000_0000_0000_0000) by {
                vstd::arithmetic::mul::lemma_mul_inequality(
                    s.len() as int + 1,
                    0xffff_ffff_ffff_ffff,
                    0x8000_0000_0000_0000,
                );
            }
            assert(v * v >= 0 && v * v <= 0x8000_0000_0000_0000 * 0x8000_0000_0000_0000)
                by (nonlinear_arith)
                requires
                    -0x8000_0000_0000_0000 <= v <= 0x7fff_ffff_ffff_ffff,
            ;
        }
        self.count = self.count + 1;
        self.sum = self.sum + v as i128;
        self.ssum = self.ssum + (v as i128) * (v as i128);
        if v < self.min {
            self.min = v;
        }
        if v > self.max {
            self.max = v;
        }
        proof {
            self.samples@ = self.samples@.push(v);
        }
    }

    /// Floor of the arithmetic mean of the samples; it always lies between
    /// the recorded minimum and maximum.
    pub fn avg(&self) -> (a: i64)
        requires
            self.wf(),
            self.count > 0,
        ensures
            a as int == sum_of(self.samples@) / (self.samples@.len() as int),
            min_of(self.samples@) <= a as int <= max_of(self.samples@),
    {
        proof {
            lemma_mean_between_extremes(self.samples@);
        }
        let q = self.sum.checked_div_euclid(self.count as i128);
        q.unwrap() as i64
    }

    /// Floor of the population standard deviation in whole microseconds,
    /// computed as `sqrt(E[x^2] - E[x]^2)` from the raw moments, each
    /// expectation a floor division. The fractional value stays available
    /// to callers through the exact exposed moments.
    pub fn stddev(&self) -> (r: i64)
        requires
            self.wf(),
            self.count > 0,
            values_bounded(self.samples@),
        ensures
            r * r <= spec_floor_variance(self.samples@),
            spec_floor_variance(self.samples@) < (r + 1) * (r + 1),
    {
        let ghost s = self.samples@;
        let ghost len = s.len() as int;
        let ghost a = MAX_ABS_LATENCY_US as int;
        let n = self.count as i128;
        proof {
            lemma_sum_sq_nonneg(s);
            lemma_sum_sq_of_bounded(s);
            vstd::arithmetic::div_mod::lemma_div_pos_is_pos(sum_sq_of(s), len);
            vstd::arithmetic::div_mod::lemma_div_is_ordered(sum_sq_of(s), len * (a * a), len);
            vstd::arithmetic::div_mod::lemma_div_multiples_vanish(a * a, len);
            vstd::arithmetic::mul::lemma_mul_is_commutative(len, a * a);
        }
        let ex2 = self.ssum.checked_div_euclid(n).unwrap();
        let ex = self.avg() as i128;
        proof {
            lemma_min_max_are_extremes(s);
            let jmin = choose|j: int| 0 <= j < s.len() && s[j] == min_of(s);
            let jmax = choose|j: int| 0 <= j < s.len() && s[j] == max_of(s);
            assert(-a <= s[jmin] && s[jmax] <= a);
            assert(0 <= (ex as int) * (ex as int) <= a * a) by (nonlinear_arith)
                requires
                    -a <= ex as int <= a,
                    a >= 0,
            ;
        }
        let var = ex2 - ex * ex;
        let v: u128 = if var < 0 {
            0u128
        } else {
            var as u128
        };
        let root = isqrt_u128(v);
        proof {
            let sv = spec_floor_variance(s);
            assert(v as int == sv);
            assert(sv <= a * a);
            assert(root as int <= 0x8000_0000_0000int) by (nonlinear_arith)
                requires
                    (root as int) * (root as int) <= sv,
                    sv <= 0x8000_0000_0000int * 0x8000_0000_0000,
                    0 <= root as int,
            ;
        }
        root as i64
    }
}

/// The magnitude of a sum is at most the count times 2^63.
pub proof fn lemma_sum_of_abs_bound(s: Seq<i64>)
    ensures
        -(s.len() as int) * 0x8000_0000_0000_0000 <= sum_of(s) <= (s.len() as int)
            * 0x8000_0000_0000_0000,
    decreases s.len(),
{
    if s.len() > 0 {
        lemma_sum_of_abs_bound(s.drop_last());
        assert((s.len() as int) * 0x8000_0000_0000_0000 == (s.len() - 1) * 0x8000_0000_0000_0000
            + 0x8000_0000_0000_0000) by (nonlinear_arith);
    }
}

/// A sum of squares is never negative.
pub proof fn lemma_sum_sq_nonneg(s: Seq<i64>)
    ensures
        sum_sq_of(s) >= 0,
    decreases s.len(),
{
    if s.len() > 0 {
        lemma_sum_sq_nonneg(s.drop_last());
        let v = s.last();
        assert(v * v >= 0) by (nonlinear_arith);
    }
}

/// For bounded values the sum of squares stays at most the count times the
/// bound's square, and so inside `i128` for any bounded analysis.
pub proof fn lemma_sum_sq_of_bounded(s: Seq<i64>)
    requires
        values_bounded(s),
    ensures
        sum_sq_of(s) <= (s.len() as int) * (MAX_ABS_LATENCY_US as int * MAX_ABS_LATENCY_US as int),
    decreases s.len(),
{
    let a = MAX_ABS_LATENCY_US as int;
    if s.len() > 0 {
        assert(values_bounded(s.drop_last()));
        lemma_sum_sq_of_bounded(s.drop_last());
        let v = s.last() as int;
        assert(v * v <= a * a) by (nonlinear_arith)
            requires
                -a <= v <= a,
        ;
        assert((s.len() as int) * (a * a) == (s.len() - 1) * (a * a) + a * a) by (nonlinear_arith);
    }
}

/// For bounded values the sum stays at most the count times the bound.
pub proof fn lemma_sum_of_bounded(s: Seq<i64>)
    requires
        values_bounded(s),
    ensures
        -((s.len() as int) * (MAX_ABS_LATENCY_US as int)) <= sum_of(s) <= (s.len() as int) * (
        MAX_ABS_LATENCY_US as int),
    decreases s.len(),
{
    let a = MAX_ABS_LATENCY_US as int;
    if s.len() > 0 {
        assert(values_bounded(s.drop_last()));
        lemma_sum_of_bounded(s.drop_last());
        assert((s.len() as int) * a == (s.len() - 1) * a + a) by (nonlinear_arith);
    }
}

/// The sum of a non-empty sequence lies between count * min and count * max.
pub proof fn lemma_sum_between_extremes(s: Seq<i64>)
    requires
        s.len() > 0,
    ensures
        (s.len() as int) * min_of(s) <= sum_of(s) <= (s.len() as int) * max_of(s),
    decreases s.len(),
{
    let n = s.len() as int;
    let v = s.last() as int;
    if s.len() == 1 {
        let e = s.drop_last();
        assert(e.len() == 0);
        assert(sum_of(e) == 0 && min_of(e) == i64::MAX as int && max_of(e) == i64::MIN as int);
        assert(sum_of(s) == v && min_of(s) <= v && max_of(s) >= v);
        assert(n * min_of(s) == min_of(s)) by (nonlinear_arith)
            requires
                n == 1,
        ;
        assert(n * max_of(s) == max_of(s)) by (nonlinear_arith)
            requires
                n == 1,
        ;
    } else {
        let d = s.drop_last();
        lemma_sum_between_extremes(d);
        assert(n * min_of(s) <= (n - 1) * min_of(d) + min_of(s)) by (nonlinear_arith)
            requires
                n >= 2,
                min_of(s) <= min_of(d),
        ;
        assert(n * max_of(s) >= (n - 1) * max_of(d) + max_of(s)) by (nonlinear_arith)
            requires
                n >= 2,
                max_of(s) >= max_of(d),
        ;
    }
}

/// The floor of the mean of a non-empty sequence lies between min and max.
pub proof fn lemma_mean_between_extremes(s: Seq<i64>)
    requires
        s.len() > 0,
    ensures
        min_of(s) <= sum_of(s) / (s.len() as int) <= max_of(s),
{
    let n = s.len() as int;
    lemma_sum_between_extremes(s);
    vstd::arithmetic::div_mod::lemma_div_is_ordered(n * min_of(s), sum_of(s), n);
    vstd::arithmetic::div_mod::lemma_div_is_ordered(sum_of(s), n * max_of(s), n);
    vstd::arithmetic::div_mod::lemma_div_multiples_vanish(min_of(s), n);
    vstd::arithmetic::div_mod::lemma_div_multiples_vanish(max_of(s), n);
}

/// Extremes law: for a non-empty history the recorded minimum and maximum
/// are themselves samples, and they bound every sample.
pub proof fn lemma_min_max_are_extremes(s: Seq<i64>)
    requires
        s.len() > 0,
    ensures
        forall|i: int| 0 <= i < s.len() ==> min_of(s) <= #[trigger] s[i] && s[i] <= max_of(s),
        exists|i: int| 0 <= i < s.len() && s[i] == min_of(s),
        exists|i: int| 0 <= i < s.len() && s[i] == max_of(s),
    decreases s.len(),
{
    if s.len() == 1 {
        let e = s.drop_last();
        assert(e.len() == 0);
        assert(min_of(e) == i64::MAX as int && max_of(e) == i64::MIN as int);
        assert(s[0] == s.last());
        assert(s[0] == min_of(s) && s[0] == max_of(s));
    } else {
        let d = s.drop_last();
        lemma_min_max_are_extremes(d);
        assert(forall|i: int| 0 <= i < d.len() ==> d[i] == #[trigger] s[i]);
        if min_of(s) == s.last() {
            assert(s[s.len() - 1] == min_of(s));
        } else {
            let i = choose|i: int| 0 <= i < d.len() && d[i] == min_of(d);
            assert(s[i] == min_of(s));
        }
        if max_of(s) == s.last() {
            assert(s[s.len() - 1] == max_of(s));
        } else {
            let i = choose|i: int| 0 <= i < d.len() && d[i] == max_of(d);
            assert(s[i] == max_of(s));
        }
    }
}

/// A uniform sequence sums to count times the common value.
pub proof fn lemma_sum_of_uniform(s: Seq<i64>, mu: i64)
    requires
        forall|i: int| 0 <= i < s.len() ==> #[trigger] s[i] == mu,
    ensures
        sum_of(s) == (s.len() as int) * (mu as int),
    decreases s.len(),
{
    let m = mu as int;
    if s.len() == 0 {
        assert((s.len() as int) * m == 0) by (nonlinear_arith)
            requires
                s.len() == 0,
        ;
    } else {
        let d = s.drop_last();
        assert(forall|i: int| 0 <= i < d.len() ==> #[trigger] d[i] == mu);
        lemma_sum_of_uniform(d, mu);
        assert((s.len() as int) * m == (s.len() - 1) * m + m) by (nonlinear_arith);
    }
}

/// One more bounded value keeps a bounded tally's sum of squares in `i128`,
/// so `Tally::add`'s overflow precondition holds.
pub proof fn lemma_tally_add_fits(prev: Seq<i64>, v: i64)
    requires
        values_bounded(prev),
        prev.len() < MAX_SAMPLES,
        -MAX_ABS_LATENCY_US <= v <= MAX_ABS_LATENCY_US,
    ensures
        sum_sq_of(prev) + v * v <= i128::MAX,
{
    let p = prev.push(v);
    assert(p.drop_last() =~= prev);
    assert(values_bounded(p));
    lemma_sum_sq_of_bounded(p);
    vstd::arithmetic::mul::lemma_mul_inequality(
        p.len() as int,
        MAX_SAMPLES as int,
        MAX_ABS_LATENCY_US as int * MAX_ABS_LATENCY_US as int,
    );
}

/// Tally every value of a vector, in order.
pub fn tally_of_values(values: &Vec<i64>) -> (t: Tally)
    requires
        values@.len() <= MAX_SAMPLES,
        values_bounded(values@),
    ensures
        t.wf(),
        t.samples@ == values@,
{
    let mut t = Tally::new();
    let n = values.len();
    proof {
        assert(values@.take(0) =~= Seq::<i64>::empty());
    }
    let mut i: usize = 0;
    while i < n
        invariant
            t.wf(),
            n == values@.len(),
            n <= MAX_SAMPLES,
            values_bounded(values@),
            0 <= i <= n,
            t.samples@ == values@.take(i as int),
        decreases n - i,
    {
        proof {
            let next = values@.take(i as int).push(values@[i as int]);
            assert(next =~= values@.take(i + 1));
            assert(values_bounded(next));
            assert(next.drop_last() =~= values@.take(i as int));
            assert(sum_sq_of(next) == sum_sq_of(values@.take(i as int)) + values@[i as int]
                * values@[i as int]);
            lemma_sum_sq_of_bounded(next);
            vstd::arithmetic::mul::lemma_mul_inequality(
                next.len() as int,
                MAX_SAMPLES as int,
                MAX_ABS_LATENCY_US as int * MAX_ABS_LATENCY_US as int,
            );
        }
        t.add(values[i]);
        i = i + 1;
    }
    proof {
        assert(values@.take(n as int) =~= values@);
    }
    t
}

/// Inter-packet transform for jitter analysis: element zero becomes zero
/// and every later element becomes its step from the previous input value.
/// With it a latency series plots as inter-packet times.
pub fn jitter_transform(values: &Vec<i64>) -> (out: Vec<i64>)
    requires
        values_bounded(values@),
    ensures
        out@.len() == values@.len(),
        values@.len() > 0 ==> out@[0] == 0,
        forall|i: int| 1 <= i < values@.len() ==> out@[i] == values@[i] - values@[i - 1],
{
    let mut out: Vec<i64> = Vec::new();
    let n = values.len();
    let mut i: usize = 0;
    while i < n
        invariant
            n == values@.len(),
            values_bounded(values@),
            0 <= i <= n,
            out@.len() == i,
            i > 0 ==> out@[0] == 0,
            forall|j: int| 1 <= j < i ==> out@[j] == values@[j] - values@[j - 1],
        decreases n - i,
    {
        if i == 0 {
            out.push(0);
        } else {
            out.push(values[i] - values[i - 1]);
        }
        i = i + 1;
    }
    out
}

} // verus!
