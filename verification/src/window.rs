//! Window trimming: a seconds-to-cut request becomes record-index bounds.
//!
//! Cutting assumes uniform temporal sampling density across the trace: the
//! start index is the cut's share of the record count, not a time lookup.
//! That linear approximation is accepted, documented behaviour. A cut large
//! enough that the start index reaches or passes the end index leaves an
//! empty window, which downstream consumers treat as valid input.

use crate::ConfigError;
use vstd::arithmetic::div_mod::{lemma_div_is_ordered, lemma_div_pos_is_pos};
use vstd::arithmetic::mul::{
    lemma_mul_inequality, lemma_mul_is_commutative, lemma_mul_nonnegative, lemma_mul_upper_bound,
};
use vstd::prelude::*;

verus! {

/// Start index of the trimmed window: the floor of `total * cut / duration`,
/// clamped to `total` so the index stays a valid bound.
pub open spec fn spec_start_index(total: int, duration_us: int, cut_us: int) -> int
    recommends
        duration_us > 0,
        cut_us >= 0,
{
    let raw = total * cut_us / duration_us;
    if raw > total {
        total
    } else {
        raw
    }
}

/// End index (exclusive) of the trimmed window: the same share cut from the
/// trace's tail.
pub open spec fn spec_end_index(total: int, duration_us: int, cut_us: int) -> int
    recommends
        duration_us > 0,
        cut_us >= 0,
{
    total - spec_start_index(total, duration_us, cut_us)
}

/// Turn an optional seconds-to-cut request (already scaled to microseconds)
/// into record-index bounds over a trace of `total_records` records lasting
/// `total_duration_us`. A negative cut is a configuration error, rejected
/// before any file work; an absent cut leaves the whole range.
pub fn window_bounds(total_records: usize, total_duration_us: i64, cut_us: Option<i64>) -> (r:
    Result<(usize, usize), ConfigError>)
    requires
        cut_us is Some ==> total_duration_us > 0,
    ensures
        r is Err <==> cut_us is Some && cut_us->0 < 0,
        r is Err ==> r->Err_0 == ConfigError::NegativeCut,
        cut_us is None ==> r is Ok && r->Ok_0.0 == 0 && r->Ok_0.1 == total_records,
        r is Ok && cut_us is Some ==> {
            &&& r->Ok_0.0 == spec_start_index(
                total_records as int,
                total_duration_us as int,
                cut_us->0 as int,
            )
            &&& r->Ok_0.1 == spec_end_index(
                total_records as int,
                total_duration_us as int,
                cut_us->0 as int,
            )
        },
{
    match cut_us {
        None => Ok((0usize, total_records)),
        Some(c) => {
            if c < 0 {
                return Err(ConfigError::NegativeCut);
            }
            proof {
                lemma_mul_upper_bound(
                    total_records as int,
                    0xffff_ffff_ffff_ffff,
                    c as int,
                    0x7fff_ffff_ffff_ffff,
                );
                lemma_mul_nonnegative(total_records as int, c as int);
            }
            let num: u128 = (total_records as u128) * (c as u128);
            let den: u128 = total_duration_us as u128;
            let raw: u128 = num / den;
            let start: usize = if raw > total_records as u128 {
                total_records
            } else {
                raw as usize
            };
            Ok((start, total_records - start))
        },
    }
}

/// For a cut of zero the bounds are the whole range `[0, total)`.
pub proof fn lemma_window_bounds_zero_cut(total: int, duration_us: int)
    requires
        duration_us > 0,
        total >= 0,
    ensures
        spec_start_index(total, duration_us, 0) == 0,
        spec_end_index(total, duration_us, 0) == total,
{
    assert(total * 0 == 0) by (nonlinear_arith);
    assert(0int / duration_us == 0) by {
        vstd::arithmetic::div_mod::lemma_small_div_converse(0, duration_us);
    }
}

/// Monotonicity law: a larger cut never moves the start index backward nor
/// the end index forward, and both bounds always stay within `[0, total]`.
pub proof fn lemma_window_bounds_monotone(total: int, duration_us: int, c1: int, c2: int)
    requires
        duration_us > 0,
        total >= 0,
        0 <= c1 <= c2,
    ensures
        spec_start_index(total, duration_us, c1) <= spec_start_index(total, duration_us, c2),
        spec_end_index(total, duration_us, c1) >= spec_end_index(total, duration_us, c2),
        0 <= spec_start_index(total, duration_us, c1) <= total,
        0 <= spec_end_index(total, duration_us, c1) <= total,
{
    lemma_mul_inequality(c1, c2, total);
    lemma_mul_is_commutative(c1, total);
    lemma_mul_is_commutative(c2, total);
    lemma_div_is_ordered(total * c1, total * c2, duration_us);
    lemma_mul_nonnegative(total, c1);
    lemma_div_pos_is_pos(total * c1, duration_us);
}

} // verus!
