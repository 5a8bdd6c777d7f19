//! Turning a millisecond range into a sample range.

use vstd::prelude::*;

verus! {

/// Why a range holds no samples.
#[derive(Debug, Clone, Copy, PartialEq, Eq, Structural)]
pub enum RangeError {
    /// After clamping, the start is not before the end.
    Empty,
}

/// A range both in milliseconds, as clamped, and in samples.
#[derive(Debug, Clone, Copy, PartialEq, Eq, Structural)]
pub struct SampleRange {
    pub from_ms: i64,
    pub to_ms: i64,
    pub from_sample: u64,
    pub to_sample: u64,
}

/// The duration in whole milliseconds.
pub open spec fn duration_ms(total_samples: u64, sample_rate: u64) -> int {
    total_samples * 1000 / sample_rate as int
}

/// A millisecond position clamped to `[0, total_ms]`; a negative one counts
/// back from the end.
pub open spec fn clamp_ms(x: int, total_ms: int) -> int {
    if x < 0 {
        if total_ms + x < 0 {
            0
        } else {
            total_ms + x
        }
    } else if x > total_ms {
        total_ms
    } else {
        x
    }
}

/// The sample at millisecond `ms`, rounded down and kept within the stream.
pub open spec fn sample_at(ms: int, sample_rate: u64, total_samples: u64) -> int {
    if ms * sample_rate / 1000 > total_samples {
        total_samples as int
    } else {
        ms * sample_rate / 1000
    }
}

/// Converts `[from_ms, to_ms)` into samples of a stream of `total_samples`
/// at `sample_rate`, clamping both ends into the stream (negative values
/// count from the end); fails where the clamped range is empty.
pub fn sample_range(total_samples: u64, sample_rate: u64, from_ms: i64, to_ms: i64) -> (r: Result<
    SampleRange,
    RangeError,
>)
    requires
        1 <= sample_rate <= 655350,
        total_samples < 0x10_0000_0000,
    ensures
        ({
            let total_ms = duration_ms(total_samples, sample_rate);
            let f = clamp_ms(from_ms as int, total_ms);
            let t = clamp_ms(to_ms as int, total_ms);
            &&& r is Ok <==> f < t
            &&& r is Ok ==> r->Ok_0 == SampleRange {
                from_ms: f as i64,
                to_ms: t as i64,
                from_sample: sample_at(f, sample_rate, total_samples) as u64,
                to_sample: sample_at(t, sample_rate, total_samples) as u64,
            }
            &&& r is Err ==> r->Err_0 == RangeError::Empty
        }),
{
    assert(total_samples * 1000 / sample_rate as int <= total_samples * 1000) by (nonlinear_arith)
        requires
            sample_rate >= 1,
    ;
    let total_ms: i64 = ((total_samples * 1000) / sample_rate) as i64;
    let f: i64 = if from_ms < 0 {
        if total_ms + from_ms < 0 {
            0
        } else {
            total_ms + from_ms
        }
    } else if from_ms > total_ms {
        total_ms
    } else {
        from_ms
    };
    let t: i64 = if to_ms < 0 {
        if total_ms + to_ms < 0 {
            0
        } else {
            total_ms + to_ms
        }
    } else if to_ms > total_ms {
        total_ms
    } else {
        to_ms
    };
    if f >= t {
        return Err(RangeError::Empty);
    }
    let from_sample = to_sample_index(f as u64, sample_rate, total_samples, total_ms as u64);
    let to_sample = to_sample_index(t as u64, sample_rate, total_samples, total_ms as u64);
    Ok(SampleRange { from_ms: f, to_ms: t, from_sample, to_sample })
}

fn to_sample_index(ms: u64, sample_rate: u64, total_samples: u64, total_ms: u64) -> (r: u64)
    requires
        1 <= sample_rate <= 655350,
        ms <= total_ms <= total_samples * 1000,
        total_samples < 0x10_0000_0000,
    ensures
        r == sample_at(ms as int, sample_rate, total_samples),
{
    assert(ms * sample_rate <= 0x10_0000_0000 * 1000 * 655350) by (nonlinear_arith)
        requires
            ms <= total_samples * 1000,
            total_samples < 0x10_0000_0000,
            sample_rate <= 655350,
    ;
    let s: u128 = (ms as u128 * sample_rate as u128) / 1000;
    if s > total_samples as u128 {
        total_samples
    } else {
        s as u64
    }
}

} // verus!
