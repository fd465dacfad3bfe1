use crate::resample::{interpolate, lerp};
use vstd::prelude::*;

verus! {

/// Numerator of the rational approximation 355/113 of pi.
pub const PI_NUM: u64 = 355;

/// Denominator of the rational approximation 355/113 of pi.
pub const PI_DEN: u64 = 113;

/// A cutoff is usable at a sample rate when it lies strictly between zero
/// and the Nyquist frequency.
pub open spec fn valid_cutoff(cutoff_hz: int, sample_rate: int) -> bool {
    0 < cutoff_hz && 2 * cutoff_hz < sample_rate
}

/// Numerator of the smoothing factor `alpha = dt / (rc + dt)` with
/// `rc = 1 / (2 pi cutoff)` and `dt = 1 / sample_rate`, which is
/// `2 pi cutoff / (sample_rate + 2 pi cutoff)`.
pub open spec fn alpha_num(cutoff_hz: int) -> int {
    2 * PI_NUM * cutoff_hz
}

/// Denominator of the smoothing factor.
pub open spec fn alpha_den(cutoff_hz: int, sample_rate: int) -> int {
    PI_DEN * sample_rate + 2 * PI_NUM * cutoff_hz
}

/// The filter output at index `i`: the previous output (the first sample
/// before the start) moved towards sample `i` by `alpha`.
pub open spec fn filtered_at(x: Seq<i16>, cutoff_hz: int, sample_rate: int, i: nat) -> int
    decreases i,
{
    let prev = if i == 0 {
        x[0] as int
    } else {
        filtered_at(x, cutoff_hz, sample_rate, (i - 1) as nat)
    };
    lerp(prev, x[i as int] as int, alpha_num(cutoff_hz), alpha_den(cutoff_hz, sample_rate))
}

/// The filtered signal.
pub open spec fn filtered(x: Seq<i16>, cutoff_hz: int, sample_rate: int) -> Seq<i16> {
    Seq::new(x.len(), |i: int| filtered_at(x, cutoff_hz, sample_rate, i as nat) as i16)
}

/// Single-pole IIR low-pass filter (exponential moving average). The output
/// has the input's length; the state starts at the first sample.
pub fn low_pass_filter(samples: &Vec<i16>, cutoff_hz: u32, sample_rate: u32) -> (r: Vec<i16>)
    requires
        valid_cutoff(cutoff_hz as int, sample_rate as int),
    ensures
        r@.len() == samples@.len(),
        forall|i: int|
            0 <= i < r@.len() ==> r@[i] as int == filtered_at(
                samples@,
                cutoff_hz as int,
                sample_rate as int,
                i as nat,
            ),
        r@ == filtered(samples@, cutoff_hz as int, sample_rate as int),
{
    let mut out: Vec<i16> = Vec::new();
    let n = samples.len();
    if n == 0 {
        return out;
    }
    assert(710 * (cutoff_hz as int) <= 710 * 0xffff_ffff) by (nonlinear_arith)
        requires
            cutoff_hz <= 0xffff_ffff,
    ;
    assert(113 * (sample_rate as int) <= 113 * 0xffff_ffff) by (nonlinear_arith)
        requires
            sample_rate <= 0xffff_ffff,
    ;
    let num: u64 = 2 * PI_NUM * (cutoff_hz as u64);
    let den: u64 = PI_DEN * (sample_rate as u64) + num;
    let mut prev: i16 = samples[0];
    let mut i: usize = 0;
    while i < n
        invariant
            n == samples@.len(),
            n > 0,
            i <= n,
            num as int == alpha_num(cutoff_hz as int),
            den as int == alpha_den(cutoff_hz as int, sample_rate as int),
            0 < num < den <= 0x1000_0000_0000,
            out@.len() == i,
            i == 0 ==> prev == samples@[0],
            i > 0 ==> prev as int == filtered_at(
                samples@,
                cutoff_hz as int,
                sample_rate as int,
                (i - 1) as nat,
            ),
            forall|j: int|
                0 <= j < i ==> out@[j] as int == filtered_at(
                    samples@,
                    cutoff_hz as int,
                    sample_rate as int,
                    j as nat,
                ),
        decreases n - i,
    {
        let v = interpolate(prev, samples[i], num, den);
        out.push(v);
        prev = v;
        i = i + 1;
    }
    assert(out@ =~= filtered(samples@, cutoff_hz as int, sample_rate as int));
    out
}

} // verus!
