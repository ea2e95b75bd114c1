//! Radio planning and the producer's loop decision.
use vstd::prelude::*;

verus! {

/// Sample rate, in samples per second, up to which the capture rate is raised.
pub const MIN_CAPTURE_RATE: u32 = 1_000_000;

/// Center frequency and sample rate to configure the radio with.
#[derive(Clone, Copy, Debug, PartialEq, Eq, Structural)]
pub struct RadioConfig {
    pub capture_freq: u32,
    pub capture_rate: u32,
}

/// Integer factor by which the capture rate exceeds the requested rate.
pub open spec fn downsample_spec(rate: u32) -> int {
    MIN_CAPTURE_RATE as int / rate as int + 1
}

/// Capture rate: the smallest multiple of `rate` above `MIN_CAPTURE_RATE`.
pub open spec fn capture_rate_spec(rate: u32) -> int {
    downsample_spec(rate) * rate as int
}

/// Capture frequency: offset tuning by a quarter of the capture rate.
pub open spec fn capture_freq_spec(freq: u32, rate: u32) -> int {
    freq as int + capture_rate_spec(rate) / 4
}

/// Radio configuration for listening at `freq` with an output rate of `rate`.
pub fn optimal_settings(freq: u32, rate: u32) -> (r: RadioConfig)
    requires
        rate > 0,
        capture_rate_spec(rate) <= u32::MAX,
        capture_freq_spec(freq, rate) <= u32::MAX,
    ensures
        r.capture_rate as int == capture_rate_spec(rate),
        r.capture_freq as int == capture_freq_spec(freq, rate),
        r.capture_rate > MIN_CAPTURE_RATE,
{
    let downsample: u32 = MIN_CAPTURE_RATE / rate + 1;
    proof {
        let d = MIN_CAPTURE_RATE as int / rate as int;
        assert(d * rate as int <= MIN_CAPTURE_RATE as int) by (nonlinear_arith)
            requires d == MIN_CAPTURE_RATE as int / rate as int, rate > 0;
        assert((MIN_CAPTURE_RATE as int) < (d + 1) * (rate as int)) by (nonlinear_arith)
            requires d == MIN_CAPTURE_RATE as int / rate as int, rate > 0;
        assert((d + 1) * rate as int == d * rate as int + rate as int) by (nonlinear_arith);
    }
    let capture_rate: u32 = downsample * rate;
    let capture_freq: u32 = freq + capture_rate / 4;
    RadioConfig { capture_freq, capture_rate }
}

} // verus!
