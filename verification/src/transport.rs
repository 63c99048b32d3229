//! Sample-count to minute:second conversions used at the control boundary.

use vstd::prelude::*;

verus! {

/// The fixed operating sample rate of the engine, in samples per second.
pub const SAMPLE_RATE: usize = 48000;

/// The minute and second (in that order) that a sample count falls in, by
/// integer truncation.
pub open spec fn spec_samples_to_minsec(n: int) -> (int, int) {
    let seconds = n / (SAMPLE_RATE as int);
    (seconds / 60, seconds % 60)
}

/// The first sample of a minute:second position at the fixed rate.
pub open spec fn spec_minsec_to_samples(minutes: int, seconds: int) -> int {
    (SAMPLE_RATE as int) * (minutes * 60 + seconds)
}

/// Utility function to convert a number of samples into minutes and seconds.
pub fn samples_to_minsec(samples: usize) -> (r: (usize, usize))
    ensures
        (r.0 as int, r.1 as int) == spec_samples_to_minsec(samples as int),
{
    let seconds = samples / SAMPLE_RATE;
    (seconds / 60, seconds % 60)
}

/// Converts a minute:second position into a sample count at the fixed rate.
pub fn minsec_to_samples(minutes: usize, seconds: usize) -> (r: usize)
    requires
        spec_minsec_to_samples(minutes as int, seconds as int) <= usize::MAX,
    ensures
        r == spec_minsec_to_samples(minutes as int, seconds as int),
{
    SAMPLE_RATE * (minutes * 60 + seconds)
}

/// Converts a minute:second position into a sample count, or `None` where the
/// result would not fit in a sample count.
pub fn checked_minsec_to_samples(minutes: usize, seconds: usize) -> (r: Option<usize>)
    ensures
        spec_minsec_to_samples(minutes as int, seconds as int) <= usize::MAX ==> r == Some(
            spec_minsec_to_samples(minutes as int, seconds as int) as usize,
        ),
        spec_minsec_to_samples(minutes as int, seconds as int) > usize::MAX ==> r is None,
{
    match minutes.checked_mul(60) {
        Some(m60) => match m60.checked_add(seconds) {
            Some(total) => SAMPLE_RATE.checked_mul(total),
            None => None,
        },
        None => None,
    }
}

/// A round trip through the two conversions truncates a sample count to whole
/// seconds: positions inside a second are rounded down, never up.
pub proof fn lemma_minsec_round_trip(n: usize)
    ensures
        ({
            let (m, s) = spec_samples_to_minsec(n as int);
            spec_minsec_to_samples(m, s) == n - (n as int) % (SAMPLE_RATE as int)
        }),
{
    let rate = SAMPLE_RATE as int;
    let secs = (n as int) / rate;
    assert(secs / 60 * 60 + secs % 60 == secs) by (nonlinear_arith);
    assert(rate * secs == n - (n as int) % rate) by (nonlinear_arith)
        requires
            rate > 0,
            secs == (n as int) / rate,
            n >= 0,
    ;
}

} // verus!
