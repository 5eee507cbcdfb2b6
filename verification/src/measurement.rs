//! Loudness: in what portions a take is fed to the meter.
use vstd::prelude::*;

verus! {

/// How many frames are measured at a time.
pub open spec fn frames_at_a_time(sample_rate: u32) -> int {
    if sample_rate / 10 < 1024 {
        1024
    } else {
        sample_rate as int / 10
    }
}

/// How many interleaved samples are measured at a time: a tenth of a second,
/// and at least 1024 frames.
pub fn chunk_samples(sample_rate: u32, channels: u32) -> (r: u64)
    ensures
        r == frames_at_a_time(sample_rate) * channels,
{
    let frames: u64 = if sample_rate / 10 < 1024 {
        1024
    } else {
        (sample_rate / 10) as u64
    };
    assert(frames * channels <= 0xffff_ffff * 0xffff_ffff) by (nonlinear_arith)
        requires
            frames <= 0xffff_ffff,
            channels <= 0xffff_ffff,
    ;
    frames * channels as u64
}

/// At a time are measured the whole frames of a tenth of a second, or 1024 where
/// those are fewer.
pub proof fn a_tenth_of_a_second_at_a_time(rate: u32)
    ensures
        frames_at_a_time(rate) >= 1024,
        rate >= 10240 ==> frames_at_a_time(rate) * 10 <= rate < (frames_at_a_time(rate) + 1) * 10,
        rate < 10240 ==> frames_at_a_time(rate) == 1024,
{
}

} // verus!
