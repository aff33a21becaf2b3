//! Sample-count bookkeeping for synthesized sine tones.
//!
//! The tone's samples themselves are floating-point and are computed by
//! the caller that owns the audio stack; the library fixes how many
//! samples a requested duration spans and the PCM shape of the export.

use vstd::prelude::*;

verus! {

/// Tone exports are mono.
pub const TONE_CHANNELS: u16 = 1;

/// Tone exports are 32-bit float PCM.
pub const TONE_BITS_PER_SAMPLE: u16 = 32;

/// How many samples a tone of `duration_ms` milliseconds spans at
/// `sample_rate` Hz.
pub open spec fn tone_sample_count_of(duration_ms: u32, sample_rate: u32) -> int {
    (duration_ms * sample_rate) / 1000
}

/// Computes the sample count of a requested tone.
pub fn tone_sample_count(duration_ms: u32, sample_rate: u32) -> (n: u64)
    ensures
        n == tone_sample_count_of(duration_ms, sample_rate),
{
    proof {
        assert((duration_ms as int) * (sample_rate as int) <= 0xFFFF_FFFFi64 * 0xFFFF_FFFFi64)
            by (nonlinear_arith)
            requires
                duration_ms <= 0xFFFF_FFFFu64 && sample_rate <= 0xFFFF_FFFFu64,
        {}
    }
    (duration_ms as u64) * (sample_rate as u64) / 1000
}

} // verus!
