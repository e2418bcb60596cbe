//! The beat clock: where in the current beat a moment of playback falls.

use vstd::prelude::*;

verus! {

/// Beat phases are fixed-point fractions: `FULL_BEAT` stands for one whole
/// beat, so a phase lies in `0..FULL_BEAT`.
pub const FULL_BEAT: u32 = 1000;

/// Milliseconds in one minute.
pub const MS_PER_MINUTE: u64 = 60000;

/// `(elapsed * bpm / 60 s) mod 1`, in units of `1 / FULL_BEAT`, truncated.
pub open spec fn beat_phase(elapsed_ms: u64, bpm: u32) -> int {
    ((elapsed_ms as int * bpm as int) % (MS_PER_MINUTE as int)) / (MS_PER_MINUTE as int
        / FULL_BEAT as int)
}

/// The phase within the current beat after `elapsed_ms` milliseconds of
/// playback at `bpm` beats per minute. Always below one whole beat.
pub fn phase(elapsed_ms: u64, bpm: u32) -> (r: u32)
    ensures
        r as int == beat_phase(elapsed_ms, bpm),
        r < FULL_BEAT,
{
    assert(elapsed_ms as u128 * bpm as u128 <= u64::MAX as u128 * u32::MAX as u128) by (nonlinear_arith);
    let ticks: u128 = (elapsed_ms as u128 * bpm as u128) % (MS_PER_MINUTE as u128);
    (ticks / ((MS_PER_MINUTE / FULL_BEAT as u64) as u128)) as u32
}

} // verus!
