//! Placeholder UI effects: a timer that records when effects were last
//! updated, with no animation of its own.

use vstd::prelude::*;

verus! {

/// Effects state: the time of the last update, in milliseconds of a
/// monotonic clock.
pub struct EffectsState {
    pub last_update_ms: u64,
}

impl EffectsState {
    /// Effects state last updated at `now_ms`.
    pub fn new(now_ms: u64) -> (r: Self)
        ensures
            r.last_update_ms == now_ms,
    {
        EffectsState { last_update_ms: now_ms }
    }

    /// Time since the last update; zero if `now_ms` lies before it.
    pub fn elapsed(&self, now_ms: u64) -> (r: u64)
        ensures
            r == if now_ms >= self.last_update_ms {
                (now_ms - self.last_update_ms) as u64
            } else {
                0
            },
    {
        now_ms.saturating_sub(self.last_update_ms)
    }

    /// Advances effects; there is nothing to animate, so nothing changes.
    pub fn update(&mut self)
        ensures
            final(self).last_update_ms == old(self).last_update_ms,
    {
    }

    /// Clears effects; there are none, so nothing changes.
    pub fn clear(&mut self)
        ensures
            final(self).last_update_ms == old(self).last_update_ms,
    {
    }
}

/// The progress bar's effect: there is only none.
#[derive(Debug, Clone, Copy, PartialEq, Eq, Structural)]
pub enum ProgressBarEffect {
    NoEffect,
}

impl ProgressBarEffect {
    pub fn default() -> (r: Self)
        ensures
            r == ProgressBarEffect::NoEffect,
    {
        ProgressBarEffect::NoEffect
    }
}

} // verus!
