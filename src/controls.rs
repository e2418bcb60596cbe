//! The interactive state of the visualizer: which built-in scheme is shown
//! and the simulated tempo, changed one key press at a time.

use vstd::prelude::*;
use crate::color::ColorScheme;

verus! {

/// Number of built-in schemes that can be cycled through.
pub const SCHEME_COUNT: usize = 6;

pub const MIN_BPM: u32 = 60;

pub const MAX_BPM: u32 = 200;

pub const BPM_STEP: u32 = 10;

/// The visualizer's state between frames.
pub struct App {
    pub current_color_scheme: usize,
    pub simulated_bpm: u32,
}

/// The built-in scheme at position `i` of the cycle.
pub open spec fn scheme_at(i: usize) -> ColorScheme {
    if i == 0 {
        ColorScheme::Cyan
    } else if i == 1 {
        ColorScheme::Warm
    } else if i == 2 {
        ColorScheme::Purple
    } else if i == 3 {
        ColorScheme::Green
    } else if i == 4 {
        ColorScheme::Sunset
    } else {
        ColorScheme::Ocean
    }
}

/// The display name of a scheme.
pub open spec fn scheme_name(s: ColorScheme) -> Seq<char> {
    match s {
        ColorScheme::Cyan => "Cyan (Default)"@,
        ColorScheme::Warm => "Warm (Orange/Red)"@,
        ColorScheme::Purple => "Purple/Magenta"@,
        ColorScheme::Green => "Green/Emerald"@,
        ColorScheme::Sunset => "Sunset Gradient"@,
        ColorScheme::Ocean => "Ocean (Deep Blue)"@,
        ColorScheme::Custom => "Album Art"@,
    }
}

impl App {
    /// The scheme index is in range and the tempo within its bounds.
    pub open spec fn wf(&self) -> bool {
        &&& self.current_color_scheme < SCHEME_COUNT
        &&& MIN_BPM <= self.simulated_bpm <= MAX_BPM
    }

    /// Starts on the first scheme at 120 BPM.
    pub fn new() -> (r: Self)
        ensures
            r.wf(),
            r.current_color_scheme == 0,
            r.simulated_bpm == 120,
    {
        App { current_color_scheme: 0, simulated_bpm: 120 }
    }

    /// Moves to the next scheme, wrapping after the last.
    pub fn next_color(&mut self)
        requires
            old(self).wf(),
        ensures
            final(self).wf(),
            final(self).current_color_scheme == (old(self).current_color_scheme + 1) % (
            SCHEME_COUNT as int),
            final(self).simulated_bpm == old(self).simulated_bpm,
    {
        self.current_color_scheme = (self.current_color_scheme + 1) % SCHEME_COUNT;
    }

    /// Moves to the previous scheme, wrapping before the first.
    pub fn prev_color(&mut self)
        requires
            old(self).wf(),
        ensures
            final(self).wf(),
            final(self).current_color_scheme == if old(self).current_color_scheme == 0 {
                (SCHEME_COUNT - 1) as usize
            } else {
                (old(self).current_color_scheme - 1) as usize
            },
            final(self).simulated_bpm == old(self).simulated_bpm,
    {
        if self.current_color_scheme == 0 {
            self.current_color_scheme = SCHEME_COUNT - 1;
        } else {
            self.current_color_scheme = self.current_color_scheme - 1;
        }
    }

    /// Raises the tempo by one step, up to the maximum.
    pub fn increase_bpm(&mut self)
        requires
            old(self).wf(),
        ensures
            final(self).wf(),
            final(self).simulated_bpm == if old(self).simulated_bpm + BPM_STEP > MAX_BPM {
                MAX_BPM as int
            } else {
                old(self).simulated_bpm + BPM_STEP
            },
            final(self).current_color_scheme == old(self).current_color_scheme,
    {
        if self.simulated_bpm + BPM_STEP > MAX_BPM {
            self.simulated_bpm = MAX_BPM;
        } else {
            self.simulated_bpm = self.simulated_bpm + BPM_STEP;
        }
    }

    /// Lowers the tempo by one step, down to the minimum.
    pub fn decrease_bpm(&mut self)
        requires
            old(self).wf(),
        ensures
            final(self).wf(),
            final(self).simulated_bpm == if old(self).simulated_bpm < MIN_BPM + BPM_STEP {
                MIN_BPM as int
            } else {
                old(self).simulated_bpm - BPM_STEP
            },
            final(self).current_color_scheme == old(self).current_color_scheme,
    {
        if self.simulated_bpm < MIN_BPM + BPM_STEP {
            self.simulated_bpm = MIN_BPM;
        } else {
            self.simulated_bpm = self.simulated_bpm - BPM_STEP;
        }
    }

    /// The scheme currently shown.
    pub fn color_scheme(&self) -> (r: ColorScheme)
        ensures
            r == scheme_at(self.current_color_scheme),
    {
        match self.current_color_scheme {
            0 => ColorScheme::Cyan,
            1 => ColorScheme::Warm,
            2 => ColorScheme::Purple,
            3 => ColorScheme::Green,
            4 => ColorScheme::Sunset,
            _ => ColorScheme::Ocean,
        }
    }

    /// The display name of the scheme currently shown.
    pub fn color_scheme_name(&self) -> (r: &'static str)
        ensures
            r@ == scheme_name(scheme_at(self.current_color_scheme)),
    {
        color_scheme_name_of(self.color_scheme())
    }
}

/// The display name of a scheme.
pub fn color_scheme_name_of(s: ColorScheme) -> (r: &'static str)
    ensures
        r@ == scheme_name(s),
{
    match s {
        ColorScheme::Cyan => "Cyan (Default)",
        ColorScheme::Warm => "Warm (Orange/Red)",
        ColorScheme::Purple => "Purple/Magenta",
        ColorScheme::Green => "Green/Emerald",
        ColorScheme::Sunset => "Sunset Gradient",
        ColorScheme::Ocean => "Ocean (Deep Blue)",
        ColorScheme::Custom => "Album Art",
    }
}

} // verus!
