//! Tempo-reactive terminal visualization: beat clock, color schemes, palette
//! derivation and wave-field rendering, with machine-checked contracts.

pub mod color;
pub mod beat;
pub mod palette;
pub mod wave;
pub mod controls;
pub mod effects;
pub mod utils;
