//! An animated ASCII winter landscape: a noise-driven height field of
//! rolling hills, a snow-covered ground band, falling snowflakes, static
//! decorative sprites placed at terrain extrema, and a compositor that
//! merges all layers into one screen buffer.
//!
//! Noise samples and random draws enter as plain integer values, so every
//! rule of the landscape — heights, culling, placement, compositing — is
//! stated and proved here.

pub mod ground;
pub mod hills;
pub mod objects;
pub mod renderer;
pub mod rng;
pub mod snow;
pub mod terrain;

use vstd::prelude::*;

verus! {

/// The three glyphs that stand for snow of increasing density.
pub open spec fn is_snow_glyph(c: char) -> bool {
    c == '.' || c == '+' || c == '*'
}

} // verus!
