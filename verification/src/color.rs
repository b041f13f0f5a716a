//! From a channel's level to the integer that is displayed.

use vstd::prelude::*;

verus! {

/// `x` held to the interval from `min` to `max`: what lies below becomes
/// `min`, what lies above becomes `max`.
pub open spec fn clamped(x: i64, min: i64, max: i64) -> i64 {
    if x < min {
        min
    } else if x > max {
        max
    } else {
        x
    }
}

/// Holds `x` to the interval from `min` to `max`.
pub fn clamp(x: i64, min: i64, max: i64) -> (y: i64)
    ensures
        y == clamped(x, min, max),
{
    if x < min {
        min
    } else if x > max {
        max
    } else {
        x
    }
}

/// The largest value of a displayed channel.
pub const CHANNEL_MAX: u8 = 255;

/// A pixel as it is displayed: three channels, each from 0 to 255.
#[derive(Clone, Copy, Debug, PartialEq, Eq, Structural)]
pub struct Pixel {
    pub r: u8,
    pub g: u8,
    pub b: u8,
}

/// The displayed value of a channel whose level, in 256ths, is `level`:
/// the level itself where it is a channel value, else the nearest one.
pub fn channel(level: i64) -> (value: u8)
    ensures
        value == clamped(level, 0, 255),
{
    let held: i64 = clamp(level, 0, 255);
    held as u8
}

impl Pixel {
    /// The pixel with the channel levels `r`, `g`, `b`, each in 256ths.
    pub fn from_levels(r: i64, g: i64, b: i64) -> (pixel: Pixel)
        ensures
            pixel.r == clamped(r, 0, 255),
            pixel.g == clamped(g, 0, 255),
            pixel.b == clamped(b, 0, 255),
    {
        Pixel { r: channel(r), g: channel(g), b: channel(b) }
    }
}

/// What `clamp` returns lies in the interval, where there is one, and is `x`
/// exactly when `x` lies in it.
pub proof fn lemma_clamp_in_interval(x: i64, min: i64, max: i64)
    requires
        min <= max,
    ensures
        min <= clamped(x, min, max) <= max,
        clamped(x, min, max) == x <==> min <= x <= max,
{
}

/// Clamping keeps order, and clamping twice is clamping once.
pub proof fn lemma_clamp_is_monotone(x: i64, y: i64, min: i64, max: i64)
    requires
        min <= max,
        x <= y,
    ensures
        clamped(x, min, max) <= clamped(y, min, max),
        clamped(clamped(x, min, max), min, max) == clamped(x, min, max),
{
}

} // verus!
