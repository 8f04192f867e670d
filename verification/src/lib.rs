//! A verified ASCII-art recoloring engine.
//!
//! The library ingests raw, possibly color-tagged ASCII art, normalizes it
//! into a uniform rectangular grid, and repaints it with a user-selected
//! color profile under a chosen spatial alignment strategy, respecting
//! perceptual lightness and terminal color-depth constraints.
//!
//! Color blending happens in linear light, modeled here as fixed-point
//! integers with [`FIXED_ONE`] as the unit, so that the interpolation and
//! lightness arithmetic can be verified exactly.  Only the gamma and
//! hue-preserving lightness transforms, which are floating-point by nature,
//! are delegated to the `palette` crate behind trusted wrappers.

use vstd::prelude::*;

pub mod ansi;
pub mod ascii;
pub mod color;
pub mod gradient;
pub mod layout;
pub mod lightness;
pub mod profile;
pub mod term;
pub mod text;

verus! {

/// The fixed-point unit: this value stands for 1.0.  It is the largest
/// 16-bit value, so that a fixed-point channel is exactly a 16-bit color
/// component as the `palette` crate scales them.
pub const FIXED_ONE: u32 = 65535;

/// An sRGB color in display form: one byte per channel.
#[derive(Clone, Copy, PartialEq, Eq, Structural, Debug, Hash)]
pub struct SrgbColor {
    pub r: u8,
    pub g: u8,
    pub b: u8,
}

impl SrgbColor {
    pub fn new(r: u8, g: u8, b: u8) -> (c: SrgbColor)
        ensures
            c == (SrgbColor { r, g, b }),
    {
        SrgbColor { r, g, b }
    }
}

/// An sRGB color in computation form: each channel is the gamma-decoded
/// (linear-light) value as a fixed-point fraction of [`FIXED_ONE`].
#[derive(Clone, Copy, PartialEq, Eq, Structural, Debug)]
pub struct LinearColor {
    pub r: u32,
    pub g: u32,
    pub b: u32,
}

impl LinearColor {
    /// Every channel lies in the closed unit interval.
    pub open spec fn wf(self) -> bool {
        self.r <= FIXED_ONE && self.g <= FIXED_ONE && self.b <= FIXED_ONE
    }
}

/// What can go wrong inside the engine.  Every error is deterministic in its
/// inputs and carries the offending value.
#[derive(Clone, Copy, PartialEq, Eq, Structural, Debug)]
pub enum EngineError {
    /// A lightness or scale factor fell outside the closed unit interval;
    /// carries the offending fixed-point value.
    OutOfRange(u32),
    /// The art could not be normalized; says why.
    FormatError(FormatErrorKind),
    /// A custom alignment left a discovered placeholder slot unmapped;
    /// carries the slot index.
    UnmappedSlot(u8),
    /// Reserved: palette quantization cannot represent the requested depth.
    /// Never produced for the two supported depths.
    EncodingError,
}

/// Why art normalization failed.
#[derive(Clone, Copy, PartialEq, Eq, Structural, Debug)]
pub enum FormatErrorKind {
    /// The input has no lines, or no line has any visible character.
    Empty,
    /// A line's visible width exceeds the ceiling; carries that width.
    LineTooLong(usize),
    /// The line count exceeds the ceiling; carries that count.
    TooManyLines(usize),
}

} // verus!
