//! The color space layer: conversions between sRGB bytes and linear light,
//! perceptual lightness extraction and replacement, and contrast selection.
//!
//! Linear light is held as fixed-point fractions of [`FIXED_ONE`].  The gamma
//! transfer function and the hue-preserving lightness replacement are done by
//! the `palette` crate behind the trusted wrappers in this file; everything
//! around them is verified integer arithmetic.

use vstd::prelude::*;

use crate::{LinearColor, SrgbColor, FIXED_ONE};

use palette::{FromColor, Hsl, LinSrgb, Srgb};

verus! {

/// The linear-light value of one gamma-encoded sRGB byte, as a fixed-point
/// fraction of [`FIXED_ONE`], rounded to nearest.  The sRGB transfer function
/// takes more lines to state than to trust, so it is only named here; the
/// facts the library relies on stand in the contract of
/// [`srgb_channel_to_linear`].
pub uninterp spec fn linear_of(b: u8) -> u32;

/// The gamma-encoded sRGB byte for one linear-light channel value.
pub uninterp spec fn byte_of(v: u32) -> u8;

/// The sRGB color obtained by replacing the perceptual (HSL) lightness of
/// `(r, g, b)` with the fixed-point value `l`, keeping hue and saturation.
pub uninterp spec fn hsl_recolored(r: u8, g: u8, b: u8, l: u32) -> (u8, u8, u8);

/// How far the measured lightness of a recolored byte triple may sit from the
/// requested one: byte rounding moves `(max + min) / 2` by at most one byte
/// step, which is about 129 fixed-point units; rounding in
/// [`lightness_fixed`] and float noise add a little.
pub const LIGHTNESS_EPS: u32 = 512;

/// Decodes one sRGB byte to linear light.
///
/// Relies on `palette`'s sRGB decoding for `u8` (`Rgb::into_linear`, a table
/// of the exact transfer-function values) and its 16-bit component scaling
/// (`into_format`, multiply by the maximum intensity and round to nearest):
/// the result is a deterministic function of the byte, `0` maps to `0`, `255`
/// maps to full intensity, and the values lie in `[0, FIXED_ONE]`.
/// Re-encoding gives the byte back: `palette` documents its float-to-`u8`
/// sRGB encoding as having error below `0.6` of the exact real result, the
/// exact result of encoding a decoded byte is that byte itself, and the
/// 16-bit rounding here perturbs it by under `0.03`; two integers closer than
/// `1` are equal.
#[verifier::external_body]
pub fn srgb_channel_to_linear(b: u8) -> (r: u32)
    ensures
        r == linear_of(b),
        r <= FIXED_ONE,
        byte_of(r) == b,
        b == 0 ==> r == 0,
        b == 255 ==> r == FIXED_ONE,
{
    let lin: LinSrgb = Srgb::new(b, b, b).into_linear();
    let lin16: LinSrgb<u16> = lin.into_format();
    lin16.red as u32
}

/// Encodes one linear-light channel value to an sRGB byte.
///
/// Relies on `palette`'s 16-bit component scaling (`into_format`, divide by
/// the maximum intensity) and its sRGB encoding for `u8`
/// (`Rgb::from_linear`): the result is a deterministic function of the input
/// value.
#[verifier::external_body]
pub fn linear_channel_to_byte(v: u32) -> (r: u8)
    requires
        v <= FIXED_ONE,
    ensures
        r == byte_of(v),
{
    let lin16: LinSrgb<u16> = LinSrgb::new(v as u16, v as u16, v as u16);
    let lin: LinSrgb = lin16.into_format();
    let c: Srgb<u8> = Srgb::from_linear(lin);
    c.red
}

/// Replaces the perceptual lightness of a color, keeping hue and saturation.
///
/// Relies on `palette`'s HSL conversions: the result is a deterministic
/// function of the arguments; the HSL-to-RGB formula puts the channels at
/// `{chroma, x, 0} + (l - chroma / 2)`, so the largest and smallest channel
/// average back to `l` up to byte rounding; lightness `1` forces chroma `0`
/// and all channels `1` (white), and lightness `0` forces all channels `0`
/// (black), exactly.  The target lightness is carried in as the 16-bit gray
/// color whose HSL lightness is exactly `l / FIXED_ONE`.
#[verifier::external_body]
pub fn set_lightness(c: SrgbColor, l: u32) -> (r: SrgbColor)
    requires
        l <= FIXED_ONE,
    ensures
        (r.r, r.g, r.b) == hsl_recolored(c.r, c.g, c.b, l),
        lightness_fixed(r.r, r.g, r.b) <= l + LIGHTNESS_EPS,
        l <= lightness_fixed(r.r, r.g, r.b) + LIGHTNESS_EPS,
        l == FIXED_ONE ==> r == (SrgbColor { r: 255, g: 255, b: 255 }),
        l == 0 ==> r == (SrgbColor { r: 0, g: 0, b: 0 }),
{
    let rgb: Srgb = Srgb::new(c.r, c.g, c.b).into_format();
    let hsl = Hsl::from_color(rgb);
    let gray: Srgb = Srgb::<u16>::new(l as u16, l as u16, l as u16).into_format();
    let target = Hsl::from_color(gray).lightness;
    let replaced = Hsl::new(hsl.hue, hsl.saturation, target);
    let out: Srgb<u8> = Srgb::from_color(replaced).into_format();
    SrgbColor { r: out.red, g: out.green, b: out.blue }
}

/// The largest of three bytes.
pub open spec fn max3(a: u8, b: u8, c: u8) -> u8 {
    if a >= b && a >= c {
        a
    } else if b >= c {
        b
    } else {
        c
    }
}

/// The smallest of three bytes.
pub open spec fn min3(a: u8, b: u8, c: u8) -> u8 {
    if a <= b && a <= c {
        a
    } else if b <= c {
        b
    } else {
        c
    }
}

/// The HSL lightness of an sRGB byte triple, `(max + min) / 2` of the
/// channels, as a fixed-point fraction of [`FIXED_ONE`], rounded to nearest.
pub open spec fn lightness_fixed(r: u8, g: u8, b: u8) -> u32 {
    (((max3(r, g, b) + min3(r, g, b)) * (FIXED_ONE as int) + 255) / 510) as u32
}

impl SrgbColor {
    /// The HSL lightness of this color.
    pub open spec fn spec_lightness(self) -> u32 {
        lightness_fixed(self.r, self.g, self.b)
    }

    /// Extracts the perceptual lightness of this color as a fixed-point
    /// fraction of [`FIXED_ONE`].
    pub fn lightness(&self) -> (l: u32)
        ensures
            l == self.spec_lightness(),
            l <= FIXED_ONE,
    {
        let hi = if self.r >= self.g && self.r >= self.b {
            self.r
        } else if self.g >= self.b {
            self.g
        } else {
            self.b
        };
        let lo = if self.r <= self.g && self.r <= self.b {
            self.r
        } else if self.g <= self.b {
            self.g
        } else {
            self.b
        };
        let sum: u32 = hi as u32 + lo as u32;
        (sum * FIXED_ONE + 255) / 510
    }

    /// Decodes this color to its linear-light computation form.
    pub fn to_linear(&self) -> (lin: LinearColor)
        ensures
            lin == self.spec_to_linear(),
            lin.wf(),
            lin.to_spec_srgb() == *self,
    {
        LinearColor {
            r: srgb_channel_to_linear(self.r),
            g: srgb_channel_to_linear(self.g),
            b: srgb_channel_to_linear(self.b),
        }
    }

    /// The linear-light form of this color.
    pub open spec fn spec_to_linear(self) -> LinearColor {
        LinearColor { r: linear_of(self.r), g: linear_of(self.g), b: linear_of(self.b) }
    }
}

impl LinearColor {
    /// The display form of this linear-light color.
    pub open spec fn to_spec_srgb(self) -> SrgbColor {
        SrgbColor { r: byte_of(self.r), g: byte_of(self.g), b: byte_of(self.b) }
    }

    /// Encodes this linear-light color back to display bytes.
    pub fn to_srgb(&self) -> (c: SrgbColor)
        requires
            self.wf(),
        ensures
            c == self.to_spec_srgb(),
    {
        SrgbColor {
            r: linear_channel_to_byte(self.r),
            g: linear_channel_to_byte(self.g),
            b: linear_channel_to_byte(self.b),
        }
    }
}

/// Decoding a color to linear light and encoding it back reproduces the
/// original bytes exactly, for every color.
pub fn linear_round_trip(c: SrgbColor) -> (r: SrgbColor)
    ensures
        r == c,
{
    let lin = c.to_linear();
    lin.to_srgb()
}

/// Relative luminance of a color, from its linear channels weighted by the
/// standard coefficients `0.2126`, `0.7152` and `0.0722`, as a fixed-point
/// fraction of [`FIXED_ONE`].
pub open spec fn rel_luminance(c: SrgbColor) -> u32 {
    ((2126 * linear_of(c.r) + 7152 * linear_of(c.g) + 722 * linear_of(c.b)) / 10000) as u32
}

/// Colors whose relative luminance is below this threshold get a white
/// contrast foreground, the rest a black one.  This is where the contrast
/// ratios `(1.05) / (lum + 0.05)` against white and `(lum + 0.05) / 0.05`
/// against black cross, at `sqrt(0.0525) - 0.05`, in fixed point.
pub const CONTRAST_SPLIT: u32 = 11739;

/// Returns pure black or pure white, whichever yields the higher contrast
/// ratio against `c`, for readable labels over colored backgrounds.
pub fn contrast_grayscale(c: &SrgbColor) -> (r: SrgbColor)
    ensures
        r == (if rel_luminance(*c) < CONTRAST_SPLIT {
            SrgbColor { r: 255, g: 255, b: 255 }
        } else {
            SrgbColor { r: 0, g: 0, b: 0 }
        }),
{
    let lin = c.to_linear();
    let lum: u32 = (2126 * lin.r + 7152 * lin.g + 722 * lin.b) / 10000;
    if lum < CONTRAST_SPLIT {
        SrgbColor { r: 255, g: 255, b: 255 }
    } else {
        SrgbColor { r: 0, g: 0, b: 0 }
    }
}

} // verus!
