//! Terminal-facing rendering parameters: color depth, light or dark theme,
//! and the decisions that map detected terminal capabilities onto them.
//! Detection itself is I/O and lives with the caller; the decisions are
//! verified here.

use vstd::prelude::*;

use crate::color::lightness_fixed;
use crate::{SrgbColor, FIXED_ONE};

verus! {

/// The color depth escape sequences are rendered for.
#[derive(Clone, Copy, PartialEq, Eq, Structural, Debug)]
pub enum AnsiMode {
    /// The 256-color palette.
    Ansi256,
    /// Full 24-bit color.
    Rgb,
}

/// Whether an escape sequence colors the foreground or the background.
#[derive(Clone, Copy, PartialEq, Eq, Structural, Debug)]
pub enum ForegroundBackground {
    Foreground,
    Background,
}

/// The assumed terminal background: light or dark.
#[derive(Clone, Copy, PartialEq, Eq, Structural, Debug)]
pub enum TerminalTheme {
    Light,
    Dark,
}

/// The theme a terminal background color implies: light when the
/// background's perceptual lightness reaches one half, dark otherwise.
pub fn theme_of_background(bg: &SrgbColor) -> (t: TerminalTheme)
    ensures
        t == (if lightness_fixed(bg.r, bg.g, bg.b) >= FIXED_ONE / 2 {
            TerminalTheme::Light
        } else {
            TerminalTheme::Dark
        }),
{
    let l = bg.lightness();
    if l >= FIXED_ONE / 2 {
        TerminalTheme::Light
    } else {
        TerminalTheme::Dark
    }
}

/// The deepest mode a terminal supports, from its advertised capabilities:
/// truecolor support selects full color, and either 256-color or basic
/// support selects the 256-color palette; a terminal with none of the three
/// gets nothing.
pub fn mode_of_support(has_16m: bool, has_256: bool, has_basic: bool) -> (m: Option<AnsiMode>)
    ensures
        m == (if has_16m {
            Some(AnsiMode::Rgb)
        } else if has_256 || has_basic {
            Some(AnsiMode::Ansi256)
        } else {
            None::<AnsiMode>
        }),
{
    if has_16m {
        Some(AnsiMode::Rgb)
    } else if has_256 || has_basic {
        Some(AnsiMode::Ansi256)
    } else {
        None
    }
}

} // verus!
