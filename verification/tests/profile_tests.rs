use recolor::lightness::{default_lightness, Lightness};
use recolor::profile::{AssignLightness, ColorProfile};
use recolor::term::{AnsiMode, ForegroundBackground, TerminalTheme};
use recolor::{EngineError, SrgbColor, FIXED_ONE};

const EPS: u32 = 512;

fn red() -> SrgbColor {
    SrgbColor::new(255, 0, 0)
}

fn blue() -> SrgbColor {
    SrgbColor::new(0, 0, 255)
}

fn rainbowish() -> ColorProfile {
    ColorProfile::new(vec![
        SrgbColor::new(230, 30, 20),
        SrgbColor::new(250, 160, 10),
        SrgbColor::new(240, 230, 40),
        SrgbColor::new(30, 200, 50),
        SrgbColor::new(40, 60, 220),
    ])
}

#[test]
fn unique_colors_keeps_first_occurrences_in_order() {
    let p = ColorProfile::new(vec![red(), blue(), red(), red(), blue()]);
    let u = p.unique_colors();
    assert_eq!(u.colors, vec![red(), blue()]);
}

#[test]
fn unique_colors_idempotent() {
    let p = ColorProfile::new(vec![red(), blue(), red(), blue(), blue()]);
    let once = p.unique_colors();
    let twice = once.unique_colors();
    assert_eq!(once.colors, twice.colors);
}

#[test]
fn replace_lightness_hits_target() {
    let target = Lightness::new(29491).unwrap();
    let p = rainbowish().with_lightness(AssignLightness::Replace(target));
    assert_eq!(p.colors.len(), 5);
    for c in &p.colors {
        let l = c.lightness();
        assert!(l <= 29491 + EPS && 29491 <= l + EPS, "lightness {l} too far from target");
    }
}

#[test]
fn lighten_full_factor_gives_white() {
    let p = rainbowish().lighten(FIXED_ONE).unwrap();
    for c in &p.colors {
        assert_eq!(*c, SrgbColor::new(255, 255, 255));
    }
}

#[test]
fn lighten_zero_keeps_lightness() {
    let p = rainbowish();
    let q = p.lighten(0).unwrap();
    for (a, b) in p.colors.iter().zip(q.colors.iter()) {
        let la = a.lightness();
        let lb = b.lightness();
        assert!(lb <= la + EPS && la <= lb + EPS);
    }
}

#[test]
fn lighten_rejects_out_of_range_factor() {
    assert_eq!(rainbowish().lighten(FIXED_ONE + 1), Err(EngineError::OutOfRange(FIXED_ONE + 1)));
}

#[test]
fn lightness_new_validates() {
    assert!(Lightness::new(FIXED_ONE).is_ok());
    assert_eq!(Lightness::new(70000), Err(EngineError::OutOfRange(70000)));
}

#[test]
fn adaptive_keeps_already_appropriate_palettes() {
    // a very dark profile under a dark theme: average sits at or below the
    // target, so nothing is scaled
    let p = ColorProfile::new(vec![SrgbColor::new(10, 5, 5), SrgbColor::new(5, 5, 10)]);
    let target = default_lightness(TerminalTheme::Dark);
    let q = p.with_lightness_adaptive(target, TerminalTheme::Dark);
    assert_eq!(q.colors, p.colors);
}

#[test]
fn adaptive_replaces_when_on_wrong_side() {
    // a bright profile under a dark theme: average sits above the target
    let p = ColorProfile::new(vec![SrgbColor::new(250, 250, 250), SrgbColor::new(240, 255, 255)]);
    let target = Lightness::new(20000).unwrap();
    let q = p.with_lightness_adaptive(target, TerminalTheme::Dark);
    for c in &q.colors {
        let l = c.lightness();
        assert!(l <= 20000 + EPS && 20000 <= l + EPS);
    }
}

#[test]
fn default_lightness_values() {
    assert_eq!(default_lightness(TerminalTheme::Dark).value, 42598);
    assert_eq!(default_lightness(TerminalTheme::Light).value, 26214);
}

#[test]
fn color_text_chunked_two_colors() {
    let p = ColorProfile::new(vec![red(), blue()]);
    let s = p
        .color_text("ab", AnsiMode::Rgb, ForegroundBackground::Foreground, false)
        .unwrap();
    assert_eq!(s, "\u{1b}[38;2;255;0;0ma\u{1b}[38;2;0;0;255mb");
}

#[test]
fn color_text_interpolated_endpoints() {
    let p = ColorProfile::new(vec![red(), blue()]);
    let s = p
        .color_text("ab", AnsiMode::Rgb, ForegroundBackground::Foreground, true)
        .unwrap();
    assert_eq!(s, "\u{1b}[38;2;255;0;0ma\u{1b}[38;2;0;0;255mb");
}

#[test]
fn color_text_rejects_empty_text() {
    let p = ColorProfile::new(vec![red()]);
    assert!(p
        .color_text("", AnsiMode::Rgb, ForegroundBackground::Foreground, false)
        .is_err());
}
