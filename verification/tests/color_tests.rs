use recolor::ansi::{nearest_ansi256, to_display_string};
use recolor::color::{contrast_grayscale, linear_round_trip};
use recolor::term::{AnsiMode, ForegroundBackground};
use recolor::{LinearColor, SrgbColor, FIXED_ONE};

fn fg(c: SrgbColor, mode: AnsiMode) -> String {
    to_display_string(&c, mode, ForegroundBackground::Foreground)
}

#[test]
fn round_trip_all_bytes() {
    // every channel value survives the trip through linear light
    for b in 0..=255u8 {
        let c = SrgbColor::new(b, b, b);
        assert_eq!(linear_round_trip(c), c);
    }
    for b in 0..=255u8 {
        let c = SrgbColor::new(b, 255 - b, if b % 2 == 0 { 17 } else { 200 });
        assert_eq!(c.to_linear().to_srgb(), c);
    }
}

#[test]
fn linear_endpoints() {
    let black = SrgbColor::new(0, 0, 0).to_linear();
    assert_eq!(black, LinearColor { r: 0, g: 0, b: 0 });
    let white = SrgbColor::new(255, 255, 255).to_linear();
    assert_eq!(
        white,
        LinearColor {
            r: FIXED_ONE,
            g: FIXED_ONE,
            b: FIXED_ONE
        }
    );
}

#[test]
fn lightness_of_extremes() {
    assert_eq!(SrgbColor::new(0, 0, 0).lightness(), 0);
    assert_eq!(SrgbColor::new(255, 255, 255).lightness(), FIXED_ONE);
    // mid gray: (128 + 128) * 65535 / 510 rounded
    let mid = SrgbColor::new(128, 128, 128).lightness();
    assert_eq!(mid, (256 * FIXED_ONE + 255) / 510);
}

#[test]
fn contrast_picks_white_on_dark_and_black_on_light() {
    let white = SrgbColor::new(255, 255, 255);
    let black = SrgbColor::new(0, 0, 0);
    assert_eq!(contrast_grayscale(&black), white);
    assert_eq!(contrast_grayscale(&white), black);
    assert_eq!(contrast_grayscale(&SrgbColor::new(0, 0, 139)), white);
    assert_eq!(contrast_grayscale(&SrgbColor::new(255, 255, 0)), black);
}

#[test]
fn rgb_escape_exact() {
    assert_eq!(fg(SrgbColor::new(1, 2, 3), AnsiMode::Rgb), "\u{1b}[38;2;1;2;3m");
    assert_eq!(fg(SrgbColor::new(255, 0, 100), AnsiMode::Rgb), "\u{1b}[38;2;255;0;100m");
    assert_eq!(
        to_display_string(&SrgbColor::new(9, 10, 200), AnsiMode::Rgb, ForegroundBackground::Background),
        "\u{1b}[48;2;9;10;200m"
    );
}

#[test]
fn ansi256_quantization_exact() {
    // pure red sits exactly on cube entry 196
    assert_eq!(nearest_ansi256(&SrgbColor::new(255, 0, 0)), 196);
    // black is the first cube entry
    assert_eq!(nearest_ansi256(&SrgbColor::new(0, 0, 0)), 16);
    // white is cube entry 231, found before the brightest gray
    assert_eq!(nearest_ansi256(&SrgbColor::new(255, 255, 255)), 231);
    // the darkest gray ramp entry
    assert_eq!(nearest_ansi256(&SrgbColor::new(8, 8, 8)), 232);
    assert_eq!(fg(SrgbColor::new(255, 0, 0), AnsiMode::Ansi256), "\u{1b}[38;5;196m");
}
