use recolor::layout::{art_grid, flags_per_row, min_term_size, num_pages, preview_lightness, rows_per_page};
use recolor::lightness::{parse_lightness, Lightness};
use recolor::term::{mode_of_support, theme_of_background, AnsiMode, TerminalTheme};
use recolor::{SrgbColor, FIXED_ONE};

fn dflt() -> Lightness {
    Lightness::new(40000).unwrap()
}

#[test]
fn parse_percent_and_integer_forms() {
    assert_eq!(parse_lightness("45%", dflt()).unwrap().value, 45 * FIXED_ONE / 100);
    assert_eq!(parse_lightness("45%", dflt()).unwrap(), Lightness::from_percent(45));
    assert_eq!(parse_lightness("45", dflt()).unwrap().value, 45 * FIXED_ONE / 100);
    assert_eq!(parse_lightness("100", dflt()).unwrap().value, FIXED_ONE);
    assert_eq!(parse_lightness("0", dflt()).unwrap().value, 0);
}

#[test]
fn parse_decimal_forms() {
    assert_eq!(
        parse_lightness(".45", dflt()).unwrap().value,
        ((450000u64 * FIXED_ONE as u64) / 1000000) as u32
    );
    assert_eq!(parse_lightness("0.45", dflt()), parse_lightness(".45", dflt()));
    assert_eq!(parse_lightness("1.0", dflt()).unwrap().value, FIXED_ONE);
    assert_eq!(parse_lightness("1.", dflt()).unwrap().value, FIXED_ONE);
}

#[test]
fn parse_defaults_and_rejections() {
    assert_eq!(parse_lightness("", dflt()).unwrap(), dflt());
    assert_eq!(parse_lightness("unset", dflt()).unwrap(), dflt());
    assert_eq!(parse_lightness("none", dflt()).unwrap(), dflt());
    assert!(parse_lightness("150", dflt()).is_none());
    assert!(parse_lightness("101%", dflt()).is_none());
    assert!(parse_lightness("1.5", dflt()).is_none());
    assert!(parse_lightness("abc", dflt()).is_none());
    assert!(parse_lightness("4 5", dflt()).is_none());
    assert!(parse_lightness(".", dflt()).is_none());
}

#[test]
fn theme_follows_background_lightness() {
    assert_eq!(theme_of_background(&SrgbColor::new(0, 0, 0)), TerminalTheme::Dark);
    assert_eq!(theme_of_background(&SrgbColor::new(255, 255, 255)), TerminalTheme::Light);
    assert_eq!(theme_of_background(&SrgbColor::new(30, 30, 40)), TerminalTheme::Dark);
}

#[test]
fn mode_from_capabilities() {
    assert_eq!(mode_of_support(true, true, true), Some(AnsiMode::Rgb));
    assert_eq!(mode_of_support(false, true, false), Some(AnsiMode::Ansi256));
    assert_eq!(mode_of_support(false, false, true), Some(AnsiMode::Ansi256));
    assert_eq!(mode_of_support(false, false, false), None);
}

#[test]
fn layout_computations() {
    assert_eq!(min_term_size(30), (64, 30));
    assert_eq!(flags_per_row(80, 20), 3);
    assert_eq!(rows_per_page(33), 4);
    assert_eq!(rows_per_page(5), 1);
    assert_eq!(num_pages(13, 12), 2);
    assert_eq!(num_pages(12, 12), 1);
    assert_eq!(art_grid(100, 40, 30, 15), (3, 2));
}

#[test]
fn preview_lightness_stays_in_range() {
    for col in 0..8u8 {
        let light = preview_lightness(col, 8, TerminalTheme::Light);
        let dark = preview_lightness(col, 8, TerminalTheme::Dark);
        assert!(light <= FIXED_ONE);
        assert!(dark <= FIXED_ONE);
        assert!(dark >= light);
    }
}
