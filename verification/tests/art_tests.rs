use recolor::ascii::{ColorAlignment, RawAsciiArt};
use recolor::profile::ColorProfile;
use recolor::term::{AnsiMode, TerminalTheme};
use recolor::{EngineError, FormatErrorKind, SrgbColor};

fn raw(text: &str) -> RawAsciiArt {
    RawAsciiArt {
        asc: String::from(text),
        fg: Vec::new(),
    }
}

fn red() -> SrgbColor {
    SrgbColor::new(255, 0, 0)
}

fn blue() -> SrgbColor {
    SrgbColor::new(0, 0, 255)
}

fn red_blue() -> ColorProfile {
    ColorProfile::new(vec![red(), blue()])
}

fn esc(c: SrgbColor) -> String {
    format!("\u{1b}[38;2;{};{};{}m", c.r, c.g, c.b)
}

fn chars(line: &[char]) -> String {
    line.iter().collect()
}

#[test]
fn normalize_pads_to_max_width() {
    let n = raw("ab\ncdef\nx").to_normalized().unwrap();
    assert_eq!(n.w, 4);
    assert_eq!(n.h, 3);
    assert_eq!(chars(&n.lines[0]), "ab  ");
    assert_eq!(chars(&n.lines[1]), "cdef");
    assert_eq!(chars(&n.lines[2]), "x   ");
}

#[test]
fn normalize_counts_visible_width_not_tokens() {
    let n = raw("${c1}AA${c2}BB").to_normalized().unwrap();
    assert_eq!(n.h, 1);
    assert_eq!(n.w, 4);
    assert_eq!(chars(&n.lines[0]), "${c1}AA${c2}BB");
}

#[test]
fn normalize_pads_token_lines_by_visible_width() {
    let n = raw("${c1}X\nYY").to_normalized().unwrap();
    assert_eq!(n.w, 2);
    assert_eq!(chars(&n.lines[0]), "${c1}X ");
    assert_eq!(chars(&n.lines[1]), "YY");
}

#[test]
fn normalize_drops_trailing_newline_and_cr() {
    let n = raw("ab\r\ncd\n").to_normalized().unwrap();
    assert_eq!(n.h, 2);
    assert_eq!(chars(&n.lines[0]), "ab");
    assert_eq!(chars(&n.lines[1]), "cd");
}

#[test]
fn normalize_rejects_empty_art() {
    assert_eq!(
        raw("").to_normalized().unwrap_err(),
        EngineError::FormatError(FormatErrorKind::Empty)
    );
    // lines with no visible characters are empty art too
    assert_eq!(
        raw("${c1}\n${c2}").to_normalized().unwrap_err(),
        EngineError::FormatError(FormatErrorKind::Empty)
    );
}

#[test]
fn normalize_rejects_over_wide_line() {
    let wide = "x".repeat(256);
    assert_eq!(
        raw(&wide).to_normalized().unwrap_err(),
        EngineError::FormatError(FormatErrorKind::LineTooLong(256))
    );
}

#[test]
fn normalize_rejects_too_many_lines() {
    let tall = "x\n".repeat(256);
    assert_eq!(
        raw(&tall).to_normalized().unwrap_err(),
        EngineError::FormatError(FormatErrorKind::TooManyLines(256))
    );
}

#[test]
fn unique_slots_in_first_occurrence_order() {
    let n = raw("${c3}x${c1}y\n${c3}z").to_normalized().unwrap();
    assert_eq!(n.unique_slots(), vec![3, 1]);
}

#[test]
fn single_line_horizontal_gets_one_color() {
    // a single row takes the gradient's first color for every token,
    // whatever the profile holds
    let n = raw("${c1}AA${c2}BB").to_normalized().unwrap();
    let r = n
        .to_recolored(&ColorAlignment::Horizontal, &red_blue(), AnsiMode::Rgb, TerminalTheme::Dark)
        .unwrap();
    assert_eq!(r.h, 1);
    assert_eq!(r.w, 4);
    let want = format!("{e}AA{e}BB", e = esc(red()));
    assert_eq!(r.lines[0], want);
}

#[test]
fn single_row_color_independent_of_profile_size() {
    // however many colors the profile holds, a one-row art is painted with
    // the single gradient color
    let n = raw("${c1}a${c2}b${c3}c").to_normalized().unwrap();
    for extra in 0..4usize {
        let mut colors = vec![red()];
        for t in 0..extra {
            colors.push(SrgbColor::new(10 * t as u8, 99, 7));
        }
        let p = ColorProfile::new(colors);
        let r = n
            .to_recolored(&ColorAlignment::Horizontal, &p, AnsiMode::Rgb, TerminalTheme::Dark)
            .unwrap();
        let want = format!("{e}a{e}b{e}c", e = esc(red()));
        assert_eq!(r.lines[0], want);
    }
}

#[test]
fn horizontal_rows_span_the_gradient() {
    let n = raw("${c1}a\n${c1}b").to_normalized().unwrap();
    let r = n
        .to_recolored(&ColorAlignment::Horizontal, &red_blue(), AnsiMode::Rgb, TerminalTheme::Dark)
        .unwrap();
    assert_eq!(r.lines[0], format!("{}a", esc(red())));
    assert_eq!(r.lines[1], format!("{}b", esc(blue())));
}

#[test]
fn vertical_edges_resolve_to_first_and_last_color() {
    let n = raw("${c1}X${c2}Y").to_normalized().unwrap();
    assert_eq!(n.w, 2);
    let r = n
        .to_recolored(&ColorAlignment::Vertical, &red_blue(), AnsiMode::Rgb, TerminalTheme::Dark)
        .unwrap();
    let want = format!("{}X{}Y", esc(red()), esc(blue()));
    assert_eq!(r.lines[0], want);
}

#[test]
fn vertical_colors_by_column_not_row() {
    // tokens at the same column of different rows take the same color
    let n = raw("${c1}X\n${c1}Y").to_normalized().unwrap();
    let profile = ColorProfile::new(vec![
        SrgbColor::new(10, 0, 0),
        SrgbColor::new(60, 0, 0),
        SrgbColor::new(120, 0, 0),
        SrgbColor::new(180, 0, 0),
        SrgbColor::new(250, 0, 0),
    ]);
    let r = n
        .to_recolored(&ColorAlignment::Vertical, &profile, AnsiMode::Rgb, TerminalTheme::Dark)
        .unwrap();
    let want0 = format!("{}X", esc(SrgbColor::new(10, 0, 0)));
    let want1 = format!("{}Y", esc(SrgbColor::new(10, 0, 0)));
    assert_eq!(r.lines[0], want0);
    assert_eq!(r.lines[1], want1);
}

#[test]
fn custom_alignment_replaces_by_slot() {
    let n = raw("${c1}AA${c2}BB").to_normalized().unwrap();
    let align = ColorAlignment::Custom {
        colors: vec![(1, 1), (2, 0)],
    };
    let r = n
        .to_recolored(&align, &red_blue(), AnsiMode::Rgb, TerminalTheme::Dark)
        .unwrap();
    let want = format!("{}AA{}BB", esc(blue()), esc(red()));
    assert_eq!(r.lines[0], want);
}

#[test]
fn custom_alignment_missing_slot_fails() {
    let n = raw("${c1}AA${c2}BB").to_normalized().unwrap();
    let align = ColorAlignment::Custom {
        colors: vec![(1, 0)],
    };
    let r = n.to_recolored(&align, &red_blue(), AnsiMode::Rgb, TerminalTheme::Dark);
    assert_eq!(r.unwrap_err(), EngineError::UnmappedSlot(2));
}

#[test]
fn literal_foregrounds_cycle_the_profile() {
    let mut art = raw("aa\nbb\ncc");
    art.fg = vec![SrgbColor::new(1, 2, 3)];
    let n = art.to_normalized().unwrap();
    let r = n
        .to_recolored(&ColorAlignment::Horizontal, &red_blue(), AnsiMode::Rgb, TerminalTheme::Dark)
        .unwrap();
    assert_eq!(r.lines[0], format!("{}aa", esc(red())));
    assert_eq!(r.lines[1], format!("{}bb", esc(blue())));
    assert_eq!(r.lines[2], format!("{}cc", esc(red())));
}

#[test]
fn unknown_directives_left_untouched() {
    // an unrecognized token is not an error and passes through as text
    let n = raw("${c7}ZZ").to_normalized().unwrap();
    assert_eq!(n.w, 7);
    let r = n
        .to_recolored(&ColorAlignment::Horizontal, &red_blue(), AnsiMode::Rgb, TerminalTheme::Dark)
        .unwrap();
    assert_eq!(r.lines[0], "${c7}ZZ");
}
