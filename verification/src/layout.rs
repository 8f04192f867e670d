//! Small layout computations for callers that arrange previews on a
//! terminal: how many flags or art copies fit a row, how many rows a page,
//! and the lightness ladder the brightness picker shows.  The prompting
//! around them is I/O and lives with the caller.

use vstd::prelude::*;

use crate::term::TerminalTheme;
use crate::FIXED_ONE;

verus! {

/// The smallest terminal that shows an art of width `w` comfortably:
/// twice the art side by side with a margin, and thirty rows.
pub fn min_term_size(w: u8) -> (r: (u16, u16))
    ensures
        r.0 == 2 * w + 4,
        r.1 == 30,
{
    (2 * (w as u16) + 4, 30)
}

/// How many flag previews of the given width fit one terminal row, with a
/// two-column gap each.
pub fn flags_per_row(term_w: u16, spacing: u8) -> (r: u16)
    ensures
        r == term_w as int / (spacing + 2),
{
    term_w / (spacing as u16 + 2)
}

/// How many preview rows fit one page: the terminal height less the fixed
/// chrome, five terminal rows per preview row, at least one.
pub fn rows_per_page(term_h: u16) -> (r: u16)
    ensures
        r == (if (if term_h >= 13 {
            (term_h - 13) as int
        } else {
            0
        }) / 5 >= 1 {
            (if term_h >= 13 {
                (term_h - 13) as int
            } else {
                0
            }) / 5
        } else {
            1
        }),
{
    let avail: u16 = if term_h >= 13 {
        term_h - 13
    } else {
        0
    };
    let rows = avail / 5;
    if rows >= 1 {
        rows
    } else {
        1
    }
}

/// How many pages a catalog of `count` entries needs at `per_page` entries
/// a page, rounding up.
pub fn num_pages(count: u8, per_page: u16) -> (r: u16)
    requires
        per_page >= 1,
    ensures
        r == (count + per_page - 1) as int / (per_page as int),
{
    proof {
        assert((count + per_page - 1) as int / (per_page as int) <= 255) by (nonlinear_arith)
            requires
                0 <= count <= 255,
                per_page >= 1,
        ;
    }
    ((count as u32 + per_page as u32 - 1) / per_page as u32) as u16
}

/// How many art copies fit one terminal row and how many such rows fit the
/// screen, each at least one.
pub fn art_grid(term_w: u16, term_h: u16, w: u8, h: u8) -> (r: (u16, u16))
    ensures
        r.0 == (if term_w as int / (w + 2) >= 1 {
            term_w as int / (w + 2)
        } else {
            1
        }),
        r.1 == (if (if term_h >= 8 {
            (term_h - 8) as int
        } else {
            0
        }) / (h + 1) >= 1 {
            (if term_h >= 8 {
                (term_h - 8) as int
            } else {
                0
            }) / (h + 1)
        } else {
            1
        }),
{
    let per_row = term_w / (w as u16 + 2);
    let per_row = if per_row >= 1 {
        per_row
    } else {
        1
    };
    let avail: u16 = if term_h >= 8 {
        term_h - 8
    } else {
        0
    };
    let rows = avail / (h as u16 + 1);
    let rows = if rows >= 1 {
        rows
    } else {
        1
    };
    (per_row, rows)
}

/// The low end of the lightness ladder the brightness picker shows.
pub const PREVIEW_MIN: u32 = 9830;

/// The high end of the lightness ladder the brightness picker shows.
pub const PREVIEW_MAX: u32 = 55705;

/// The lightness previewed in column `col` of `num_cols`: the ladder spans
/// the lower half of the preview band under a light theme and the upper
/// half under a dark one.
pub fn preview_lightness(col: u8, num_cols: u8, theme: TerminalTheme) -> (l: u32)
    requires
        col < num_cols,
    ensures
        theme == TerminalTheme::Light ==> l == PREVIEW_MIN + (col * ((PREVIEW_MAX - PREVIEW_MIN)
            as int)) / (2 * num_cols as int),
        theme == TerminalTheme::Dark ==> l == ((col * ((PREVIEW_MAX - PREVIEW_MIN) as int)) / (
        num_cols as int) + PREVIEW_MIN + PREVIEW_MAX) / 2,
        l <= FIXED_ONE,
{
    let span: u32 = PREVIEW_MAX - PREVIEW_MIN;
    proof {
        assert(col * span <= 255 * 45875) by (nonlinear_arith)
            requires
                0 <= col <= 255,
                span == 45875,
        ;
        assert((col * (span as int)) / (2 * num_cols as int) <= span) by (nonlinear_arith)
            requires
                0 <= col < num_cols,
                span > 0,
        ;
        assert((col * (span as int)) / (num_cols as int) <= span) by (nonlinear_arith)
            requires
                0 <= col < num_cols,
                span > 0,
        ;
    }
    match theme {
        TerminalTheme::Light => PREVIEW_MIN + (col as u32 * span) / (2 * num_cols as u32),
        TerminalTheme::Dark => ((col as u32 * span) / (num_cols as u32) + PREVIEW_MIN + PREVIEW_MAX)
            / 2,
    }
}

} // verus!
