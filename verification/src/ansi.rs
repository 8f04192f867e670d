//! Rendering colors as ANSI escape sequences, at either of the two
//! supported depths.  Full-color mode emits the 24-bit escape directly; the
//! 256-color mode first quantizes to the nearest color of the fixed
//! extended palette, ties broken by the first match in palette order.

use vstd::prelude::*;

use crate::term::{AnsiMode, ForegroundBackground};
use crate::text::chars_to_string;
use crate::SrgbColor;

verus! {

/// The character for one decimal digit.
pub open spec fn digit_char(d: int) -> char {
    if d == 0 {
        '0'
    } else if d == 1 {
        '1'
    } else if d == 2 {
        '2'
    } else if d == 3 {
        '3'
    } else if d == 4 {
        '4'
    } else if d == 5 {
        '5'
    } else if d == 6 {
        '6'
    } else if d == 7 {
        '7'
    } else if d == 8 {
        '8'
    } else {
        '9'
    }
}

/// The decimal digits of `v`, most significant first, without leading
/// zeros.
pub open spec fn dec_chars(v: int) -> Seq<char>
    decreases v,
{
    if v < 10 {
        seq![digit_char(v)]
    } else {
        dec_chars(v / 10).push(digit_char(v % 10))
    }
}

/// The character for one decimal digit.
fn digit_char_of(d: u8) -> (c: char)
    requires
        d < 10,
    ensures
        c == digit_char(d as int),
{
    if d == 0 {
        '0'
    } else if d == 1 {
        '1'
    } else if d == 2 {
        '2'
    } else if d == 3 {
        '3'
    } else if d == 4 {
        '4'
    } else if d == 5 {
        '5'
    } else if d == 6 {
        '6'
    } else if d == 7 {
        '7'
    } else if d == 8 {
        '8'
    } else {
        '9'
    }
}

/// Appends the decimal digits of `v` to `out`.
fn push_decimal(out: &mut Vec<char>, v: u8)
    ensures
        final(out)@ == old(out)@ + dec_chars(v as int),
{
    let ghost prefix = out@;
    if v >= 100 {
        out.push(digit_char_of(v / 100));
        out.push(digit_char_of((v / 10) % 10));
        out.push(digit_char_of(v % 10));
        proof {
            assert(dec_chars((v as int) / 10 / 10) == seq![digit_char(v as int / 100)]);
            assert(dec_chars(v as int / 10) == dec_chars(v as int / 100).push(
                digit_char((v as int / 10) % 10),
            ));
            assert(out@ =~= prefix + dec_chars(v as int));
        }
    } else if v >= 10 {
        out.push(digit_char_of(v / 10));
        out.push(digit_char_of(v % 10));
        proof {
            assert(dec_chars(v as int / 10) == seq![digit_char(v as int / 10)]);
            assert(out@ =~= prefix + dec_chars(v as int));
        }
    } else {
        out.push(digit_char_of(v));
        proof {
            assert(out@ =~= prefix + dec_chars(v as int));
        }
    }
}

/// One channel of the 6-level color cube: level zero is black, the rest
/// step by forty from fifty-five.
pub open spec fn cube_channel(v: int) -> int {
    if v == 0 {
        0
    } else {
        40 * v + 55
    }
}

/// The color of the fixed extended palette at index `i`, for indices from
/// sixteen up: first the 216 colors of the 6x6x6 cube, then the 24 grays.
pub open spec fn palette_color(i: int) -> SrgbColor {
    if i < 232 {
        let j = i - 16;
        SrgbColor {
            r: cube_channel(j / 36) as u8,
            g: cube_channel((j / 6) % 6) as u8,
            b: cube_channel(j % 6) as u8,
        }
    } else {
        let v = (8 + 10 * (i - 232)) as u8;
        SrgbColor { r: v, g: v, b: v }
    }
}

/// The squared distance between two colors in byte space.
pub open spec fn dist2(a: SrgbColor, b: SrgbColor) -> int {
    (a.r - b.r) * (a.r - b.r) + (a.g - b.g) * (a.g - b.g) + (a.b - b.b) * (a.b - b.b)
}

/// The first palette index among `[16, upto)` whose color sits nearest to
/// `c`: a later index is preferred only when strictly closer.
pub open spec fn best_index(c: SrgbColor, upto: int) -> int
    decreases upto,
{
    if upto <= 17 {
        16
    } else {
        let prev = best_index(c, upto - 1);
        if dist2(c, palette_color(upto - 1)) < dist2(c, palette_color(prev)) {
            upto - 1
        } else {
            prev
        }
    }
}

/// The palette color at index `i`.
fn palette_color_of(i: u8) -> (c: SrgbColor)
    requires
        i >= 16,
    ensures
        c == palette_color(i as int),
{
    if i < 232 {
        let j: u8 = i - 16;
        let r6: u8 = j / 36;
        let g6: u8 = (j / 6) % 6;
        let b6: u8 = j % 6;
        let r: u8 = if r6 == 0 {
            0
        } else {
            40 * r6 + 55
        };
        let g: u8 = if g6 == 0 {
            0
        } else {
            40 * g6 + 55
        };
        let b: u8 = if b6 == 0 {
            0
        } else {
            40 * b6 + 55
        };
        SrgbColor { r, g, b }
    } else {
        let v: u8 = 8 + 10 * (i - 232);
        SrgbColor { r: v, g: v, b: v }
    }
}

/// The squared distance between two colors in byte space.
fn dist2_of(a: &SrgbColor, b: &SrgbColor) -> (d: u32)
    ensures
        d == dist2(*a, *b),
{
    let dr: i32 = a.r as i32 - b.r as i32;
    let dg: i32 = a.g as i32 - b.g as i32;
    let db: i32 = a.b as i32 - b.b as i32;
    proof {
        assert(0 <= dr * dr <= 65025 && 0 <= dg * dg <= 65025 && 0 <= db * db <= 65025)
            by (nonlinear_arith)
            requires
                -255 <= dr <= 255,
                -255 <= dg <= 255,
                -255 <= db <= 255,
        ;
    }
    (dr * dr + dg * dg + db * db) as u32
}

/// The index of the extended-palette color nearest to `c`, scanning the
/// cube and grays in palette order and keeping the first of equally near
/// colors.
pub fn nearest_ansi256(c: &SrgbColor) -> (idx: u8)
    ensures
        idx == best_index(*c, 256),
        16 <= idx < 256,
        forall|j: int| 16 <= j < 256 ==> dist2(*c, palette_color(idx as int)) <= dist2(
            *c,
            #[trigger] palette_color(j),
        ),
{
    let mut best: u8 = 16;
    let mut best_d: u32 = dist2_of(c, &palette_color_of(16));
    let mut i: u16 = 17;
    while i < 256
        invariant
            17 <= i <= 256,
            16 <= best < i,
            best == best_index(*c, i as int),
            best_d == dist2(*c, palette_color(best as int)),
            forall|j: int| 16 <= j < i ==> dist2(*c, palette_color(best as int)) <= dist2(
                *c,
                #[trigger] palette_color(j),
            ),
        decreases 256 - i,
    {
        let d = dist2_of(c, &palette_color_of(i as u8));
        if d < best_d {
            best = i as u8;
            best_d = d;
        }
        i += 1;
    }
    best
}

/// The opening of an escape sequence for the given role.
pub open spec fn intro_chars(fb: ForegroundBackground) -> Seq<char> {
    match fb {
        ForegroundBackground::Foreground => seq!['\u{1b}', '[', '3', '8', ';'],
        ForegroundBackground::Background => seq!['\u{1b}', '[', '4', '8', ';'],
    }
}

/// The full ANSI escape sequence that paints the given role with `c` at the
/// requested depth: `ESC [ 38;2;R;G;B m` style for full color,
/// `ESC [ 38;5;N m` with the nearest palette index for the 256-color mode
/// (`48` in place of `38` for the background).
pub open spec fn escape_spec(c: SrgbColor, mode: AnsiMode, fb: ForegroundBackground) -> Seq<char> {
    match mode {
        AnsiMode::Rgb => intro_chars(fb) + seq!['2', ';'] + dec_chars(c.r as int) + seq![';']
            + dec_chars(c.g as int) + seq![';'] + dec_chars(c.b as int) + seq!['m'],
        AnsiMode::Ansi256 => intro_chars(fb) + seq!['5', ';'] + dec_chars(best_index(c, 256))
            + seq!['m'],
    }
}

/// Appends the escape sequence for `c` to `out`.
pub fn push_escape(out: &mut Vec<char>, c: &SrgbColor, mode: AnsiMode, fb: ForegroundBackground)
    ensures
        final(out)@ == old(out)@ + escape_spec(*c, mode, fb),
{
    let ghost prefix = out@;
    out.push('\u{1b}');
    out.push('[');
    match fb {
        ForegroundBackground::Foreground => out.push('3'),
        ForegroundBackground::Background => out.push('4'),
    }
    out.push('8');
    out.push(';');
    proof {
        assert(out@ =~= prefix + intro_chars(fb));
    }
    match mode {
        AnsiMode::Rgb => {
            let ghost mid0 = out@;
            out.push('2');
            out.push(';');
            push_decimal(out, c.r);
            out.push(';');
            push_decimal(out, c.g);
            out.push(';');
            push_decimal(out, c.b);
            out.push('m');
            proof {
                assert(out@ =~= prefix + escape_spec(*c, mode, fb));
            }
        },
        AnsiMode::Ansi256 => {
            out.push('5');
            out.push(';');
            let idx = nearest_ansi256(c);
            push_decimal(out, idx);
            out.push('m');
            proof {
                assert(out@ =~= prefix + escape_spec(*c, mode, fb));
            }
        },
    }
}

/// Renders `c` as the terminal escape sequence for the requested depth and
/// role, ready to write to a terminal stream.
pub fn to_display_string(c: &SrgbColor, mode: AnsiMode, fb: ForegroundBackground) -> (s: String)
    ensures
        s@ == escape_spec(*c, mode, fb),
{
    let mut out: Vec<char> = Vec::new();
    push_escape(&mut out, c, mode, fb);
    chars_to_string(&out)
}

} // verus!
