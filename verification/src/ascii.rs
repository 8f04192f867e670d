//! The ASCII-art model: raw text with embedded color-placeholder tokens is
//! normalized into a uniform rectangular grid, its placeholder slots are
//! discovered by a single linear scan, and the recoloring engine repaints
//! it under one of the three alignment strategies.

use vstd::prelude::*;

use crate::ansi::escape_spec;
use crate::gradient::{all_wf, resample_spec, resample_gradient, sample_spec};
use crate::profile::{dedup_spec, ColorProfile};
use crate::term::{AnsiMode, ForegroundBackground, TerminalTheme};
use crate::text::{chars_to_string, str_chars};
use crate::{EngineError, FormatErrorKind, LinearColor, SrgbColor};

verus! {

/// The largest visible width and line count the engine accepts: both must
/// fit a byte, which guards against degenerate input.
pub const MAX_ART_DIM: usize = 255;

/// Whether `c` names one of the six placeholder slots.
pub open spec fn slot_digit(c: char) -> bool {
    c == '1' || c == '2' || c == '3' || c == '4' || c == '5' || c == '6'
}

/// The slot a digit character names.
pub open spec fn slot_value(c: char) -> u8 {
    if c == '1' {
        1
    } else if c == '2' {
        2
    } else if c == '3' {
        3
    } else if c == '4' {
        4
    } else if c == '5' {
        5
    } else {
        6
    }
}

/// The placeholder token starting at position `i` of `s`, if any: the five
/// characters `${c` digit `}` with the digit naming a slot.
pub open spec fn slot_at(s: Seq<char>, i: int) -> Option<u8> {
    if 0 <= i && i + 5 <= s.len() && s[i] == '$' && s[i + 1] == '{' && s[i + 2] == 'c' && slot_digit(
        s[i + 3],
    ) && s[i + 4] == '}' {
        Some(slot_value(s[i + 3]))
    } else {
        None
    }
}

/// The number of visible characters of `s` from position `i` on:
/// placeholder tokens render as nothing, every other character as itself.
pub open spec fn display_len(s: Seq<char>, i: int) -> int
    decreases s.len() - i,
{
    if i >= s.len() {
        0
    } else if slot_at(s, i) is Some {
        display_len(s, i + 5)
    } else {
        1 + display_len(s, i + 1)
    }
}

/// The slots of the placeholder tokens of `s` from position `i` on, in
/// order of occurrence, repeats kept.
pub open spec fn slots_found(s: Seq<char>, i: int) -> Seq<u8>
    decreases s.len() - i,
{
    if i >= s.len() {
        Seq::empty()
    } else {
        match slot_at(s, i) {
            Option::Some(k) => seq![k] + slots_found(s, i + 5),
            Option::None => slots_found(s, i + 1),
        }
    }
}

/// The slots of all the placeholder tokens of the lines, scanned line by
/// line in order.
pub open spec fn art_slots(ls: Seq<Seq<char>>) -> Seq<u8>
    decreases ls.len(),
{
    if ls.len() == 0 {
        Seq::empty()
    } else {
        art_slots(ls.drop_last()) + slots_found(ls.last(), 0)
    }
}

/// `s` without one trailing carriage return.
pub open spec fn strip_cr(s: Seq<char>) -> Seq<char> {
    if s.len() > 0 && s.last() == '\r' {
        s.drop_last()
    } else {
        s
    }
}

/// The index of the first newline in `s`, or the length if there is none.
pub open spec fn first_nl(s: Seq<char>) -> nat
    decreases s.len(),
{
    if s.len() == 0 {
        0
    } else if s[0] == '\n' {
        0
    } else {
        1 + first_nl(s.drop_first())
    }
}

/// The first newline sits within the string, on a newline, with none
/// before it.
pub proof fn lemma_first_nl_frame(s: Seq<char>)
    ensures
        0 <= first_nl(s) <= s.len(),
        first_nl(s) < s.len() ==> s[first_nl(s) as int] == '\n',
        forall|k: int| 0 <= k < first_nl(s) ==> #[trigger] s[k] != '\n',
    decreases s.len(),
{
    if s.len() > 0 && s[0] != '\n' {
        lemma_first_nl_frame(s.drop_first());
        assert(forall|k: int| 1 <= k < first_nl(s) ==> s.drop_first()[k - 1] == #[trigger] s[k]);
    }
}

/// The lines of `s`: the segments between newlines, each without a
/// trailing carriage return, and no final empty line when the text ends
/// with a newline.
pub open spec fn lines_of(s: Seq<char>) -> Seq<Seq<char>>
    decreases s.len(),
{
    if s.len() == 0 {
        Seq::empty()
    } else {
        let j = first_nl(s);
        if j >= s.len() {
            seq![strip_cr(s)]
        } else {
            seq![strip_cr(s.take(j as int))] + lines_of(s.skip(j as int + 1))
        }
    }
}

/// `n` spaces.
pub open spec fn space_pad(n: int) -> Seq<char> {
    Seq::new(n as nat, |i: int| ' ')
}

/// `l` padded on the right with spaces to visible width `w`.
pub open spec fn pad_line(l: Seq<char>, w: int) -> Seq<char> {
    l + space_pad(w - display_len(l, 0))
}

/// The largest visible width of any line.
pub open spec fn max_display_len(ls: Seq<Seq<char>>) -> int
    decreases ls.len(),
{
    if ls.len() == 0 {
        0
    } else {
        let rest = max_display_len(ls.drop_last());
        let dl = display_len(ls.last(), 0);
        if dl > rest {
            dl
        } else {
            rest
        }
    }
}

/// The index of the first line whose visible width exceeds `limit`, or the
/// line count if none does.
pub open spec fn first_over_limit(ls: Seq<Seq<char>>, limit: int) -> int
    decreases ls.len(),
{
    if ls.len() == 0 {
        0
    } else if display_len(ls[0], 0) > limit {
        0
    } else {
        1 + first_over_limit(ls.drop_first(), limit)
    }
}

/// Why normalizing this text fails, if it does: no lines or no visible
/// characters at all, too many lines, or a line over the width ceiling.
pub open spec fn normalize_error(s: Seq<char>) -> Option<EngineError> {
    let ls = lines_of(s);
    if ls.len() == 0 {
        Some(EngineError::FormatError(FormatErrorKind::Empty))
    } else if ls.len() > MAX_ART_DIM {
        Some(EngineError::FormatError(FormatErrorKind::TooManyLines(ls.len() as usize)))
    } else if first_over_limit(ls, MAX_ART_DIM as int) < ls.len() {
        Some(
            EngineError::FormatError(
                FormatErrorKind::LineTooLong(
                    display_len(ls[first_over_limit(ls, MAX_ART_DIM as int)], 0) as usize,
                ),
            ),
        )
    } else if max_display_len(ls) == 0 {
        Some(EngineError::FormatError(FormatErrorKind::Empty))
    } else {
        None
    }
}

/// Raw, just-loaded ASCII art: a text blob that may carry embedded
/// color-placeholder tokens, plus an ordered list of literal per-line
/// foreground colors for art that comes without tokens.
#[derive(Clone, PartialEq, Eq, Debug)]
pub struct RawAsciiArt {
    pub asc: String,
    pub fg: Vec<SrgbColor>,
}

/// Art in canonical form: every line padded to the same visible width `w`,
/// `h` lines in all.  All recoloring starts from this form.
#[derive(Clone, PartialEq, Eq, Debug)]
pub struct NormalizedAsciiArt {
    pub lines: Vec<Vec<char>>,
    pub w: u8,
    pub h: u8,
    pub fg: Vec<SrgbColor>,
}

/// Recolored art, ready to print: the lines carry concrete escape
/// sequences in place of the placeholder tokens.
#[derive(Clone, PartialEq, Eq, Debug)]
pub struct RecoloredAsciiArt {
    pub lines: Vec<String>,
    pub w: u8,
    pub h: u8,
}

impl NormalizedAsciiArt {
    /// The grid is rectangular and non-degenerate: `h` lines, each of
    /// visible width exactly `w`, both positive.
    pub open spec fn wf(self) -> bool {
        &&& self.lines@.len() == self.h
        &&& self.h > 0
        &&& self.w > 0
        &&& forall|i: int|
            0 <= i < self.lines@.len() ==> display_len(#[trigger] self.lines@[i]@, 0) == self.w
    }
}

/// Reports the placeholder token at position `i`, if any.
fn slot_at_of(v: &Vec<char>, i: usize) -> (r: Option<u8>)
    ensures
        r == slot_at(v@, i as int),
        r is Some ==> i + 5 <= v@.len(),
{
    if v.len() < 5 || i > v.len() - 5 {
        return None;
    }
    if !(v[i] == '$' && v[i + 1] == '{' && v[i + 2] == 'c' && v[i + 4] == '}') {
        return None;
    }
    let d = v[i + 3];
    if d == '1' {
        Some(1)
    } else if d == '2' {
        Some(2)
    } else if d == '3' {
        Some(3)
    } else if d == '4' {
        Some(4)
    } else if d == '5' {
        Some(5)
    } else if d == '6' {
        Some(6)
    } else {
        None
    }
}

/// The visible width of a line.
fn display_len_of(v: &Vec<char>) -> (n: usize)
    ensures
        n == display_len(v@, 0),
{
    let mut count: usize = 0;
    let mut i: usize = 0;
    while i < v.len()
        invariant
            0 <= i,
            count + display_len(v@, i as int) == display_len(v@, 0),
            count <= i,
        decreases v@.len() - i,
    {
        match slot_at_of(v, i) {
            Some(_) => {
                i += 5;
            },
            None => {
                count += 1;
                i += 1;
            },
        }
    }
    count
}

/// The slots of all placeholder tokens of a line, in order, appended to
/// `out`.
fn push_slots(out: &mut Vec<u8>, v: &Vec<char>)
    ensures
        final(out)@ == old(out)@ + slots_found(v@, 0),
{
    let ghost prefix = out@;
    let mut i: usize = 0;
    while i < v.len()
        invariant
            0 <= i,
            prefix + slots_found(v@, 0) == out@ + slots_found(v@, i as int),
        decreases v@.len() - i,
    {
        match slot_at_of(v, i) {
            Some(k) => {
                out.push(k);
                proof {
                    assert(out@ + slots_found(v@, i + 5) =~= out@.drop_last() + (seq![k]
                        + slots_found(v@, i + 5)));
                }
                i += 5;
            },
            None => {
                i += 1;
            },
        }
    }
    proof {
        assert(prefix + slots_found(v@, 0) =~= out@);
    }
}

/// Appending a space to a line adds one visible character.
pub proof fn lemma_display_len_push_space(s: Seq<char>, i: int)
    requires
        0 <= i <= s.len(),
    ensures
        display_len(s.push(' '), i) == display_len(s, i) + 1,
    decreases s.len() - i,
{
    let t = s.push(' ');
    if i == s.len() {
        assert(slot_at(t, i) is None);
        assert(display_len(t, i) == 1 + display_len(t, i + 1));
    } else {
        assert(slot_at(t, i) == slot_at(s, i)) by {
            if i + 5 <= s.len() {
                assert(forall|k: int| i <= k < i + 5 ==> t[k] == s[k]);
            } else if i + 5 == s.len() + 1 {
                assert(t[i + 4] == ' ');
            }
        }
        if slot_at(s, i) is Some {
            lemma_display_len_push_space(s, i + 5);
        } else {
            lemma_display_len_push_space(s, i + 1);
        }
    }
}

/// Splits text into lines: segments between newlines, each without a
/// trailing carriage return.
fn split_lines(v: &Vec<char>) -> (ls: Vec<Vec<char>>)
    ensures
        ls@.len() == lines_of(v@).len(),
        forall|i: int| 0 <= i < ls@.len() ==> #[trigger] ls@[i]@ == lines_of(v@)[i],
{
    let n: usize = v.len();
    let mut ls: Vec<Vec<char>> = Vec::new();
    let mut start: usize = 0;
    proof {
        assert(v@.skip(0) =~= v@);
        assert(ls@.map_values(|l: Vec<char>| l@) =~= Seq::<Seq<char>>::empty());
    }
    while start < n
        invariant
            start <= n == v@.len(),
            lines_of(v@) == ls@.map_values(|l: Vec<char>| l@) + lines_of(v@.skip(start as int)),
        decreases n - start,
    {
        let ghost rest = v@.skip(start as int);
        // find the next newline
        let mut e: usize = start;
        while e < n && v[e] != '\n'
            invariant
                start <= e <= n == v@.len(),
                forall|k: int| start <= k < e ==> #[trigger] v@[k] != '\n',
            decreases n - e,
        {
            e += 1;
        }
        proof {
            lemma_first_nl_frame(rest);
            assert(forall|k: int| 0 <= k < rest.len() ==> rest[k] == #[trigger] v@[start + k]);
            if first_nl(rest) < e - start {
                assert(rest[first_nl(rest) as int] == '\n');
                assert(false);
            }
            if first_nl(rest) > e - start {
                if e < n {
                    assert(rest[e - start] == '\n');
                    assert(false);
                } else {
                    assert(first_nl(rest) <= rest.len());
                    assert(false);
                }
            }
            assert(first_nl(rest) == e - start);
        }
        // copy the segment
        let mut seg: Vec<char> = Vec::new();
        let mut t: usize = start;
        while t < e
            invariant
                start <= t <= e <= v@.len(),
                seg@ == v@.subrange(start as int, t as int),
            decreases e - t,
        {
            seg.push(v[t]);
            proof {
                assert(seg@ =~= v@.subrange(start as int, t + 1));
            }
            t += 1;
        }
        // strip one trailing carriage return
        if seg.len() > 0 && seg[seg.len() - 1] == '\r' {
            seg.pop();
        }
        proof {
            assert(seg@ =~= strip_cr(v@.subrange(start as int, e as int)));
        }
        let ghost old_ls = ls@;
        ls.push(seg);
        proof {
            let j = first_nl(rest) as int;
            assert(rest.take(j) =~= v@.subrange(start as int, e as int));
            assert(ls@.map_values(|l: Vec<char>| l@) =~= old_ls.map_values(|l: Vec<char>| l@)
                + seq![seg@]);
            if e < n {
                assert(rest.skip(j + 1) =~= v@.skip(e + 1));
                assert(lines_of(rest) == seq![strip_cr(rest.take(j))] + lines_of(v@.skip(e + 1)));
                assert(lines_of(v@) =~= ls@.map_values(|l: Vec<char>| l@) + lines_of(
                    v@.skip(e + 1),
                ));
            } else {
                assert(rest =~= rest.take(j));
                assert(lines_of(rest) == seq![strip_cr(rest.take(j))]);
                assert(lines_of(v@.skip(n as int)) =~= Seq::<Seq<char>>::empty());
                assert(lines_of(v@) =~= ls@.map_values(|l: Vec<char>| l@) + lines_of(
                    v@.skip(n as int),
                ));
            }
        }
        if e < n {
            start = e + 1;
        } else {
            start = n;
        }
    }
    proof {
        assert(lines_of(v@.skip(start as int)) =~= Seq::<Seq<char>>::empty());
        assert(lines_of(v@) =~= ls@.map_values(|l: Vec<char>| l@));
        assert(forall|i: int|
            0 <= i < ls@.len() ==> #[trigger] ls@[i]@ == ls@.map_values(|l: Vec<char>| l@)[i]);
    }
    ls
}

impl RawAsciiArt {
    /// Normalizes the raw art: splits it into lines, measures the visible
    /// width of each (placeholder tokens render as nothing), and pads every
    /// line on the right with spaces to the width of the widest.  Art with
    /// no lines, no visible characters, or a dimension over the ceiling is
    /// rejected with the matching `FormatError`.
    pub fn to_normalized(&self) -> (res: Result<NormalizedAsciiArt, EngineError>)
        ensures
            match res {
                Ok(n) => {
                    &&& normalize_error(self.asc@) is None
                    &&& n.wf()
                    &&& n.h == lines_of(self.asc@).len()
                    &&& n.w == max_display_len(lines_of(self.asc@))
                    &&& n.fg@ == self.fg@
                    &&& forall|i: int|
                        0 <= i < n.lines@.len() ==> #[trigger] n.lines@[i]@ == pad_line(
                            lines_of(self.asc@)[i],
                            n.w as int,
                        )
                },
                Err(e) => normalize_error(self.asc@) == Some(e),
            },
    {
        let chars = str_chars(self.asc.as_str());
        let ls = split_lines(&chars);
        let ghost lspec = lines_of(self.asc@);
        let h: usize = ls.len();
        if h == 0 {
            return Err(EngineError::FormatError(FormatErrorKind::Empty));
        }
        if h > MAX_ART_DIM {
            return Err(EngineError::FormatError(FormatErrorKind::TooManyLines(h)));
        }
        // measure the lines
        let mut w: usize = 0;
        let mut i: usize = 0;
        while i < h
            invariant
                i <= h == ls@.len(),
                lspec.len() == h,
                lspec == lines_of(self.asc@),
                1 <= h <= MAX_ART_DIM,
                forall|k: int| 0 <= k < h ==> #[trigger] ls@[k]@ == lspec[k],
                w == max_display_len(lspec.take(i as int)),
                w <= MAX_ART_DIM,
                forall|k: int|
                    0 <= k < i ==> display_len(#[trigger] lspec[k], 0) <= MAX_ART_DIM,
            decreases h - i,
        {
            let dl = display_len_of(&ls[i]);
            proof {
                assert(lspec.take(i + 1).drop_last() =~= lspec.take(i as int));
                assert(lspec.take(i + 1).last() == lspec[i as int]);
            }
            if dl > MAX_ART_DIM {
                proof {
                    lemma_first_over_char(lspec, MAX_ART_DIM as int);
                    let f = first_over_limit(lspec, MAX_ART_DIM as int);
                    if f < i {
                        assert(display_len(lspec[f], 0) <= MAX_ART_DIM);
                        assert(false);
                    }
                    if f > i {
                        assert(display_len(lspec[i as int], 0) <= MAX_ART_DIM);
                        assert(false);
                    }
                }
                return Err(EngineError::FormatError(FormatErrorKind::LineTooLong(dl)));
            }
            if dl > w {
                w = dl;
            }
            i += 1;
        }
        proof {
            assert(lspec.take(h as int) =~= lspec);
            lemma_first_over_char(lspec, MAX_ART_DIM as int);
            let f = first_over_limit(lspec, MAX_ART_DIM as int);
            if f < h {
                assert(display_len(lspec[f], 0) <= MAX_ART_DIM);
                assert(false);
            }
        }
        if w == 0 {
            return Err(EngineError::FormatError(FormatErrorKind::Empty));
        }
        // pad the lines
        let mut out: Vec<Vec<char>> = Vec::new();
        let mut i: usize = 0;
        while i < h
            invariant
                i <= h == ls@.len(),
                lspec.len() == h,
                forall|k: int| 0 <= k < h ==> #[trigger] ls@[k]@ == lspec[k],
                out@.len() == i,
                1 <= w <= MAX_ART_DIM,
                max_display_len(lspec) == w,
                forall|k: int|
                    0 <= k < i ==> #[trigger] out@[k]@ == pad_line(lspec[k], w as int)
                        && display_len(out@[k]@, 0) == w,
            decreases h - i,
        {
            let mut line: Vec<char> = Vec::new();
            let src = &ls[i];
            let mut t: usize = 0;
            while t < src.len()
                invariant
                    t <= src@.len(),
                    line@ == src@.take(t as int),
                decreases src@.len() - t,
            {
                line.push(src[t]);
                proof {
                    assert(line@ =~= src@.take(t + 1));
                }
                t += 1;
            }
            proof {
                assert(line@ =~= src@);
            }
            let mut dl = display_len_of(&line);
            proof {
                lemma_max_display_len_bound(lspec, i as int);
            }
            while dl < w
                invariant
                    dl == display_len(line@, 0),
                    dl <= w,
                    w <= MAX_ART_DIM,
                    line@ == lspec[i as int] + space_pad(dl - display_len(lspec[i as int], 0)),
                    display_len(lspec[i as int], 0) <= dl,
                    0 <= i < lspec.len(),
                decreases w - dl,
            {
                proof {
                    lemma_display_len_push_space(line@, 0);
                    assert(line@.push(' ') =~= lspec[i as int] + space_pad(
                        dl + 1 - display_len(lspec[i as int], 0),
                    ));
                }
                line.push(' ');
                dl += 1;
            }
            proof {
                assert(line@ == pad_line(lspec[i as int], w as int));
            }
            out.push(line);
            i += 1;
        }
        // copy the literal foreground colors
        let mut fg: Vec<SrgbColor> = Vec::new();
        let mut t: usize = 0;
        while t < self.fg.len()
            invariant
                t <= self.fg@.len(),
                fg@ == self.fg@.take(t as int),
            decreases self.fg@.len() - t,
        {
            fg.push(self.fg[t]);
            proof {
                assert(fg@ =~= self.fg@.take(t + 1));
            }
            t += 1;
        }
        proof {
            assert(fg@ =~= self.fg@);
        }
        Ok(NormalizedAsciiArt { lines: out, w: w as u8, h: h as u8, fg })
    }
}

/// The first overrun is over the limit, and everything before it is not.
proof fn lemma_first_over_char(ls: Seq<Seq<char>>, limit: int)
    ensures
        0 <= first_over_limit(ls, limit) <= ls.len(),
        first_over_limit(ls, limit) < ls.len() ==> display_len(
            ls[first_over_limit(ls, limit)],
            0,
        ) > limit,
        forall|k: int| 0 <= k < first_over_limit(ls, limit) ==> display_len(#[trigger] ls[k], 0)
            <= limit,
    decreases ls.len(),
{
    if ls.len() > 0 && display_len(ls[0], 0) <= limit {
        lemma_first_over_char(ls.drop_first(), limit);
        assert(forall|k: int|
            1 <= k < first_over_limit(ls, limit) ==> ls.drop_first()[k - 1] == #[trigger] ls[k]);
    }
}

/// Every line's visible width is at most the maximum.
proof fn lemma_max_display_len_bound(ls: Seq<Seq<char>>, i: int)
    requires
        0 <= i < ls.len(),
    ensures
        display_len(ls[i], 0) <= max_display_len(ls),
    decreases ls.len(),
{
    if i < ls.len() - 1 {
        lemma_max_display_len_bound(ls.drop_last(), i);
    }
}

/// How profile colors are laid over the art.
#[derive(Clone, PartialEq, Eq, Debug)]
pub enum ColorAlignment {
    /// Each row gets one gradient color, applied to every placeholder on
    /// the row.
    Horizontal,
    /// Each text column gets one gradient color, so placeholders at
    /// different columns of one row may differ.
    Vertical,
    /// An explicit mapping from placeholder slot to an index into the
    /// profile's unique colors.
    Custom { colors: Vec<(u8, u8)> },
}

/// The first mapping entry for slot `k` at or after position `i`, if any.
pub open spec fn lookup_from(m: Seq<(u8, u8)>, i: int, k: u8) -> Option<u8>
    decreases m.len() - i,
{
    if i >= m.len() {
        None
    } else if m[i].0 == k {
        Some(m[i].1)
    } else {
        lookup_from(m, i + 1, k)
    }
}

/// The profile index a custom mapping assigns to slot `k`, if any.
pub open spec fn lookup_slot(m: Seq<(u8, u8)>, k: u8) -> Option<u8> {
    lookup_from(m, 0, k)
}

/// The first slot at or after position `i` of `slots` that the mapping
/// leaves unassigned, if any.
pub open spec fn first_unmapped_from(slots: Seq<u8>, m: Seq<(u8, u8)>, i: int) -> Option<u8>
    decreases slots.len() - i,
{
    if i >= slots.len() {
        None
    } else if lookup_slot(m, slots[i]) is None {
        Some(slots[i])
    } else {
        first_unmapped_from(slots, m, i + 1)
    }
}

/// Whatever a mapping assigns stays below `bound` when all its entries do.
pub proof fn lemma_lookup_bound(m: Seq<(u8, u8)>, i: int, k: u8, bound: int)
    requires
        forall|t: int| 0 <= t < m.len() ==> (#[trigger] m[t]).1 < bound,
        0 <= i,
    ensures
        lookup_from(m, i, k) matches Some(pi) ==> pi < bound,
    decreases m.len() - i,
{
    if i < m.len() && m[i].0 != k {
        lemma_lookup_bound(m, i + 1, k, bound);
    }
}

/// `s` from position `i` on with every placeholder token replaced by the
/// escape for its slot, from a table indexed by slot.
pub open spec fn recolor_line_spec(s: Seq<char>, i: int, escs: Seq<Seq<char>>) -> Seq<char>
    decreases s.len() - i,
{
    if i >= s.len() {
        Seq::empty()
    } else {
        match slot_at(s, i) {
            Option::Some(k) => escs[k - 1] + recolor_line_spec(s, i + 5, escs),
            Option::None => seq![s[i]] + recolor_line_spec(s, i + 1, escs),
        }
    }
}

/// The escape for text column `col`, the last column's escape standing in
/// for a token that sits at the very end of its line.
pub open spec fn column_escape(escs: Seq<Seq<char>>, col: int) -> Seq<char> {
    if 0 <= col < escs.len() {
        escs[col]
    } else if escs.len() > 0 {
        escs[escs.len() - 1]
    } else {
        Seq::empty()
    }
}

/// `s` from position `i` on, sitting at text column `col`, with every
/// placeholder token replaced by the escape of the column it occupies.
pub open spec fn recolor_vertical_spec(s: Seq<char>, i: int, col: int, escs: Seq<Seq<char>>) -> Seq<
    char,
>
    decreases s.len() - i,
{
    if i >= s.len() {
        Seq::empty()
    } else {
        match slot_at(s, i) {
            Option::Some(_) => column_escape(escs, col) + recolor_vertical_spec(s, i + 5, col, escs),
            Option::None => seq![s[i]] + recolor_vertical_spec(s, i + 1, col + 1, escs),
        }
    }
}

/// The byte colors as linear-light colors.
pub open spec fn linear_of_colors(cs: Seq<SrgbColor>) -> Seq<LinearColor> {
    cs.map_values(|c: SrgbColor| c.spec_to_linear())
}

/// A non-empty sequence deduplicates to a non-empty sequence.
pub proof fn lemma_dedup_nonempty<T>(s: Seq<T>)
    requires
        s.len() > 0,
    ensures
        dedup_spec(s).len() > 0,
{
    let rest = dedup_spec(s.drop_last());
    if rest.contains(s.last()) {
        let i = choose|i: int| 0 <= i < rest.len() && rest[i] == s.last();
    }
}

/// A horizontal alignment over a single row colors it from the profile's
/// first unique color, whatever the profile's size: the single sample of
/// the gradient is its start.  Together with the exactness of the
/// linear-light round trip, the row color is exactly that first color.
pub proof fn lemma_horizontal_single_row(
    art: NormalizedAsciiArt,
    profile: ColorProfile,
    mode: AnsiMode,
)
    requires
        profile.wf(),
        art.h == 1,
    ensures
        art.horizontal_table(profile, mode, 0) == const_table(
            escape_spec(
                dedup_spec(profile.colors@)[0].spec_to_linear().to_spec_srgb(),
                mode,
                ForegroundBackground::Foreground,
            ),
        ),
{
    lemma_dedup_nonempty(profile.colors@);
    let cs = linear_of_colors(dedup_spec(profile.colors@));
    assert(resample_spec(cs, 1)[0] == cs[0]);
    assert(cs[0] == dedup_spec(profile.colors@)[0].spec_to_linear());
}

/// A vertical alignment colors the leftmost column from the profile's
/// first unique color and, when the art is at least two columns wide, the
/// rightmost from its last: the gradient is exact at its endpoints.
pub proof fn lemma_vertical_endpoints(
    art: NormalizedAsciiArt,
    profile: ColorProfile,
    mode: AnsiMode,
)
    requires
        art.wf(),
        profile.wf(),
    ensures
        art.vertical_table(profile, mode)[0] == escape_spec(
            dedup_spec(profile.colors@)[0].spec_to_linear().to_spec_srgb(),
            mode,
            ForegroundBackground::Foreground,
        ),
        art.w >= 2 ==> art.vertical_table(profile, mode)[art.w - 1] == escape_spec(
            dedup_spec(profile.colors@).last().spec_to_linear().to_spec_srgb(),
            mode,
            ForegroundBackground::Foreground,
        ),
{
    lemma_dedup_nonempty(profile.colors@);
    let ded = dedup_spec(profile.colors@);
    let cs = linear_of_colors(ded);
    let w = art.w as int;
    if w == 1 {
        assert(resample_spec(cs, 1)[0] == cs[0]);
    } else {
        crate::gradient::lemma_sample_start(cs, w - 1);
        assert(resample_spec(cs, w)[0] == sample_spec(cs, 0, w - 1));
        crate::gradient::lemma_sample_end(cs, w - 1);
        assert(resample_spec(cs, w)[w - 1] == sample_spec(cs, w - 1, w - 1));
        assert(cs.last() == cs[cs.len() - 1]);
        assert(cs[cs.len() - 1] == ded[ded.len() - 1].spec_to_linear());
    }
    assert(cs[0] == ded[0].spec_to_linear());
}

/// The escape table a custom mapping induces: slot `j + 1` gets the escape
/// of the unique profile color its mapping entry names; a slot the mapping
/// skips gets an empty entry, which recoloring never reads once the
/// mapping has been checked against the discovered slots.
pub open spec fn custom_table_spec(profile: ColorProfile, m: Seq<(u8, u8)>, mode: AnsiMode) -> Seq<
    Seq<char>,
> {
    Seq::new(
        6,
        |j: int|
            match lookup_slot(m, (j + 1) as u8) {
                Option::Some(pi) => escape_spec(
                    dedup_spec(profile.colors@)[pi as int],
                    mode,
                    ForegroundBackground::Foreground,
                ),
                Option::None => Seq::empty(),
            },
    )
}

/// The profile index a custom mapping assigns to slot `k`, if any.
fn lookup_slot_of(m: &Vec<(u8, u8)>, k: u8) -> (r: Option<u8>)
    ensures
        r == lookup_slot(m@, k),
{
    let mut i: usize = 0;
    while i < m.len()
        invariant
            i <= m@.len(),
            lookup_from(m@, 0, k) == lookup_from(m@, i as int, k),
        decreases m@.len() - i,
    {
        if m[i].0 == k {
            return Some(m[i].1);
        }
        i += 1;
    }
    None
}

/// A table giving every slot the same escape.
pub open spec fn const_table(esc: Seq<char>) -> Seq<Seq<char>> {
    Seq::new(6, |j: int| esc)
}

/// Appends a copy of `src` to `out`.
fn push_seq(out: &mut Vec<char>, src: &Vec<char>)
    ensures
        final(out)@ == old(out)@ + src@,
{
    let mut t: usize = 0;
    while t < src.len()
        invariant
            t <= src@.len(),
            out@ == old(out)@ + src@.take(t as int),
        decreases src@.len() - t,
    {
        out.push(src[t]);
        proof {
            assert(old(out)@ + src@.take(t + 1) =~= (old(out)@ + src@.take(t as int)).push(
                src@[t as int],
            ));
        }
        t += 1;
    }
    proof {
        assert(old(out)@ + src@.take(src@.len() as int) =~= old(out)@ + src@);
    }
}

/// A copy of `src`.
fn copy_chars(src: &Vec<char>) -> (out: Vec<char>)
    ensures
        out@ == src@,
{
    let mut out: Vec<char> = Vec::new();
    push_seq(&mut out, src);
    proof {
        assert(Seq::<char>::empty() + src@ =~= src@);
    }
    out
}

/// Replaces every placeholder token of `line` by the escape for its slot.
fn recolor_line(line: &Vec<char>, escs: &Vec<Vec<char>>) -> (out: Vec<char>)
    requires
        escs@.len() == 6,
    ensures
        out@ == recolor_line_spec(line@, 0, escs@.map_values(|e: Vec<char>| e@)),
{
    let ghost table = escs@.map_values(|e: Vec<char>| e@);
    let mut out: Vec<char> = Vec::new();
    let mut i: usize = 0;
    while i < line.len()
        invariant
            0 <= i,
            escs@.len() == 6,
            table == escs@.map_values(|e: Vec<char>| e@),
            recolor_line_spec(line@, 0, table) == out@ + recolor_line_spec(line@, i as int, table),
        decreases line@.len() - i,
    {
        match slot_at_of(line, i) {
            Some(k) => {
                proof {
                    assert(1 <= k <= 6);
                }
                let ghost before = out@;
                push_seq(&mut out, &escs[(k - 1) as usize]);
                proof {
                    assert(out@ == before + table[k - 1]);
                    assert(out@ + recolor_line_spec(line@, i + 5, table) =~= before + (table[k - 1]
                        + recolor_line_spec(line@, i + 5, table)));
                }
                i += 5;
            },
            None => {
                out.push(line[i]);
                proof {
                    assert(out@ + recolor_line_spec(line@, i + 1, table) =~= out@.drop_last() + (
                    seq![line@[i as int]] + recolor_line_spec(line@, i + 1, table)));
                }
                i += 1;
            },
        }
    }
    proof {
        assert(out@ + recolor_line_spec(line@, i as int, table) =~= out@);
    }
    out
}

/// Replaces every placeholder token of `line` by the escape of the text
/// column it occupies.
fn recolor_line_vertical(line: &Vec<char>, escs: &Vec<Vec<char>>) -> (out: Vec<char>)
    requires
        escs@.len() >= 1,
    ensures
        out@ == recolor_vertical_spec(line@, 0, 0, escs@.map_values(|e: Vec<char>| e@)),
{
    let ghost table = escs@.map_values(|e: Vec<char>| e@);
    let mut out: Vec<char> = Vec::new();
    let mut i: usize = 0;
    let mut col: usize = 0;
    while i < line.len()
        invariant
            0 <= i,
            col <= i,
            escs@.len() >= 1,
            table == escs@.map_values(|e: Vec<char>| e@),
            recolor_vertical_spec(line@, 0, 0, table) == out@ + recolor_vertical_spec(
                line@,
                i as int,
                col as int,
                table,
            ),
        decreases line@.len() - i,
    {
        match slot_at_of(line, i) {
            Some(_) => {
                let j: usize = if col < escs.len() {
                    col
                } else {
                    escs.len() - 1
                };
                let ghost before = out@;
                push_seq(&mut out, &escs[j]);
                proof {
                    assert(table[j as int] == column_escape(table, col as int));
                    assert(out@ == before + table[j as int]);
                    assert(out@ + recolor_vertical_spec(line@, i + 5, col as int, table) =~= before
                        + (column_escape(table, col as int) + recolor_vertical_spec(
                        line@,
                        i + 5,
                        col as int,
                        table,
                    )));
                }
                i += 5;
            },
            None => {
                out.push(line[i]);
                proof {
                    assert(out@ + recolor_vertical_spec(line@, i + 1, col + 1, table)
                        =~= out@.drop_last() + (seq![line@[i as int]] + recolor_vertical_spec(
                        line@,
                        i + 1,
                        col + 1,
                        table,
                    )));
                }
                i += 1;
                col += 1;
            },
        }
    }
    proof {
        assert(out@ + recolor_vertical_spec(line@, i as int, col as int, table) =~= out@);
    }
    out
}

impl NormalizedAsciiArt {
    /// The lines as sequences of characters.
    pub open spec fn lines_view(self) -> Seq<Seq<char>> {
        self.lines@.map_values(|l: Vec<char>| l@)
    }

    /// The escape table a horizontal alignment gives row `i`: every slot of
    /// that row gets the gradient color sampled at the row's position.
    pub open spec fn horizontal_table(self, profile: ColorProfile, mode: AnsiMode, i: int) -> Seq<
        Seq<char>,
    > {
        const_table(
            escape_spec(
                resample_spec(linear_of_colors(dedup_spec(profile.colors@)), self.h as int)[
                    i].to_spec_srgb(),
                mode,
                ForegroundBackground::Foreground,
            ),
        )
    }

    /// The per-column escape table a vertical alignment gives the art:
    /// column `j` gets the gradient color sampled at the column's position.
    pub open spec fn vertical_table(self, profile: ColorProfile, mode: AnsiMode) -> Seq<Seq<char>> {
        Seq::new(
            self.w as nat,
            |j: int|
                escape_spec(
                    resample_spec(linear_of_colors(dedup_spec(profile.colors@)), self.w as int)[
                        j].to_spec_srgb(),
                    mode,
                    ForegroundBackground::Foreground,
                ),
        )
    }

    /// Line `i` under the literal-foreground path: the profile color for
    /// the line, cycled when lines outnumber colors, prepended as a
    /// foreground escape.
    pub open spec fn fg_line_spec(self, profile: ColorProfile, mode: AnsiMode, i: int) -> Seq<
        char,
    > {
        escape_spec(
            profile.colors@[i % (profile.colors@.len() as int)],
            mode,
            ForegroundBackground::Foreground,
        ) + self.lines_view()[i]
    }

    /// Recolors art that carries literal per-line foreground colors: no
    /// token scanning, just a direct line-to-color assignment cycling the
    /// profile.
    fn fg_recolored(&self, profile: &ColorProfile, mode: AnsiMode) -> (lines_out: Vec<String>)
        requires
            self.wf(),
            profile.wf(),
        ensures
            lines_out@.len() == self.lines@.len(),
            forall|i: int|
                0 <= i < lines_out@.len() ==> (#[trigger] lines_out@[i])@ == self.fg_line_spec(
                    *profile,
                    mode,
                    i,
                ),
    {
        let n: usize = profile.colors.len();
        let mut lines_out: Vec<String> = Vec::new();
        let mut i: usize = 0;
        while i < self.lines.len()
            invariant
                i <= self.lines@.len(),
                n == profile.colors@.len(),
                n >= 1,
                lines_out@.len() == i,
                forall|j: int|
                    0 <= j < i ==> (#[trigger] lines_out@[j])@ == self.fg_line_spec(
                        *profile,
                        mode,
                        j,
                    ),
            decreases self.lines@.len() - i,
        {
            let c = profile.colors[i % n];
            let mut line: Vec<char> = Vec::new();
            crate::ansi::push_escape(&mut line, &c, mode, ForegroundBackground::Foreground);
            push_seq(&mut line, &self.lines[i]);
            proof {
                assert(Seq::<char>::empty() + escape_spec(
                    profile.colors@[i as int % (n as int)],
                    mode,
                    ForegroundBackground::Foreground,
                ) =~= escape_spec(
                    profile.colors@[i as int % (n as int)],
                    mode,
                    ForegroundBackground::Foreground,
                ));
                assert(self.lines_view()[i as int] == self.lines@[i as int]@);
            }
            lines_out.push(chars_to_string(&line));
            i += 1;
        }
        lines_out
    }

    /// Repaints the art: substitutes a concrete escape sequence for every
    /// placeholder token under the chosen alignment, or prepends per-line
    /// foregrounds for token-free art that carries literal colors.  A
    /// custom alignment must map every slot the scanner discovers; the
    /// first unmapped slot is reported as `UnmappedSlot`.
    pub fn to_recolored(
        &self,
        color_align: &ColorAlignment,
        color_profile: &ColorProfile,
        color_mode: AnsiMode,
        _theme: TerminalTheme,
    ) -> (res: Result<RecoloredAsciiArt, EngineError>)
        requires
            self.wf(),
            color_profile.wf(),
            color_align matches ColorAlignment::Custom { colors } ==> forall|t: int|
                0 <= t < colors@.len() ==> (#[trigger] colors@[t]).1 < dedup_spec(
                    color_profile.colors@,
                ).len(),
        ensures
            res matches Ok(r) ==> r.w == self.w && r.h == self.h && r.lines@.len()
                == self.lines@.len(),
            self.fg@.len() > 0 && !(color_align is Custom) ==> match res {
                Ok(r) => forall|i: int|
                    0 <= i < r.lines@.len() ==> (#[trigger] r.lines@[i])@ == self.fg_line_spec(
                        *color_profile,
                        color_mode,
                        i,
                    ),
                Err(_) => false,
            },
            self.fg@.len() == 0 && color_align is Horizontal ==> match res {
                Ok(r) => forall|i: int|
                    0 <= i < r.lines@.len() ==> (#[trigger] r.lines@[i])@ == recolor_line_spec(
                        self.lines_view()[i],
                        0,
                        self.horizontal_table(*color_profile, color_mode, i),
                    ),
                Err(_) => false,
            },
            self.fg@.len() == 0 && color_align is Vertical ==> match res {
                Ok(r) => forall|i: int|
                    0 <= i < r.lines@.len() ==> (#[trigger] r.lines@[i])@ == recolor_vertical_spec(
                        self.lines_view()[i],
                        0,
                        0,
                        self.vertical_table(*color_profile, color_mode),
                    ),
                Err(_) => false,
            },
            color_align matches ColorAlignment::Custom { colors } ==> match first_unmapped_from(
                art_slots(self.lines_view()),
                colors@,
                0,
            ) {
                Option::Some(k) => res == Err::<RecoloredAsciiArt, EngineError>(
                    EngineError::UnmappedSlot(k),
                ),
                Option::None => match res {
                    Ok(r) => forall|i: int|
                        0 <= i < r.lines@.len() ==> (#[trigger] r.lines@[i])@ == recolor_line_spec(
                            self.lines_view()[i],
                            0,
                            custom_table_spec(*color_profile, colors@, color_mode),
                        ),
                    Err(_) => false,
                },
            },
    {
        match color_align {
            ColorAlignment::Horizontal => {
                if self.fg.len() > 0 {
                    let lines_out = self.fg_recolored(color_profile, color_mode);
                    return Ok(
                        RecoloredAsciiArt { lines: lines_out, w: self.w, h: self.h },
                    );
                }
                let lin = color_profile.unique_linear();
                let rows = resample_gradient(&lin, self.h as usize);
                let mut lines_out: Vec<String> = Vec::new();
                let mut i: usize = 0;
                while i < self.lines.len()
                    invariant
                        i <= self.lines@.len(),
                        self.wf(),
                        color_profile.wf(),
                        rows@ == resample_spec(
                            linear_of_colors(dedup_spec(color_profile.colors@)),
                            self.h as int,
                        ),
                        all_wf(rows@),
                        rows@.len() == self.h,
                        lines_out@.len() == i,
                        forall|j: int|
                            0 <= j < i ==> (#[trigger] lines_out@[j])@ == recolor_line_spec(
                                self.lines_view()[j],
                                0,
                                self.horizontal_table(*color_profile, color_mode, j),
                            ),
                    decreases self.lines@.len() - i,
                {
                    let c = rows[i].to_srgb();
                    let mut esc: Vec<char> = Vec::new();
                    crate::ansi::push_escape(
                        &mut esc,
                        &c,
                        color_mode,
                        ForegroundBackground::Foreground,
                    );
                    proof {
                        assert(Seq::<char>::empty() + escape_spec(
                            c,
                            color_mode,
                            ForegroundBackground::Foreground,
                        ) =~= escape_spec(c, color_mode, ForegroundBackground::Foreground));
                    }
                    let mut tab: Vec<Vec<char>> = Vec::new();
                    let mut s: usize = 0;
                    while s < 6
                        invariant
                            s <= 6,
                            tab@.len() == s,
                            forall|j: int| 0 <= j < s ==> (#[trigger] tab@[j])@ == esc@,
                        decreases 6 - s,
                    {
                        tab.push(copy_chars(&esc));
                        s += 1;
                    }
                    let out = recolor_line(&self.lines[i], &tab);
                    proof {
                        assert(tab@.map_values(|e: Vec<char>| e@) =~= const_table(esc@));
                        assert(self.lines_view()[i as int] == self.lines@[i as int]@);
                    }
                    lines_out.push(chars_to_string(&out));
                    i += 1;
                }
                Ok(RecoloredAsciiArt { lines: lines_out, w: self.w, h: self.h })
            },
            ColorAlignment::Vertical => {
                if self.fg.len() > 0 {
                    let lines_out = self.fg_recolored(color_profile, color_mode);
                    return Ok(
                        RecoloredAsciiArt { lines: lines_out, w: self.w, h: self.h },
                    );
                }
                let lin = color_profile.unique_linear();
                let cols = resample_gradient(&lin, self.w as usize);
                let ghost vtable = self.vertical_table(*color_profile, color_mode);
                let mut escs: Vec<Vec<char>> = Vec::new();
                let mut j: usize = 0;
                while j < self.w as usize
                    invariant
                        j <= self.w,
                        self.wf(),
                        color_profile.wf(),
                        cols@ == resample_spec(
                            linear_of_colors(dedup_spec(color_profile.colors@)),
                            self.w as int,
                        ),
                        all_wf(cols@),
                        cols@.len() == self.w,
                        vtable == self.vertical_table(*color_profile, color_mode),
                        escs@.len() == j,
                        forall|t: int| 0 <= t < j ==> (#[trigger] escs@[t])@ == vtable[t],
                    decreases self.w - j,
                {
                    let c = cols[j].to_srgb();
                    let mut esc: Vec<char> = Vec::new();
                    crate::ansi::push_escape(
                        &mut esc,
                        &c,
                        color_mode,
                        ForegroundBackground::Foreground,
                    );
                    proof {
                        assert(Seq::<char>::empty() + escape_spec(
                            c,
                            color_mode,
                            ForegroundBackground::Foreground,
                        ) =~= escape_spec(c, color_mode, ForegroundBackground::Foreground));
                    }
                    escs.push(esc);
                    j += 1;
                }
                let mut lines_out: Vec<String> = Vec::new();
                let mut i: usize = 0;
                while i < self.lines.len()
                    invariant
                        i <= self.lines@.len(),
                        self.wf(),
                        escs@.len() == self.w,
                        self.w >= 1,
                        vtable == self.vertical_table(*color_profile, color_mode),
                        forall|t: int| 0 <= t < escs@.len() ==> (#[trigger] escs@[t])@ == vtable[t],
                        lines_out@.len() == i,
                        forall|j2: int|
                            0 <= j2 < i ==> (#[trigger] lines_out@[j2])@ == recolor_vertical_spec(
                                self.lines_view()[j2],
                                0,
                                0,
                                vtable,
                            ),
                    decreases self.lines@.len() - i,
                {
                    let out = recolor_line_vertical(&self.lines[i], &escs);
                    proof {
                        assert(escs@.map_values(|e: Vec<char>| e@) =~= vtable);
                        assert(self.lines_view()[i as int] == self.lines@[i as int]@);
                    }
                    lines_out.push(chars_to_string(&out));
                    i += 1;
                }
                Ok(RecoloredAsciiArt { lines: lines_out, w: self.w, h: self.h })
            },
            ColorAlignment::Custom { colors: m } => {
                // collect every slot occurrence, line by line
                let mut slots: Vec<u8> = Vec::new();
                let mut i: usize = 0;
                while i < self.lines.len()
                    invariant
                        i <= self.lines@.len(),
                        slots@ == art_slots(self.lines_view().take(i as int)),
                    decreases self.lines@.len() - i,
                {
                    proof {
                        assert(self.lines_view().take(i + 1).drop_last() =~= self.lines_view().take(
                            i as int,
                        ));
                        assert(self.lines_view().take(i + 1).last() == self.lines@[i as int]@);
                    }
                    push_slots(&mut slots, &self.lines[i]);
                    i += 1;
                }
                proof {
                    assert(self.lines_view().take(self.lines@.len() as int)
                        =~= self.lines_view());
                }
                // every discovered slot must be mapped
                let mut t: usize = 0;
                while t < slots.len()
                    invariant
                        t <= slots@.len(),
                        slots@ == art_slots(self.lines_view()),
                        color_align matches ColorAlignment::Custom { colors } && colors@ == m@,
                        first_unmapped_from(slots@, m@, 0) == first_unmapped_from(
                            slots@,
                            m@,
                            t as int,
                        ),
                    decreases slots@.len() - t,
                {
                    let k = slots[t];
                    match lookup_slot_of(m, k) {
                        Option::None => {
                            return Err(EngineError::UnmappedSlot(k));
                        },
                        Option::Some(_) => {},
                    }
                    t += 1;
                }
                // build the slot table from the unique profile colors
                let uniq = color_profile.unique_colors();
                let ghost ctable = custom_table_spec(*color_profile, m@, color_mode);
                let mut tab: Vec<Vec<char>> = Vec::new();
                let mut s: u8 = 1;
                while s <= 6
                    invariant
                        1 <= s <= 7,
                        uniq.colors@ == dedup_spec(color_profile.colors@),
                        forall|t2: int| 0 <= t2 < m@.len() ==> (#[trigger] m@[t2]).1
                            < uniq.colors@.len(),
                        ctable == custom_table_spec(*color_profile, m@, color_mode),
                        tab@.len() == s - 1,
                        forall|j2: int| 0 <= j2 < s - 1 ==> (#[trigger] tab@[j2])@ == ctable[j2],
                    decreases 7 - s,
                {
                    match lookup_slot_of(m, s) {
                        Option::Some(pi) => {
                            proof {
                                lemma_lookup_bound(m@, 0, s, uniq.colors@.len() as int);
                            }
                            let c = uniq.colors[pi as usize];
                            let mut esc: Vec<char> = Vec::new();
                            crate::ansi::push_escape(
                                &mut esc,
                                &c,
                                color_mode,
                                ForegroundBackground::Foreground,
                            );
                            proof {
                                assert(Seq::<char>::empty() + escape_spec(
                                    c,
                                    color_mode,
                                    ForegroundBackground::Foreground,
                                ) =~= escape_spec(
                                    c,
                                    color_mode,
                                    ForegroundBackground::Foreground,
                                ));
                            }
                            tab.push(esc);
                        },
                        Option::None => {
                            let esc: Vec<char> = Vec::new();
                            tab.push(esc);
                        },
                    }
                    s += 1;
                }
                // repaint the lines through the table
                let mut lines_out: Vec<String> = Vec::new();
                let mut i2: usize = 0;
                while i2 < self.lines.len()
                    invariant
                        i2 <= self.lines@.len(),
                        tab@.len() == 6,
                        ctable == custom_table_spec(*color_profile, m@, color_mode),
                        forall|j2: int| 0 <= j2 < 6 ==> (#[trigger] tab@[j2])@ == ctable[j2],
                        lines_out@.len() == i2,
                        forall|j2: int|
                            0 <= j2 < i2 ==> (#[trigger] lines_out@[j2])@ == recolor_line_spec(
                                self.lines_view()[j2],
                                0,
                                ctable,
                            ),
                    decreases self.lines@.len() - i2,
                {
                    let out = recolor_line(&self.lines[i2], &tab);
                    proof {
                        assert(tab@.map_values(|e: Vec<char>| e@) =~= ctable);
                        assert(self.lines_view()[i2 as int] == self.lines@[i2 as int]@);
                    }
                    lines_out.push(chars_to_string(&out));
                    i2 += 1;
                }
                Ok(RecoloredAsciiArt { lines: lines_out, w: self.w, h: self.h })
            },
        }
    }

    /// The de-duplicated slots of every placeholder token the art holds,
    /// in order of first occurrence.  Custom alignments must cover exactly
    /// these slots.
    pub fn unique_slots(&self) -> (r: Vec<u8>)
        ensures
            r@ == dedup_spec(art_slots(self.lines_view())),
    {
        let mut slots: Vec<u8> = Vec::new();
        let mut i: usize = 0;
        while i < self.lines.len()
            invariant
                i <= self.lines@.len(),
                slots@ == art_slots(self.lines_view().take(i as int)),
            decreases self.lines@.len() - i,
        {
            proof {
                assert(self.lines_view().take(i + 1).drop_last() =~= self.lines_view().take(
                    i as int,
                ));
                assert(self.lines_view().take(i + 1).last() == self.lines@[i as int]@);
            }
            push_slots(&mut slots, &self.lines[i]);
            i += 1;
        }
        proof {
            assert(self.lines_view().take(self.lines@.len() as int) =~= self.lines_view());
        }
        let mut out: Vec<u8> = Vec::new();
        let mut t: usize = 0;
        while t < slots.len()
            invariant
                t <= slots@.len(),
                out@ == dedup_spec(slots@.take(t as int)),
            decreases slots@.len() - t,
        {
            let k = slots[t];
            proof {
                assert(slots@.take(t + 1).drop_last() =~= slots@.take(t as int));
                assert(slots@.take(t + 1).last() == k);
            }
            let mut found = false;
            let mut u: usize = 0;
            while u < out.len()
                invariant
                    u <= out@.len(),
                    found == exists|x: int| 0 <= x < u && out@[x] == k,
                decreases out@.len() - u,
            {
                if out[u] == k {
                    found = true;
                }
                u += 1;
            }
            if !found {
                out.push(k);
            }
            t += 1;
        }
        proof {
            assert(slots@.take(slots@.len() as int) =~= slots@);
        }
        out
    }
}

} // verus!
