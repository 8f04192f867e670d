//! Color profiles: ordered, non-empty sequences of colors, with
//! order-preserving deduplication and the lightness transforms.  Every
//! operation is a pure function returning a new profile; no profile is ever
//! mutated in place.

use vstd::prelude::*;

use crate::ansi::escape_spec;
use crate::color::{hsl_recolored, lightness_fixed, set_lightness};
use crate::gradient::{all_wf, resample_spec, resample_gradient};
use crate::lightness::Lightness;
use crate::term::{AnsiMode, ForegroundBackground, TerminalTheme};
use crate::text::{chars_to_string, str_chars};
use crate::{EngineError, FormatErrorKind, LinearColor, SrgbColor, FIXED_ONE};

verus! {

/// `text` with every character colored by the run of profile colors: the
/// text splits into roughly equal runs, character `i` taking color
/// `i * n / len` of the `n` colors.
pub open spec fn chunked_text_spec(
    t: Seq<char>,
    i: int,
    cs: Seq<SrgbColor>,
    mode: AnsiMode,
    fb: ForegroundBackground,
) -> Seq<char>
    decreases t.len() - i,
{
    if i >= t.len() {
        Seq::empty()
    } else {
        escape_spec(cs[i * (cs.len() as int) / (t.len() as int)], mode, fb) + seq![t[i]]
            + chunked_text_spec(
            t,
            i + 1,
            cs,
            mode,
            fb,
        )
    }
}

/// `text` with character `i` colored by the gradient through `lin` sampled
/// at the character's position along the text.
pub open spec fn gradient_text_spec(
    t: Seq<char>,
    i: int,
    lin: Seq<LinearColor>,
    mode: AnsiMode,
    fb: ForegroundBackground,
) -> Seq<char>
    decreases t.len() - i,
{
    if i >= t.len() {
        Seq::empty()
    } else {
        escape_spec(resample_spec(lin, t.len() as int)[i].to_spec_srgb(), mode, fb) + seq![t[i]]
            + gradient_text_spec(t, i + 1, lin, mode, fb)
    }
}

/// `s` with later repeats of a value removed: the subsequence of first
/// occurrences, in order.
pub open spec fn dedup_spec<T>(s: Seq<T>) -> Seq<T>
    decreases s.len(),
{
    if s.len() == 0 {
        Seq::empty()
    } else {
        let rest = dedup_spec(s.drop_last());
        if rest.contains(s.last()) {
            rest
        } else {
            rest.push(s.last())
        }
    }
}

/// No value occurs twice in `s`.
pub open spec fn distinct_seq<T>(s: Seq<T>) -> bool {
    forall|i: int, j: int| 0 <= i < j < s.len() ==> s[i] != s[j]
}

/// Deduplication leaves no repeats.
pub proof fn lemma_dedup_distinct<T>(s: Seq<T>)
    ensures
        distinct_seq(dedup_spec(s)),
    decreases s.len(),
{
    if s.len() > 0 {
        lemma_dedup_distinct(s.drop_last());
        let rest = dedup_spec(s.drop_last());
        if !rest.contains(s.last()) {
            assert forall|i: int, j: int|
                0 <= i < j < rest.push(s.last()).len() implies rest.push(s.last())[i] != rest.push(
                s.last(),
            )[j] by {
                if j == rest.len() {
                    assert(rest[i] == rest.push(s.last())[i]);
                    assert(!rest.contains(s.last()));
                    assert(rest[i] != s.last());
                }
            }
        }
    }
}

/// A sequence without repeats deduplicates to itself.
pub proof fn lemma_dedup_of_distinct<T>(s: Seq<T>)
    requires
        distinct_seq(s),
    ensures
        dedup_spec(s) == s,
    decreases s.len(),
{
    if s.len() > 0 {
        assert(distinct_seq(s.drop_last()));
        lemma_dedup_of_distinct(s.drop_last());
        let rest = dedup_spec(s.drop_last());
        assert(!rest.contains(s.last())) by {
            if rest.contains(s.last()) {
                let i = choose|i: int| 0 <= i < rest.len() && rest[i] == s.last();
                assert(s[i] == s.last());
            }
        }
        assert(rest.push(s.last()) =~= s);
    }
}

/// Deduplication is idempotent: deduplicating a second time changes
/// nothing.
pub proof fn lemma_dedup_idempotent<T>(s: Seq<T>)
    ensures
        dedup_spec(dedup_spec(s)) == dedup_spec(s),
{
    lemma_dedup_distinct(s);
    lemma_dedup_of_distinct(dedup_spec(s));
}

/// The color `c` with its perceptual lightness replaced by `l`.
pub open spec fn replaced_color(c: SrgbColor, l: u32) -> SrgbColor {
    let (r, g, b) = hsl_recolored(c.r, c.g, c.b, l);
    SrgbColor { r, g, b }
}

/// The sum of the perceptual lightness of each color.
pub open spec fn sum_lightness(s: Seq<SrgbColor>) -> int
    decreases s.len(),
{
    if s.len() == 0 {
        0
    } else {
        sum_lightness(s.drop_last()) + lightness_fixed(s.last().r, s.last().g, s.last().b)
    }
}

/// How a lightness transform assigns the new lightness.
#[derive(Clone, Copy, PartialEq, Eq, Structural, Debug)]
pub enum AssignLightness {
    /// Set every color's lightness to exactly this value.
    Replace(Lightness),
}

/// An ordered, non-empty sequence of colors.
#[derive(Clone, PartialEq, Eq, Debug)]
pub struct ColorProfile {
    pub colors: Vec<SrgbColor>,
}

/// Whether `v` holds the color `c`.
fn contains_color(v: &Vec<SrgbColor>, c: SrgbColor) -> (b: bool)
    ensures
        b == v@.contains(c),
{
    let mut i: usize = 0;
    while i < v.len()
        invariant
            i <= v@.len(),
            forall|k: int| 0 <= k < i ==> v@[k] != c,
        decreases v@.len() - i,
    {
        if v[i] == c {
            return true;
        }
        i += 1;
    }
    false
}

impl ColorProfile {
    /// A profile is never empty.
    pub open spec fn wf(self) -> bool {
        self.colors@.len() > 0
    }

    /// Builds a profile from an ordered, non-empty color list.
    pub fn new(colors: Vec<SrgbColor>) -> (p: ColorProfile)
        requires
            colors@.len() > 0,
        ensures
            p.colors == colors,
            p.wf(),
    {
        ColorProfile { colors }
    }

    /// The profile's colors with later repeats removed, order of first
    /// occurrence preserved.
    pub fn unique_colors(&self) -> (p: ColorProfile)
        requires
            self.wf(),
        ensures
            p.colors@ == dedup_spec(self.colors@),
            p.wf(),
    {
        let mut out: Vec<SrgbColor> = Vec::new();
        let mut i: usize = 0;
        while i < self.colors.len()
            invariant
                i <= self.colors@.len(),
                out@ == dedup_spec(self.colors@.take(i as int)),
            decreases self.colors@.len() - i,
        {
            let c = self.colors[i];
            proof {
                assert(self.colors@.take(i + 1).drop_last() =~= self.colors@.take(i as int));
                assert(self.colors@.take(i + 1).last() == c);
            }
            if !contains_color(&out, c) {
                out.push(c);
            }
            i += 1;
        }
        proof {
            assert(self.colors@.take(self.colors@.len() as int) =~= self.colors@);
        }
        ColorProfile { colors: out }
    }

    /// The average perceptual lightness of the profile's colors, rounded
    /// down.
    pub fn average_lightness(&self) -> (l: u32)
        requires
            self.wf(),
        ensures
            l == sum_lightness(self.colors@) / (self.colors@.len() as int),
            l <= FIXED_ONE,
    {
        let n: usize = self.colors.len();
        let mut acc: u128 = 0;
        let mut i: usize = 0;
        while i < n
            invariant
                i <= n == self.colors@.len(),
                acc == sum_lightness(self.colors@.take(i as int)),
                acc <= i * (FIXED_ONE as int),
            decreases n - i,
        {
            proof {
                assert(self.colors@.take(i + 1).drop_last() =~= self.colors@.take(i as int));
                assert(self.colors@.take(i + 1).last() == self.colors@[i as int]);
            }
            let l = self.colors[i].lightness();
            acc = acc + (l as u128);
            i += 1;
        }
        proof {
            assert(self.colors@.take(n as int) =~= self.colors@);
            assert(sum_lightness(self.colors@) / (n as int) <= FIXED_ONE) by (nonlinear_arith)
                requires
                    sum_lightness(self.colors@) <= n * (FIXED_ONE as int),
                    sum_lightness(self.colors@) >= 0,
                    n >= 1,
            ;
        }
        let avg: u128 = acc / (n as u128);
        avg as u32
    }

    /// Every color's lightness replaced as `assign` says.  Each color of the
    /// result carries the requested lightness, up to the byte-rounding
    /// tolerance.
    pub fn with_lightness(&self, assign: AssignLightness) -> (p: ColorProfile)
        requires
            self.wf(),
            assign matches AssignLightness::Replace(l) && l.wf(),
        ensures
            p.wf(),
            p.colors@.len() == self.colors@.len(),
            assign matches AssignLightness::Replace(l) ==> forall|i: int|
                0 <= i < p.colors@.len() ==> #[trigger] p.colors@[i] == replaced_color(
                    self.colors@[i],
                    l.value,
                ),
            assign matches AssignLightness::Replace(l) ==> forall|i: int|
                0 <= i < p.colors@.len() ==> (#[trigger] p.colors@[i]).spec_lightness() <= l.value
                    + crate::color::LIGHTNESS_EPS && l.value <= p.colors@[i].spec_lightness()
                    + crate::color::LIGHTNESS_EPS,
    {
        let AssignLightness::Replace(l) = assign;
        let mut out: Vec<SrgbColor> = Vec::new();
        let n: usize = self.colors.len();
        let mut i: usize = 0;
        while i < n
            invariant
                i <= n == self.colors@.len(),
                out@.len() == i,
                l.wf(),
                forall|j: int|
                    0 <= j < i ==> #[trigger] out@[j] == replaced_color(self.colors@[j], l.value),
                forall|j: int|
                    0 <= j < i ==> (#[trigger] out@[j]).spec_lightness() <= l.value
                        + crate::color::LIGHTNESS_EPS && l.value <= out@[j].spec_lightness()
                        + crate::color::LIGHTNESS_EPS,
            decreases n - i,
        {
            let c = set_lightness(self.colors[i], l.value);
            out.push(c);
            i += 1;
        }
        ColorProfile { colors: out }
    }

    /// The new lightness [`Self::lighten`] gives a color: moved from its own
    /// lightness toward full brightness by `factor`, so factor zero keeps
    /// every lightness and the full factor turns every color white.
    pub open spec fn lighten_target(c: SrgbColor, factor: u32) -> u32 {
        (c.spec_lightness() + ((FIXED_ONE - c.spec_lightness()) * factor / (FIXED_ONE as int))) as u32
    }

    /// Uniformly scales every color's lightness toward white by
    /// `factor / FIXED_ONE`.  Factors above the unit interval are rejected
    /// with `OutOfRange`; the full factor yields a profile of pure white.
    pub fn lighten(&self, factor: u32) -> (res: Result<ColorProfile, EngineError>)
        requires
            self.wf(),
        ensures
            factor > FIXED_ONE ==> res == Err::<ColorProfile, EngineError>(
                EngineError::OutOfRange(factor),
            ),
            factor <= FIXED_ONE ==> match res {
                Ok(p) => {
                    &&& p.wf()
                    &&& p.colors@.len() == self.colors@.len()
                    &&& forall|i: int|
                        0 <= i < p.colors@.len() ==> #[trigger] p.colors@[i] == replaced_color(
                            self.colors@[i],
                            Self::lighten_target(self.colors@[i], factor),
                        )
                    &&& factor == FIXED_ONE ==> forall|i: int|
                        0 <= i < p.colors@.len() ==> #[trigger] p.colors@[i] == (SrgbColor {
                            r: 255,
                            g: 255,
                            b: 255,
                        })
                },
                Err(_) => false,
            },
    {
        if factor > FIXED_ONE {
            return Err(EngineError::OutOfRange(factor));
        }
        let mut out: Vec<SrgbColor> = Vec::new();
        let n: usize = self.colors.len();
        let mut i: usize = 0;
        while i < n
            invariant
                i <= n == self.colors@.len(),
                out@.len() == i,
                factor <= FIXED_ONE,
                forall|j: int|
                    0 <= j < i ==> #[trigger] out@[j] == replaced_color(
                        self.colors@[j],
                        Self::lighten_target(self.colors@[j], factor),
                    ),
                factor == FIXED_ONE ==> forall|j: int|
                    0 <= j < i ==> #[trigger] out@[j] == (SrgbColor { r: 255, g: 255, b: 255 }),
            decreases n - i,
        {
            let l = self.colors[i].lightness();
            proof {
                assert((FIXED_ONE - l) * factor <= (FIXED_ONE - l) * (FIXED_ONE as int))
                    by (nonlinear_arith)
                    requires
                        factor <= FIXED_ONE,
                        l <= FIXED_ONE,
                ;
                assert((FIXED_ONE - l) * (FIXED_ONE as int) / (FIXED_ONE as int) == FIXED_ONE - l)
                    by (nonlinear_arith)
                    requires
                        l <= FIXED_ONE,
                ;
                assert((FIXED_ONE - l) * factor / (FIXED_ONE as int) <= FIXED_ONE - l)
                    by (nonlinear_arith)
                    requires
                        factor <= FIXED_ONE,
                        l <= FIXED_ONE,
                ;
                assert((FIXED_ONE - l) * factor / (FIXED_ONE as int) >= 0) by (nonlinear_arith)
                    requires
                        factor >= 0,
                        l <= FIXED_ONE,
                ;
            }
            let scaled: u32 = (FIXED_ONE - l) * factor / FIXED_ONE;
            let target: u32 = l + scaled;
            let c = set_lightness(self.colors[i], target);
            out.push(c);
            i += 1;
        }
        Ok(ColorProfile { colors: out })
    }

    /// The profile's unique colors, decoded to linear light.
    pub fn unique_linear(&self) -> (lin: Vec<LinearColor>)
        requires
            self.wf(),
        ensures
            lin@ == dedup_spec(self.colors@).map_values(|c: SrgbColor| c.spec_to_linear()),
            lin@.len() >= 1,
            all_wf(lin@),
    {
        let uniq = self.unique_colors();
        let ghost ded = dedup_spec(self.colors@);
        let mut lin: Vec<LinearColor> = Vec::new();
        let mut t: usize = 0;
        while t < uniq.colors.len()
            invariant
                t <= uniq.colors@.len(),
                uniq.colors@ == ded,
                lin@.len() == t,
                all_wf(lin@),
                forall|j: int| 0 <= j < t ==> #[trigger] lin@[j] == ded[j].spec_to_linear(),
            decreases uniq.colors@.len() - t,
        {
            let c = uniq.colors[t].to_linear();
            lin.push(c);
            t += 1;
        }
        proof {
            assert(lin@ =~= ded.map_values(|c: SrgbColor| c.spec_to_linear()));
        }
        lin
    }

    /// Renders `text` with each character colored by the profile resampled
    /// across the text's length, for profile-preview labels: interpolated
    /// through the gradient of the unique colors, or chunked directly over
    /// the profile's colors.  Empty text is rejected.
    pub fn color_text(
        &self,
        text: &str,
        mode: AnsiMode,
        fb: ForegroundBackground,
        interpolate: bool,
    ) -> (res: Result<String, EngineError>)
        requires
            self.wf(),
        ensures
            match res {
                Ok(s) => text@.len() > 0 && (interpolate ==> s@ == gradient_text_spec(
                    text@,
                    0,
                    dedup_spec(self.colors@).map_values(|c: SrgbColor| c.spec_to_linear()),
                    mode,
                    fb,
                )) && (!interpolate ==> s@ == chunked_text_spec(text@, 0, self.colors@, mode, fb)),
                Err(e) => text@.len() == 0 && e == EngineError::FormatError(FormatErrorKind::Empty),
            },
    {
        let t = str_chars(text);
        let len: usize = t.len();
        if len == 0 {
            return Err(EngineError::FormatError(FormatErrorKind::Empty));
        }
        let mut out: Vec<char> = Vec::new();
        if interpolate {
            let lin = self.unique_linear();
            let ghost linv = dedup_spec(self.colors@).map_values(
                |c: SrgbColor| c.spec_to_linear(),
            );
            let cols = resample_gradient(&lin, len);
            let mut i: usize = 0;
            while i < len
                invariant
                    i <= len == t@.len(),
                    t@ == text@,
                    len >= 1,
                    cols@ == resample_spec(linv, len as int),
                    all_wf(cols@),
                    cols@.len() == len,
                    gradient_text_spec(t@, 0, linv, mode, fb) == out@ + gradient_text_spec(
                        t@,
                        i as int,
                        linv,
                        mode,
                        fb,
                    ),
                decreases len - i,
            {
                let c = cols[i].to_srgb();
                let ghost before = out@;
                crate::ansi::push_escape(&mut out, &c, mode, fb);
                out.push(t[i]);
                proof {
                    assert(out@ + gradient_text_spec(t@, i + 1, linv, mode, fb) =~= before + (
                    escape_spec(c, mode, fb) + seq![t@[i as int]] + gradient_text_spec(
                        t@,
                        i + 1,
                        linv,
                        mode,
                        fb,
                    )));
                }
                i += 1;
            }
            proof {
                assert(out@ + gradient_text_spec(t@, len as int, linv, mode, fb) =~= out@);
            }
        } else {
            let n: usize = self.colors.len();
            let mut i: usize = 0;
            while i < len
                invariant
                    i <= len == t@.len(),
                    t@ == text@,
                    len >= 1,
                    n == self.colors@.len(),
                    n >= 1,
                    chunked_text_spec(t@, 0, self.colors@, mode, fb) == out@ + chunked_text_spec(
                        t@,
                        i as int,
                        self.colors@,
                        mode,
                        fb,
                    ),
                decreases len - i,
            {
                proof {
                    assert(0 <= (i * (n as int)) / (len as int) < n) by (nonlinear_arith)
                        requires
                            0 <= i < len,
                            n >= 1,
                    ;
                    assert((i as int) * (n as int) < 0x100000000000000000000000000000000)
                        by (nonlinear_arith)
                        requires
                            0 <= i <= 0xffffffffffffffff,
                            0 <= n <= 0xffffffffffffffff,
                    ;
                }
                let idx: usize = (((i as u128) * (n as u128)) / (len as u128)) as usize;
                let c = self.colors[idx];
                let ghost before = out@;
                crate::ansi::push_escape(&mut out, &c, mode, fb);
                out.push(t[i]);
                proof {
                    assert(out@ + chunked_text_spec(t@, i + 1, self.colors@, mode, fb) =~= before
                        + (escape_spec(c, mode, fb) + seq![t@[i as int]] + chunked_text_spec(
                        t@,
                        i + 1,
                        self.colors@,
                        mode,
                        fb,
                    )));
                }
                i += 1;
            }
            proof {
                assert(out@ + chunked_text_spec(t@, len as int, self.colors@, mode, fb) =~= out@);
            }
        }
        Ok(chars_to_string(&out))
    }

    /// Whether [`Self::with_lightness_adaptive`] leaves the profile as it
    /// is: the average lightness already sits on the correct side of the
    /// target for the theme — at or below it under a dark theme, at or
    /// above it under a light one.
    pub open spec fn adaptive_unchanged(self, target: u32, theme: TerminalTheme) -> bool {
        let avg = sum_lightness(self.colors@) / (self.colors@.len() as int);
        match theme {
            TerminalTheme::Dark => avg <= target,
            TerminalTheme::Light => avg >= target,
        }
    }

    /// Replaces every color's lightness with the target, unless the
    /// profile's average lightness already sits on the correct side of the
    /// target for the theme, in which case the colors are left unscaled so
    /// that already-appropriate palettes are not washed out.
    pub fn with_lightness_adaptive(&self, target: Lightness, theme: TerminalTheme) -> (p:
        ColorProfile)
        requires
            self.wf(),
            target.wf(),
        ensures
            p.wf(),
            self.adaptive_unchanged(target.value, theme) ==> p.colors@ == self.colors@,
            !self.adaptive_unchanged(target.value, theme) ==> p.colors@.len()
                == self.colors@.len() && forall|i: int|
                0 <= i < p.colors@.len() ==> #[trigger] p.colors@[i] == replaced_color(
                    self.colors@[i],
                    target.value,
                ),
    {
        let avg = self.average_lightness();
        let unchanged = match theme {
            TerminalTheme::Dark => avg <= target.value,
            TerminalTheme::Light => avg >= target.value,
        };
        if unchanged {
            let mut out: Vec<SrgbColor> = Vec::new();
            let n: usize = self.colors.len();
            let mut i: usize = 0;
            while i < n
                invariant
                    i <= n == self.colors@.len(),
                    out@ == self.colors@.take(i as int),
                decreases n - i,
            {
                out.push(self.colors[i]);
                proof {
                    assert(out@ =~= self.colors@.take(i + 1));
                }
                i += 1;
            }
            proof {
                assert(out@ =~= self.colors@);
            }
            ColorProfile { colors: out }
        } else {
            self.with_lightness(AssignLightness::Replace(target))
        }
    }
}

} // verus!
