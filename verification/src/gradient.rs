//! The gradient interpolator: a clamped, degree-one (piecewise-linear)
//! curve through a profile's colors in linear light, parameterized over the
//! normalized position `num / den` in the closed unit interval, and
//! resampling of that curve at any number of equally spaced points.
//!
//! Interpolating in linear light, not gamma space, is what keeps blended
//! mid-tones from darkening visibly.

use vstd::prelude::*;

use crate::{LinearColor, FIXED_ONE};

verus! {

/// The weighted average of `a` and `b` with weight `num / den` on `b`,
/// rounded down.
pub open spec fn lerp_fixed(a: u32, b: u32, num: int, den: int) -> u32
    recommends
        0 <= num <= den,
        den > 0,
{
    ((a * (den - num) + b * num) / den) as u32
}

/// Interpolates one fixed-point channel.
fn lerp_channel(a: u32, b: u32, num: usize, den: usize) -> (r: u32)
    requires
        num <= den,
        den > 0,
        a <= FIXED_ONE,
        b <= FIXED_ONE,
    ensures
        r == lerp_fixed(a, b, num as int, den as int),
        r <= FIXED_ONE,
{
    proof {
        assert((a as int) * ((den - num) as int) + (b as int) * (num as int) <= 0x10000
            * 0x10000000000000000) by (nonlinear_arith)
            requires
                a <= 0xffff,
                b <= 0xffff,
                0 <= num <= den,
                den <= 0xffffffffffffffff,
        ;
    }
    let wide: u128 = ((a as u128) * ((den - num) as u128) + (b as u128) * (num as u128)) / (
    den as u128);
    proof {
        assert((a * ((den - num) as int) + b * (num as int)) / (den as int) <= FIXED_ONE)
            by (nonlinear_arith)
            requires
                a <= FIXED_ONE,
                b <= FIXED_ONE,
                0 <= num <= den,
                0 < den,
        ;
        assert((a * ((den - num) as int) + b * (num as int)) / (den as int) >= 0)
            by (nonlinear_arith)
            requires
                a >= 0,
                b >= 0,
                0 <= num <= den,
                0 < den,
        ;
    }
    wide as u32
}

/// The color of the gradient through `cs` at position `num / den` of the
/// unit interval: the position is mapped onto the `cs.len() - 1` equal
/// segments between consecutive colors, and the two ends of the segment it
/// falls in are blended channel-wise.
pub open spec fn sample_spec(cs: Seq<LinearColor>, num: int, den: int) -> LinearColor
    recommends
        cs.len() >= 1,
        0 <= num <= den,
        den > 0,
{
    if cs.len() == 1 {
        cs[0]
    } else {
        let pn = num * (cs.len() - 1);
        let k = pn / den;
        if k >= cs.len() - 1 {
            cs[cs.len() - 1]
        } else {
            LinearColor {
                r: lerp_fixed(cs[k].r, cs[k + 1].r, pn - k * den, den),
                g: lerp_fixed(cs[k].g, cs[k + 1].g, pn - k * den, den),
                b: lerp_fixed(cs[k].b, cs[k + 1].b, pn - k * den, den),
            }
        }
    }
}

/// Every channel of every color lies in the unit interval.
pub open spec fn all_wf(cs: Seq<LinearColor>) -> bool {
    forall|i: int| 0 <= i < cs.len() ==> (#[trigger] cs[i]).wf()
}

/// Samples the gradient through `cs` at position `num / den`.
pub fn sample_gradient(cs: &Vec<LinearColor>, num: usize, den: usize) -> (c: LinearColor)
    requires
        cs@.len() >= 1,
        num <= den,
        den > 0,
        all_wf(cs@),
    ensures
        c == sample_spec(cs@, num as int, den as int),
        c.wf(),
{
    let n: usize = cs.len();
    if n == 1 {
        return cs[0];
    }
    proof {
        assert((num as int) * ((n - 1) as int) < 0x100000000000000000000000000000000)
            by (nonlinear_arith)
            requires
                0 <= num <= 0xffffffffffffffff,
                1 <= n <= 0xffffffffffffffff,
        ;
    }
    let pn: u128 = (num as u128) * ((n - 1) as u128);
    let den_wide: u128 = den as u128;
    let k_wide: u128 = pn / den_wide;
    proof {
        assert(pn / den_wide <= (n - 1) as u128) by (nonlinear_arith)
            requires
                pn == (num as u128) * ((n - 1) as u128),
                den_wide > 0,
                num <= den_wide,
                n >= 1,
        ;
    }
    if k_wide >= (n - 1) as u128 {
        return cs[n - 1];
    }
    let k: usize = k_wide as usize;
    proof {
        assert(pn - (pn / den_wide) * den_wide < den_wide && pn - (pn / den_wide) * den_wide >= 0
            && (pn / den_wide) * den_wide <= pn) by (nonlinear_arith)
            requires
                den_wide > 0,
                pn >= 0,
        ;
    }
    let frac: u128 = pn - k_wide * den_wide;
    let fnum: usize = frac as usize;
    LinearColor {
        r: lerp_channel(cs[k].r, cs[k + 1].r, fnum, den),
        g: lerp_channel(cs[k].g, cs[k + 1].g, fnum, den),
        b: lerp_channel(cs[k].b, cs[k + 1].b, fnum, den),
    }
}

/// The gradient through `cs` resampled at `n_out` equally spaced positions:
/// point `i` sits at `i / (n_out - 1)`, or at the start when there is only
/// one point.
pub open spec fn resample_spec(cs: Seq<LinearColor>, n_out: int) -> Seq<LinearColor> {
    Seq::new(
        n_out as nat,
        |i: int|
            if n_out == 1 {
                cs[0]
            } else {
                sample_spec(cs, i, n_out - 1)
            },
    )
}

/// Resamples the gradient through `cs` at `n_out` equally spaced points, so
/// that any row or column count gets an evenly spread run of colors no
/// matter how many colors the profile holds.
pub fn resample_gradient(cs: &Vec<LinearColor>, n_out: usize) -> (out: Vec<LinearColor>)
    requires
        cs@.len() >= 1,
        n_out >= 1,
        all_wf(cs@),
    ensures
        out@ == resample_spec(cs@, n_out as int),
        all_wf(out@),
{
    let mut out: Vec<LinearColor> = Vec::new();
    let mut i: usize = 0;
    while i < n_out
        invariant
            i <= n_out,
            n_out >= 1,
            cs@.len() >= 1,
            all_wf(cs@),
            all_wf(out@),
            out@ == resample_spec(cs@, n_out as int).take(i as int),
        decreases n_out - i,
    {
        let c = if n_out == 1 {
            cs[0]
        } else {
            sample_gradient(cs, i, n_out - 1)
        };
        out.push(c);
        proof {
            assert(out@ =~= resample_spec(cs@, n_out as int).take(i + 1));
        }
        i += 1;
    }
    proof {
        assert(out@ =~= resample_spec(cs@, n_out as int));
    }
    out
}

/// The gradient at the start of the unit interval is exactly the first
/// color.
pub proof fn lemma_sample_start(cs: Seq<LinearColor>, den: int)
    requires
        cs.len() >= 1,
        den > 0,
    ensures
        sample_spec(cs, 0, den) == cs[0],
{
    if cs.len() > 1 {
        assert(0int * (cs.len() - 1) == 0);
        assert(0int / den == 0);
        let a = cs[0];
        assert(lerp_fixed(a.r, cs[1].r, 0, den) == a.r) by (nonlinear_arith)
            requires
                den > 0,
                a.r >= 0,
        ;
        assert(lerp_fixed(a.g, cs[1].g, 0, den) == a.g) by (nonlinear_arith)
            requires
                den > 0,
                a.g >= 0,
        ;
        assert(lerp_fixed(a.b, cs[1].b, 0, den) == a.b) by (nonlinear_arith)
            requires
                den > 0,
                a.b >= 0,
        ;
    }
}

/// The gradient at the end of the unit interval is exactly the last color.
pub proof fn lemma_sample_end(cs: Seq<LinearColor>, den: int)
    requires
        cs.len() >= 1,
        den > 0,
    ensures
        sample_spec(cs, den, den) == cs[cs.len() - 1],
{
    if cs.len() > 1 {
        assert((den * (cs.len() - 1)) / den == cs.len() - 1) by (nonlinear_arith)
            requires
                den > 0,
                cs.len() >= 1,
        ;
    }
}

} // verus!
