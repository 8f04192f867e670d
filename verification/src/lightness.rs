//! A validated perceptual lightness scalar, and the parser for the ways a
//! user may spell one (`45%`, `.45`, `45`).

use vstd::prelude::*;

use crate::{EngineError, FIXED_ONE};

verus! {

/// Perceptual brightness, independent of hue and saturation, as a
/// fixed-point fraction of [`FIXED_ONE`].  Valid values lie in the closed
/// unit interval.
#[derive(Clone, Copy, PartialEq, Eq, Structural, Debug)]
pub struct Lightness {
    pub value: u32,
}

impl Lightness {
    /// The value lies in the closed unit interval.
    pub open spec fn wf(self) -> bool {
        self.value <= FIXED_ONE
    }

    /// Validates a fixed-point scalar as a lightness.  Fails with
    /// `OutOfRange` exactly on the values above the unit interval.
    pub fn new(value: u32) -> (r: Result<Lightness, EngineError>)
        ensures
            value <= FIXED_ONE ==> r == Ok::<Lightness, EngineError>(Lightness { value }),
            value > FIXED_ONE ==> r == Err::<Lightness, EngineError>(EngineError::OutOfRange(value)),
    {
        if value <= FIXED_ONE {
            Ok(Lightness { value })
        } else {
            Err(EngineError::OutOfRange(value))
        }
    }

    /// The lightness `p / 100`, for a percentage up to one hundred.
    pub fn from_percent(p: u8) -> (r: Lightness)
        requires
            p <= 100,
        ensures
            r.value == p * FIXED_ONE / 100,
            r.wf(),
    {
        Lightness { value: p as u32 * FIXED_ONE / 100 }
    }
}

/// The default lightness for a theme: brighter colors for a dark
/// background, dimmer ones for a light background.
pub fn default_lightness(theme: crate::term::TerminalTheme) -> (l: Lightness)
    ensures
        theme == crate::term::TerminalTheme::Dark ==> l.value == 42598,
        theme == crate::term::TerminalTheme::Light ==> l.value == 26214,
        l.wf(),
{
    match theme {
        crate::term::TerminalTheme::Dark => Lightness { value: 42598 },
        crate::term::TerminalTheme::Light => Lightness { value: 26214 },
    }
}

/// Whether `c` is a decimal digit.
pub open spec fn is_digit(c: char) -> bool {
    48 <= c as int && c as int <= 57
}

/// The value of a decimal digit.
pub open spec fn digit_value(c: char) -> int {
    c as int - 48
}

/// Whether every character of `s` is a decimal digit.
pub open spec fn all_digits(s: Seq<char>) -> bool {
    forall|i: int| 0 <= i < s.len() ==> is_digit(#[trigger] s[i])
}

/// The numeric value of a digit string, most significant digit first.
pub open spec fn digits_value(s: Seq<char>) -> int
    decreases s.len(),
{
    if s.len() == 0 {
        0
    } else {
        digits_value(s.drop_last()) * 10 + digit_value(s.last())
    }
}

/// The value of a fraction's digit string, scaled to six digits: digits
/// beyond the sixth are dropped.
pub open spec fn frac6_value(s: Seq<char>) -> int {
    digits_value((s + seq!['0', '0', '0', '0', '0', '0']).take(6))
}

/// What [`parse_lightness`] yields on a trimmed, lowercased input, as a
/// fixed-point value:
///
/// - the empty string, `unset` and `none` yield the default;
/// - a digit string, with or without a trailing `%`, is a percentage and
///   must not exceed one hundred;
/// - `digits.digits` (either side may be empty, not both) is a decimal
///   fraction and must not exceed one; fractional digits beyond the sixth
///   are dropped, and the result is rounded down to fixed point;
/// - anything else is rejected.
pub open spec fn parse_lightness_spec(s: Seq<char>, default: u32) -> Option<u32> {
    if s.len() == 0 || s == seq!['u', 'n', 's', 'e', 't'] || s == seq!['n', 'o', 'n', 'e'] {
        Some(default)
    } else if s.last() == '%' {
        let digits = s.drop_last();
        if digits.len() > 0 && all_digits(digits) && digits_value(digits) <= 100 {
            Some((digits_value(digits) * (FIXED_ONE as int) / 100) as u32)
        } else {
            None
        }
    } else if all_digits(s) {
        if digits_value(s) <= 100 {
            Some((digits_value(s) * (FIXED_ONE as int) / 100) as u32)
        } else {
            None
        }
    } else if first_dot(s) < s.len() {
        let j = first_dot(s);
        let int_part = s.take(j);
        let frac_part = s.skip(j + 1);
        if !(all_digits(int_part) && all_digits(frac_part)) || int_part.len() + frac_part.len()
            == 0 {
            None
        } else if digits_value(int_part) == 0 {
            Some((frac6_value(frac_part) * (FIXED_ONE as int) / 1000000) as u32)
        } else if digits_value(int_part) == 1 && all_zeros(frac_part) {
            Some(FIXED_ONE)
        } else {
            None
        }
    } else {
        None
    }
}

/// The index of the first `.` in `s`, or the length if there is none.
pub open spec fn first_dot(s: Seq<char>) -> int
    decreases s.len(),
{
    if s.len() == 0 {
        0
    } else if s[0] == '.' {
        0
    } else {
        1 + first_dot(s.drop_first())
    }
}

/// Whether every character of `s` is the digit zero.
pub open spec fn all_zeros(s: Seq<char>) -> bool {
    forall|i: int| 0 <= i < s.len() ==> #[trigger] s[i] == '0'
}

/// Ten to the `n`th power.
pub open spec fn pow10(n: int) -> int
    decreases n,
{
    if n <= 0 {
        1
    } else {
        10 * pow10(n - 1)
    }
}

/// Ten to any power is positive.
pub proof fn lemma_pow10_pos(n: int)
    ensures
        pow10(n) >= 1,
    decreases n,
{
    if n > 0 {
        lemma_pow10_pos(n - 1);
    }
}

/// Ten to the power is monotone in the exponent.
pub proof fn lemma_pow10_mono(a: int, b: int)
    requires
        a <= b,
    ensures
        pow10(a) <= pow10(b),
    decreases b - a,
{
    if a < b {
        lemma_pow10_mono(a, b - 1);
        lemma_pow10_pos(b - 1);
    }
}

/// The first seven powers of ten.
pub proof fn lemma_pow10_vals()
    ensures
        pow10(0) == 1,
        pow10(1) == 10,
        pow10(2) == 100,
        pow10(3) == 1000,
        pow10(4) == 10000,
        pow10(5) == 100000,
        pow10(6) == 1000000,
{
    assert(pow10(0) == 1);
    assert(pow10(1) == 10);
    assert(pow10(2) == 100);
    assert(pow10(3) == 1000);
    assert(pow10(4) == 10000);
    assert(pow10(5) == 100000);
    assert(pow10(6) == 1000000);
}

/// A digit string's value is nonnegative and below ten to its length.
pub proof fn lemma_digits_value_bound(s: Seq<char>)
    requires
        all_digits(s),
    ensures
        0 <= digits_value(s) < pow10(s.len() as int),
    decreases s.len(),
{
    if s.len() > 0 {
        assert(all_digits(s.drop_last()));
        lemma_digits_value_bound(s.drop_last());
    }
}

/// The value of `c` as a decimal digit, if it is one.
fn digit_of(c: char) -> (r: Option<u32>)
    ensures
        match r {
            Some(d) => is_digit(c) && d == digit_value(c),
            None => !is_digit(c),
        },
{
    if c == '0' {
        Some(0)
    } else if c == '1' {
        Some(1)
    } else if c == '2' {
        Some(2)
    } else if c == '3' {
        Some(3)
    } else if c == '4' {
        Some(4)
    } else if c == '5' {
        Some(5)
    } else if c == '6' {
        Some(6)
    } else if c == '7' {
        Some(7)
    } else if c == '8' {
        Some(8)
    } else if c == '9' {
        Some(9)
    } else {
        None
    }
}

/// Whether the characters of `v` in `[start, end)` are all decimal digits.
fn check_all_digits(v: &Vec<char>, start: usize, end: usize) -> (b: bool)
    requires
        start <= end <= v@.len(),
    ensures
        b == all_digits(v@.subrange(start as int, end as int)),
{
    let mut i: usize = start;
    while i < end
        invariant
            start <= i <= end <= v@.len(),
            forall|k: int| start <= k < i ==> is_digit(#[trigger] v@[k]),
        decreases end - i,
    {
        if digit_of(v[i]).is_none() {
            proof {
                assert(v@.subrange(start as int, end as int)[i - start] == v@[i as int]);
            }
            return false;
        }
        i += 1;
    }
    true
}

/// Whether the characters of `v` in `[start, end)` are all the digit zero.
fn check_all_zeros(v: &Vec<char>, start: usize, end: usize) -> (b: bool)
    requires
        start <= end <= v@.len(),
    ensures
        b == all_zeros(v@.subrange(start as int, end as int)),
{
    let mut i: usize = start;
    while i < end
        invariant
            start <= i <= end <= v@.len(),
            forall|k: int| start <= k < i ==> #[trigger] v@[k] == '0',
        decreases end - i,
    {
        if v[i] != '0' {
            proof {
                assert(v@.subrange(start as int, end as int)[i - start] == v@[i as int]);
            }
            return false;
        }
        i += 1;
    }
    true
}

/// The value of the digit string in `[start, end)`, saturating to `cap + 1`
/// as soon as it exceeds `cap`.
fn digits_value_capped(v: &Vec<char>, start: usize, end: usize, cap: u32) -> (r: u32)
    requires
        start <= end <= v@.len(),
        all_digits(v@.subrange(start as int, end as int)),
        cap <= 1000,
    ensures
        digits_value(v@.subrange(start as int, end as int)) <= cap ==> r == digits_value(
            v@.subrange(start as int, end as int),
        ),
        digits_value(v@.subrange(start as int, end as int)) > cap ==> r == cap + 1,
{
    let ghost whole = v@.subrange(start as int, end as int);
    let mut acc: u32 = 0;
    let mut i: usize = start;
    while i < end
        invariant
            start <= i <= end <= v@.len(),
            cap <= 1000,
            all_digits(whole),
            whole == v@.subrange(start as int, end as int),
            digits_value(v@.subrange(start as int, i as int)) <= cap ==> acc == digits_value(
                v@.subrange(start as int, i as int),
            ),
            digits_value(v@.subrange(start as int, i as int)) > cap ==> acc == cap + 1,
            acc <= cap + 1,
        decreases end - i,
    {
        let ghost prefix = v@.subrange(start as int, i as int);
        let ghost next = v@.subrange(start as int, i + 1);
        proof {
            assert(next.drop_last() =~= prefix);
            assert(forall|k: int| 0 <= k < next.len() ==> next[k] == whole[k]);
            assert(all_digits(next));
            assert(all_digits(prefix));
            lemma_digits_value_bound(prefix);
            assert(digits_value(next) == digits_value(prefix) * 10 + digit_value(v@[i as int]));
            assert(whole[i - start] == v@[i as int]);
            assert(is_digit(v@[i as int]));
        }
        let d: u32 = digit_of(v[i]).unwrap();
        if acc > cap {
            // value already exceeds the cap and can only grow
            proof {
                assert(digits_value(prefix) * 10 >= (cap + 1) * 10) by (nonlinear_arith)
                    requires
                        digits_value(prefix) >= cap + 1,
                ;
            }
        } else {
            acc = acc * 10 + d;
            if acc > cap {
                acc = cap + 1;
            }
        }
        i += 1;
    }
    proof {
        assert(v@.subrange(start as int, end as int) =~= whole);
    }
    acc
}

/// The six-digit scaled value of the fraction digits in `[start, end)`.
fn frac6_of(v: &Vec<char>, start: usize, end: usize) -> (r: u32)
    requires
        start <= end <= v@.len(),
        all_digits(v@.subrange(start as int, end as int)),
    ensures
        r == frac6_value(v@.subrange(start as int, end as int)),
        r <= 999999,
{
    let ghost sub = v@.subrange(start as int, end as int);
    let ghost padded = (sub + seq!['0', '0', '0', '0', '0', '0']).take(6);
    proof {
        assert(forall|k: int| 0 <= k < 6 ==> padded[k] == (if k < sub.len() {
            sub[k]
        } else {
            '0'
        }));
        assert(all_digits(padded));
    }
    let len: usize = end - start;
    let k: usize = if len < 6 {
        len
    } else {
        6
    };
    let mut acc: u32 = 0;
    let mut i: usize = 0;
    while i < k
        invariant
            i <= k <= 6,
            k <= len == end - start,
            start <= end <= v@.len(),
            sub == v@.subrange(start as int, end as int),
            padded.len() == 6,
            forall|t: int|
                0 <= t < 6 ==> #[trigger] padded[t] == (if t < sub.len() {
                    sub[t]
                } else {
                    '0'
                }),
            all_digits(padded),
            all_digits(sub),
            acc == digits_value(padded.take(i as int)),
            acc <= 999999,
        decreases k - i,
    {
        proof {
            assert(padded.take(i + 1).drop_last() =~= padded.take(i as int));
            assert(all_digits(padded.take(i + 1)));
            lemma_digits_value_bound(padded.take(i + 1));
            lemma_pow10_vals();
            lemma_pow10_mono(i + 1, 6);
        }
        proof {
            assert(padded[i as int] == sub[i as int]);
            assert(sub[i as int] == v@[start + i]);
            assert(is_digit(v@[start + i]));
        }
        let d: u32 = digit_of(v[start + i]).unwrap();
        acc = acc * 10 + d;
        i += 1;
    }
    while i < 6
        invariant
            k <= i <= 6,
            k <= len == end - start,
            k == (if len < 6 {
                len as int
            } else {
                6
            }),
            sub.len() == len,
            padded.len() == 6,
            forall|t: int|
                0 <= t < 6 ==> #[trigger] padded[t] == (if t < sub.len() {
                    sub[t]
                } else {
                    '0'
                }),
            all_digits(padded),
            acc == digits_value(padded.take(i as int)),
            acc <= 999999,
        decreases 6 - i,
    {
        proof {
            assert(padded.take(i + 1).drop_last() =~= padded.take(i as int));
            assert(padded[i as int] == '0');
            assert(all_digits(padded.take(i + 1)));
            lemma_digits_value_bound(padded.take(i + 1));
            lemma_pow10_vals();
            lemma_pow10_mono(i + 1, 6);
        }
        acc = acc * 10;
        i += 1;
    }
    proof {
        assert(padded.take(6) =~= padded);
        lemma_digits_value_bound(padded);
        lemma_pow10_vals();
    }
    acc
}

/// The index of the first `.` in `v`, or the length if there is none.
fn find_first_dot(v: &Vec<char>) -> (j: usize)
    ensures
        j == first_dot(v@),
        j <= v@.len(),
{
    let n: usize = v.len();
    let mut i: usize = 0;
    while i < n
        invariant
            i <= n == v@.len(),
            forall|k: int| 0 <= k < i ==> #[trigger] v@[k] != '.',
        decreases n - i,
    {
        if v[i] == '.' {
            proof {
                lemma_first_dot_frame(v@);
                if first_dot(v@) < i {
                    assert(v@[first_dot(v@)] != '.');
                    assert(false);
                }
                if first_dot(v@) > i {
                    assert(v@[i as int] != '.');
                    assert(false);
                }
            }
            return i;
        }
        i += 1;
    }
    proof {
        lemma_first_dot_frame(v@);
        if first_dot(v@) < v@.len() {
            assert(v@[first_dot(v@)] != '.');
            assert(false);
        }
    }
    n
}

/// The first dot sits within the string, on a `.`, with none before it.
pub proof fn lemma_first_dot_frame(s: Seq<char>)
    ensures
        0 <= first_dot(s) <= s.len(),
        first_dot(s) < s.len() ==> s[first_dot(s)] == '.',
        forall|k: int| 0 <= k < first_dot(s) ==> #[trigger] s[k] != '.',
    decreases s.len(),
{
    if s.len() > 0 && s[0] != '.' {
        lemma_first_dot_frame(s.drop_first());
        assert(forall|k: int| 0 <= k < first_dot(s.drop_first()) ==> #[trigger] s.drop_first()[k]
            != '.');
        assert(forall|k: int| 1 <= k < first_dot(s) ==> s.drop_first()[k - 1] == s[k]);
    }
}

/// Parses a user-supplied lightness value, already trimmed and lowercased.
/// The empty string, `unset` and `none` give the default; `45%` and `45` are
/// percentages; `.45` and `0.45` are decimal fractions.  Yields nothing
/// exactly when the input fits none of those forms or lies outside the unit
/// interval.
pub fn parse_lightness(s: &str, default: Lightness) -> (r: Option<Lightness>)
    requires
        default.wf(),
    ensures
        match r {
            Some(l) => l.wf() && parse_lightness_spec(s@, default.value) == Some(l.value),
            None => parse_lightness_spec(s@, default.value) is None,
        },
{
    let v = crate::text::str_chars(s);
    let n: usize = v.len();
    if n == 0 {
        return Some(default);
    }
    if n == 5 && v[0] == 'u' && v[1] == 'n' && v[2] == 's' && v[3] == 'e' && v[4] == 't' {
        proof {
            assert(s@ =~= seq!['u', 'n', 's', 'e', 't']);
        }
        return Some(default);
    }
    if n == 4 && v[0] == 'n' && v[1] == 'o' && v[2] == 'n' && v[3] == 'e' {
        proof {
            assert(s@ =~= seq!['n', 'o', 'n', 'e']);
        }
        return Some(default);
    }
    proof {
        assert(s@ != seq!['u', 'n', 's', 'e', 't'] && s@ != seq!['n', 'o', 'n', 'e']) by {
            if s@ == seq!['u', 'n', 's', 'e', 't'] {
                assert(s@.len() == 5 && s@[0] == 'u' && s@[1] == 'n' && s@[2] == 's' && s@[3] == 'e'
                    && s@[4] == 't');
            }
            if s@ == seq!['n', 'o', 'n', 'e'] {
                assert(s@.len() == 4 && s@[0] == 'n' && s@[1] == 'o' && s@[2] == 'n' && s@[3]
                    == 'e');
            }
        }
    }
    if v[n - 1] == '%' {
        proof {
            assert(s@.drop_last() =~= v@.subrange(0, n - 1));
        }
        if n == 1 || !check_all_digits(&v, 0, n - 1) {
            return None;
        }
        let val = digits_value_capped(&v, 0, n - 1, 100);
        if val > 100 {
            return None;
        }
        return Some(Lightness { value: val * FIXED_ONE / 100 });
    }
    proof {
        assert(v@.subrange(0, n as int) =~= s@);
    }
    if check_all_digits(&v, 0, n) {
        let val = digits_value_capped(&v, 0, n, 100);
        if val > 100 {
            return None;
        }
        return Some(Lightness { value: val * FIXED_ONE / 100 });
    }
    let j = find_first_dot(&v);
    if j == n {
        return None;
    }
    let int_ok = check_all_digits(&v, 0, j);
    let frac_ok = check_all_digits(&v, j + 1, n);
    proof {
        assert(s@.take(j as int) =~= v@.subrange(0, j as int));
        assert(s@.skip(j + 1) =~= v@.subrange(j + 1, n as int));
    }
    if !int_ok || !frac_ok || (j == 0 && j + 1 == n) {
        return None;
    }
    let ip = digits_value_capped(&v, 0, j, 1);
    if ip == 0 {
        let f6 = frac6_of(&v, j + 1, n);
        let value: u32 = ((f6 as u64) * (FIXED_ONE as u64) / 1000000) as u32;
        proof {
            assert(f6 * (FIXED_ONE as int) / 1000000 <= FIXED_ONE) by (nonlinear_arith)
                requires
                    f6 <= 999999,
            ;
        }
        return Some(Lightness { value });
    }
    if ip == 1 {
        if check_all_zeros(&v, j + 1, n) {
            return Some(Lightness { value: FIXED_ONE });
        }
        return None;
    }
    None
}

} // verus!

