//! Render sink: maps smoothed magnitudes to text bar lines. The bar length is
//! a fixed monotonic transform of the magnitude — the square root of the
//! frequency-weighted magnitude, scaled down, with a noise floor below which
//! a bin renders as an empty bar. Each line has the shape
//! `<derived_value> - <frequency>Hz => <bar>` with one marker character per
//! unit of derived value. This stage only reads its inputs.

use vstd::prelude::*;
use vstd::arithmetic::div_mod::lemma_div_is_ordered;
use vstd::arithmetic::mul::{lemma_mul_inequality, lemma_mul_upper_bound};

use crate::smooth::SmoothedState;
use crate::spectrum::SpectrumFrame;

verus! {

/// ASCII space.
pub const SPACE: u8 = 32;

/// ASCII `-`.
pub const DASH: u8 = 45;

/// ASCII `H`.
pub const UPPER_H: u8 = 72;

/// ASCII `z`.
pub const LOWER_Z: u8 = 122;

/// ASCII `=`.
pub const EQUALS: u8 = 61;

/// ASCII `>`.
pub const GREATER: u8 = 62;

/// ASCII `|`, the bar marker.
pub const MARKER: u8 = 124;

/// ASCII `[`.
pub const BRACKET: u8 = 91;

/// ASCII `2`.
pub const DIGIT_TWO: u8 = 50;

/// ASCII `J`.
pub const UPPER_J: u8 = 74;

/// ASCII `1`.
pub const DIGIT_ONE: u8 = 49;

/// ASCII `;`.
pub const SEMI: u8 = 59;

/// Divisor applied to the root of the frequency-weighted magnitude.
pub const BAR_SCALE: u64 = 3000;

/// Scaled values at or below this threshold render as an empty bar.
pub const NOISE_FLOOR: u64 = 30;

/// Floor of the square root of a natural number.
pub open spec fn isqrt_spec(x: nat) -> nat
    decreases x,
{
    if x == 0 {
        0
    } else {
        let r = 2 * isqrt_spec(x / 4);
        if (r + 1) * (r + 1) <= x {
            r + 1
        } else {
            r
        }
    }
}

/// The defining bounds of the integer square root.
pub proof fn lemma_isqrt_bounds(x: nat)
    ensures
        isqrt_spec(x) * isqrt_spec(x) <= x,
        x < (isqrt_spec(x) + 1) * (isqrt_spec(x) + 1),
    decreases x,
{
    if x > 0 {
        lemma_isqrt_bounds(x / 4);
        let q = isqrt_spec(x / 4);
        let r = 2 * q;
        assert(4 * (x / 4) <= x < 4 * (x / 4) + 4);
        assert(r * r == 4 * (q * q)) by (nonlinear_arith)
            requires
                r == 2 * q,
        ;
        assert((r + 2) * (r + 2) == 4 * ((q + 1) * (q + 1))) by (nonlinear_arith)
            requires
                r == 2 * q,
        ;
        assert(r * r <= 4 * (x / 4));
        assert(4 * ((q + 1) * (q + 1)) >= 4 * (x / 4 + 1));
        if (r + 1) * (r + 1) <= x {
            assert(isqrt_spec(x) == r + 1);
            assert((r + 1 + 1) * (r + 1 + 1) == (r + 2) * (r + 2)) by (nonlinear_arith);
            assert(x < (r + 2) * (r + 2));
        } else {
            assert(isqrt_spec(x) == r);
        }
        assert(isqrt_spec(x) * isqrt_spec(x) <= x);
        assert(x < (isqrt_spec(x) + 1) * (isqrt_spec(x) + 1));
    } else {
        assert(isqrt_spec(x) == 0);
        assert(isqrt_spec(x) * isqrt_spec(x) <= x);
        assert(x < (isqrt_spec(x) + 1) * (isqrt_spec(x) + 1)) by (nonlinear_arith)
            requires
                x == 0 && isqrt_spec(x) == 0,
        ;
    }
}

/// Any value meeting the integer-square-root bounds is the integer square
/// root: the bounds pin it down uniquely.
pub proof fn lemma_isqrt_unique(x: nat, r: nat)
    requires
        r * r <= x,
        x < (r + 1) * (r + 1),
    ensures
        r == isqrt_spec(x),
{
    let s = isqrt_spec(x);
    lemma_isqrt_bounds(x);
    if r < s {
        lemma_mul_inequality(r + 1 as int, s as int, r + 1 as int);
        lemma_mul_inequality(r + 1 as int, s as int, s as int);
        assert((r + 1) * (r + 1) <= s * s);
    }
    if s < r {
        lemma_mul_inequality(s + 1 as int, r as int, s + 1 as int);
        lemma_mul_inequality(s + 1 as int, r as int, r as int);
        assert((s + 1) * (s + 1) <= r * r);
    }
}

/// Integer square root by bisection.
pub fn isqrt(x: u128) -> (r: u64)
    ensures
        r as nat == isqrt_spec(x as nat),
{
    let mut lo: u128 = 0;
    let mut hi: u128 = 0x1_0000_0000_0000_0000;
    while hi - lo > 1
        invariant
            lo < hi <= 0x1_0000_0000_0000_0000u128,
            lo * lo <= x,
            (x as int) < (hi as int) * (hi as int),
        decreases hi - lo,
    {
        let mid = lo + (hi - lo) / 2;
        proof {
            lemma_mul_upper_bound(
                mid as int,
                0xffff_ffff_ffff_ffffu64 as int,
                mid as int,
                0xffff_ffff_ffff_ffffu64 as int,
            );
        }
        if mid * mid <= x {
            lo = mid;
        } else {
            hi = mid;
        }
    }
    proof {
        assert(hi == lo + 1);
        lemma_isqrt_unique(x as nat, lo as nat);
    }
    lo as u64
}

/// The bar length rendered for one bin: the square root of magnitude times
/// frequency, divided by the fixed scale, with everything at or below the
/// noise floor clamped to an empty bar and the floor subtracted above it.
pub open spec fn bar_spec(mag: u64, freq: u32) -> nat {
    let raw = isqrt_spec((mag * freq) as nat) / (BAR_SCALE as nat);
    if raw <= NOISE_FLOOR {
        0
    } else {
        (raw - NOISE_FLOOR) as nat
    }
}

/// The rendering policy is monotonic: at one frequency, a larger magnitude
/// never renders as a shorter bar.
pub proof fn lemma_bar_monotone(m1: u64, m2: u64, f: u32)
    requires
        m1 <= m2,
    ensures
        bar_spec(m1, f) <= bar_spec(m2, f),
{
    let x1 = (m1 * f) as nat;
    let x2 = (m2 * f) as nat;
    lemma_mul_inequality(m1 as int, m2 as int, f as int);
    assert(m1 * f >= 0) by (nonlinear_arith);
    let s1 = isqrt_spec(x1);
    let s2 = isqrt_spec(x2);
    lemma_isqrt_bounds(x1);
    lemma_isqrt_bounds(x2);
    if s1 > s2 {
        lemma_mul_inequality(s2 + 1 as int, s1 as int, s2 + 1 as int);
        lemma_mul_inequality(s2 + 1 as int, s1 as int, s1 as int);
        assert((s2 + 1) * (s2 + 1) <= s1 * s1);
    }
    lemma_div_is_ordered(s1 as int, s2 as int, BAR_SCALE as int);
}

/// Compute the bar length for one bin.
pub fn bar_length(mag: u64, freq: u32) -> (r: u64)
    ensures
        r as nat == bar_spec(mag, freq),
{
    proof {
        lemma_mul_upper_bound(mag as int, u64::MAX as int, freq as int, u32::MAX as int);
        assert(mag * freq >= 0) by (nonlinear_arith);
    }
    let s = isqrt(mag as u128 * freq as u128);
    let raw = s / BAR_SCALE;
    if raw <= NOISE_FLOOR {
        0
    } else {
        raw - NOISE_FLOOR
    }
}

/// The decimal digits of a number, most significant first, as ASCII bytes.
pub open spec fn dec_spec(n: nat) -> Seq<u8>
    decreases n,
{
    if n < 10 {
        seq![(48 + n) as u8]
    } else {
        dec_spec(n / 10).push((48 + n % 10) as u8)
    }
}

/// Write a number in decimal, most significant digit first.
pub fn dec_u64(n: u64) -> (r: Vec<u8>)
    ensures
        r@ == dec_spec(n as nat),
    decreases n,
{
    if n < 10 {
        let mut r: Vec<u8> = Vec::new();
        r.push(48 + n as u8);
        proof {
            assert(r@ =~= dec_spec(n as nat));
        }
        r
    } else {
        let mut r = dec_u64(n / 10);
        r.push(48 + (n % 10) as u8);
        proof {
            assert(r@ =~= dec_spec(n as nat));
        }
        r
    }
}

/// The bytes of one rendered line for a bin of the given frequency and bar
/// length: the derived value, a dash, the frequency label, an arrow, and one
/// `|` marker per unit of derived value.
pub open spec fn line_spec(freq: u32, bar: nat) -> Seq<u8> {
    dec_spec(bar) + seq![SPACE, DASH, SPACE] + dec_spec(freq as nat) + seq![
        UPPER_H,
        LOWER_Z,
        SPACE,
        EQUALS,
        GREATER,
        SPACE,
    ] + Seq::new(bar, |i: int| MARKER)
}

/// Render one line from a bin's frequency and its smoothed magnitude.
pub fn render_line(freq: u32, mag: u64) -> (line: Vec<u8>)
    ensures
        line@ == line_spec(freq, bar_spec(mag, freq)),
{
    let bar = bar_length(mag, freq);
    let mut line = dec_u64(bar);
    line.push(SPACE);
    line.push(DASH);
    line.push(SPACE);
    let mut freq_digits = dec_u64(freq as u64);
    line.append(&mut freq_digits);
    line.push(UPPER_H);
    line.push(LOWER_Z);
    line.push(SPACE);
    line.push(EQUALS);
    line.push(GREATER);
    line.push(SPACE);
    let ghost head = line@;
    let mut i: u64 = 0;
    while i < bar
        invariant
            i <= bar,
            line@ == head + Seq::new(i as nat, |j: int| MARKER),
        decreases bar - i,
    {
        line.push(MARKER);
        proof {
            assert(line@ =~= head + Seq::new((i + 1) as nat, |j: int| MARKER));
        }
        i = i + 1;
    }
    proof {
        assert(line@ =~= line_spec(freq, bar_spec(mag, freq)));
    }
    line
}

/// The terminal control bytes that reset the cursor and clear the visible
/// screen before a frame is drawn, so the display refreshes in place.
pub open spec fn clear_spec() -> Seq<u8> {
    seq![0x1bu8, BRACKET, DIGIT_TWO, UPPER_J, 0x1bu8, BRACKET, DIGIT_ONE, SEMI, DIGIT_ONE, UPPER_H]
}

/// The clear-and-home control prefix emitted before each rendered frame.
pub fn clear_sequence() -> (r: Vec<u8>)
    ensures
        r@ == clear_spec(),
{
    let mut r: Vec<u8> = Vec::new();
    r.push(0x1b);
    r.push(BRACKET);
    r.push(DIGIT_TWO);
    r.push(UPPER_J);
    r.push(0x1b);
    r.push(BRACKET);
    r.push(DIGIT_ONE);
    r.push(SEMI);
    r.push(DIGIT_ONE);
    r.push(UPPER_H);
    proof {
        assert(r@ =~= clear_spec());
    }
    r
}

/// Render one full frame: one line per bin, pairing the frame's fixed
/// frequencies positionally with the smoothed magnitudes. Neither input is
/// mutated.
pub fn render_frame(frame: &SpectrumFrame, state: &SmoothedState) -> (lines: Vec<Vec<u8>>)
    requires
        frame.bins@.len() == state.spec_len(),
    ensures
        lines@.len() == frame.bins@.len(),
        forall|i: int|
            0 <= i < lines@.len() ==> lines@[i]@ == line_spec(
                frame.bins@[i].freq,
                bar_spec(state.values@[i], frame.bins@[i].freq),
            ),
{
    let mut lines: Vec<Vec<u8>> = Vec::new();
    let n = frame.bins.len();
    let mut i: usize = 0;
    while i < n
        invariant
            n == frame.bins@.len() == state.spec_len(),
            i <= n,
            lines@.len() == i,
            forall|j: int|
                0 <= j < i ==> lines@[j]@ == line_spec(
                    frame.bins@[j].freq,
                    bar_spec(state.values@[j], frame.bins@[j].freq),
                ),
        decreases n - i,
    {
        let f = frame.bins[i].freq;
        let line = render_line(f, state.values[i]);
        lines.push(line);
        i = i + 1;
    }
    lines
}

} // verus!
