//! A one-pole lowpass filter for the delay's feedback path.
//!
//! The filter equation is a weighted average of the new input and the
//! previous output:
//!
//! ```text
//! y[n] = (1 - a) * x[n] + a * y[n-1]
//! ```
//!
//! `a = 0` passes the input through unchanged; as `a` approaches 1 the
//! output freezes onto its own history, i.e. the smoothing gets heavier.
//! Run once per pass through the feedback loop, it makes each successive
//! echo a little darker, like the high-frequency loss of analog echo units.
//!
//! The coefficient is derived from a cutoff frequency,
//! `a = e^(-2π · cutoff / sample_rate)`: higher cutoff gives a smaller
//! coefficient and lighter filtering.  See [`coeff_spec`] for the exact
//! fixed-point computation.

use vstd::prelude::*;
use vstd::arithmetic::div_mod::{
    lemma_div_is_ordered, lemma_div_multiples_vanish, lemma_div_pos_is_pos,
    lemma_fundamental_div_mod, lemma_mod_bound, lemma_multiply_divide_le,
};
use crate::fixedpoint::{exp_neg, exp_neg_spec, sadd, sat_add_spec, smul, smul_spec, SCALE};

verus! {

/// 2π in Q32.32, rounded down.
pub const TWO_PI: i64 = 26986075409;

/// The lowest cutoff the filter accepts: 20 Hz in Q32.32.  The floor keeps
/// the coefficient away from 1.0, where the filter would stagnate.
pub const MIN_CUTOFF: i64 = 20 * SCALE;

/// The lowest supported sample rate, 100 Hz in Q32.32.  Below roughly 41 Hz
/// the cutoff range `[20 Hz, 0.49 * sample_rate]` would turn inside out.
pub const MIN_SAMPLE_RATE: i64 = 100 * SCALE;

/// The highest supported sample rate, 1 MHz in Q32.32 — far above any real
/// audio interface, and low enough that every intermediate product fits.
pub const MAX_SAMPLE_RATE: i64 = 1_000_000 * SCALE;

/// The coefficient for a cutoff frequency at a sample rate, both Q32.32 Hz:
/// the cutoff is clamped to `[20 Hz, 0.49 * sample_rate]` (the ceiling stays
/// clear of the Nyquist frequency), then `a = e^(-2π * cutoff / rate)`.
/// Higher cutoff gives a smaller coefficient, i.e. less smoothing.
pub open spec fn coeff_spec(cutoff: int, sample_rate: int) -> int {
    let hi = sample_rate * 49 / 100;
    let safe = if cutoff < MIN_CUTOFF as int {
        MIN_CUTOFF as int
    } else if cutoff > hi {
        hi
    } else {
        cutoff
    };
    exp_neg_spec(TWO_PI as int * safe / sample_rate)
}

/// A one-pole (6 dB/octave) IIR lowpass filter.
pub struct OnePoleFilter {
    /// The filter coefficient, in `[0, SCALE]` (i.e. `[0.0, 1.0]`).
    /// Higher means more filtering; 0 is full passthrough.
    pub coefficient: i64,
    /// The previous output sample: the filter's only memory cell.
    pub prev_output: i64,
}

impl OnePoleFilter {
    /// Structural invariant: the coefficient is a unit-range factor.
    pub open spec fn wf(self) -> bool {
        0 <= self.coefficient <= SCALE
    }

    /// One application of the filter equation in fixed point:
    /// `(1 - a) * x + a * prev`, each product truncated toward zero and the
    /// sum saturating.
    pub open spec fn step_spec(a: int, x: int, prev: int) -> int {
        sat_add_spec(smul_spec(x, SCALE as int - a), smul_spec(prev, a))
    }

    /// Create a filter initialized to passthrough: coefficient 0, no memory.
    pub fn new() -> (r: OnePoleFilter)
        ensures
            r.wf(),
            r.coefficient == 0i64,
            r.prev_output == 0i64,
    {
        OnePoleFilter { coefficient: 0, prev_output: 0 }
    }

    /// Recompute the coefficient for a cutoff frequency (Q32.32 Hz) at the
    /// given sample rate.  Called before every processed sample, so the
    /// filter tracks a cutoff parameter under continuous automation.
    pub fn set_cutoff(&mut self, cutoff: i64, sample_rate: i64)
        requires
            MIN_SAMPLE_RATE <= sample_rate <= MAX_SAMPLE_RATE,
        ensures
            final(self).wf(),
            final(self).coefficient == coeff_spec(cutoff as int, sample_rate as int),
            final(self).prev_output == old(self).prev_output,
    {
        let hi: i64 = ((sample_rate as u64) * 49 / 100) as i64;
        proof {
            // hi == sample_rate * 49 / 100, and 20 Hz <= hi, so the clamp
            // below is well ordered.
            assert(100 * (49 * SCALE as int) <= sample_rate as int * 49);
            lemma_div_is_ordered(100 * (49 * SCALE as int), sample_rate as int * 49, 100);
            lemma_div_multiples_vanish(49 * SCALE as int, 100);
        }
        let safe: i64 = if cutoff < MIN_CUTOFF {
            MIN_CUTOFF
        } else if cutoff > hi {
            hi
        } else {
            cutoff
        };
        proof {
            // The exponent 2π * safe / rate stays within [0, 4]:
            // 100 * safe <= 49 * rate and 49 * 2π < 400 together give
            // 2π * safe <= 4 * rate (all in Q32.32).
            lemma_fundamental_div_mod(sample_rate as int * 49, 100);
            lemma_mod_bound(sample_rate as int * 49, 100);
            assert(100 * (safe as int) <= 49 * (sample_rate as int));
            assert(100 * (TWO_PI as int * (safe as int)) <= 100 * ((4 * SCALE as int) * (
            sample_rate as int))) by (nonlinear_arith)
                requires
                    100 * (safe as int) <= 49 * (sample_rate as int),
                    0 <= sample_rate as int,
            ;
            lemma_multiply_divide_le(
                TWO_PI as int * (safe as int),
                sample_rate as int,
                4 * SCALE as int,
            );
            lemma_div_pos_is_pos(TWO_PI as int * (safe as int), sample_rate as int);
            assert(TWO_PI as int * (safe as int) == (TWO_PI as u128 * (safe as u128)) as int);
        }
        let t: i64 = ((TWO_PI as u128) * (safe as u128) / (sample_rate as u128)) as i64;
        self.coefficient = exp_neg(t);
    }

    /// Process one sample: return the filtered value and remember it as the
    /// new previous output.
    pub fn process(&mut self, input: i64) -> (r: i64)
        requires
            old(self).wf(),
        ensures
            final(self).wf(),
            r == OnePoleFilter::step_spec(
                old(self).coefficient as int,
                input as int,
                old(self).prev_output as int,
            ),
            final(self).prev_output == r,
            final(self).coefficient == old(self).coefficient,
    {
        let a: i64 = self.coefficient;
        let output: i64 = sadd(smul(input, SCALE - a), smul(self.prev_output, a));
        self.prev_output = output;
        output
    }

    /// Forget the previous output, so no filter memory leaks into the next
    /// playback session.  The coefficient is kept: it tracks the cutoff
    /// parameter, not the signal.
    pub fn reset(&mut self)
        ensures
            final(self).prev_output == 0i64,
            final(self).coefficient == old(self).coefficient,
            old(self).wf() ==> final(self).wf(),
    {
        self.prev_output = 0;
    }
}

/// Filter passthrough: with coefficient 0 the filter is the identity —
/// `process(x)` returns `x` exactly, whatever the stored memory holds.
pub proof fn lemma_filter_passthrough(x: i64, prev: i64)
    ensures
        OnePoleFilter::step_spec(0, x as int, prev as int) == x as int,
{
    let s = SCALE as int;
    if x >= 0 {
        vstd::arithmetic::div_mod::lemma_div_multiples_vanish(x as int, s);
        assert((x as int) * s == s * (x as int));
    } else {
        vstd::arithmetic::div_mod::lemma_div_multiples_vanish(-(x as int), s);
        assert((-(x as int)) * s == s * (-(x as int)));
    }
    assert(smul_spec(x as int, s - 0) == x as int);
    assert(smul_spec(prev as int, 0) == 0);
}

/// DC pass: a sample that equals the filter's memory is a fixed point of
/// the filter up to one quantum of truncation, at every coefficient — the
/// two weighted halves recombine to the input exactly, except that each
/// truncation can drop at most one least-significant bit.  Feeding a
/// constant therefore converges onto it and stays there.
pub proof fn lemma_filter_dc_fixed_point(a: i64, x: i64)
    requires
        0 <= a <= SCALE,
        -0x4000_0000_0000_0000 <= x <= 0x4000_0000_0000_0000,
    ensures
        x >= 0 ==> x - 1 <= OnePoleFilter::step_spec(a as int, x as int, x as int) <= x as int,
        x < 0 ==> x as int <= OnePoleFilter::step_spec(a as int, x as int, x as int) <= x + 1,
{
    let s = SCALE as int;
    let y: int = if x >= 0 {
        x as int
    } else {
        -(x as int)
    };
    let u = y * (s - a);
    let w = y * (a as int);
    assert(u + w == y * s) by (nonlinear_arith)
        requires
            u == y * (s - (a as int)),
            w == y * (a as int),
    ;
    assert(u >= 0) by (nonlinear_arith)
        requires
            u == y * (s - (a as int)),
            y >= 0,
            s - (a as int) >= 0,
    ;
    assert(w >= 0) by (nonlinear_arith)
        requires
            w == y * (a as int),
            y >= 0,
            (a as int) >= 0,
    ;
    lemma_fundamental_div_mod(u, s);
    lemma_mod_bound(u, s);
    lemma_fundamental_div_mod(w, s);
    lemma_mod_bound(w, s);
    assert(s * (u / s) + s * (w / s) == y * s - (u % s) - (w % s));
    assert(y * s == s * y) by (nonlinear_arith);
    let drop = y - u / s - w / s;
    assert(s * drop == (u % s) + (w % s)) by (nonlinear_arith)
        requires
            s * (u / s) + s * (w / s) == s * y - (u % s) - (w % s),
            drop == y - u / s - w / s,
    ;
    assert(0 <= drop <= 1);
    assert(u / s + w / s <= y) by (nonlinear_arith)
        requires
            s * drop == (u % s) + (w % s),
            0 <= (u % s) + (w % s),
            drop == y - u / s - w / s,
            s > 0,
    ;
}

/// DC convergence: one filter step scales the distance between the
/// filter's memory and the input by the coefficient — a proper fraction —
/// up to two quanta of truncation.  Written in exact integers, scaled by
/// `SCALE`: with `e = prev - x` and `e' = process(x) - x`, the value
/// `SCALE * e'` lies within `2 * SCALE` of `a * e`.  Iterating a constant
/// input therefore converges the output onto it, at every cutoff.
pub proof fn lemma_filter_dc_contraction(a: i64, x: i64, prev: i64)
    requires
        0 <= a <= SCALE,
        -0x2000_0000_0000_0000 <= x <= 0x2000_0000_0000_0000,
        -0x2000_0000_0000_0000 <= prev <= 0x2000_0000_0000_0000,
    ensures
        (SCALE as int) * (OnePoleFilter::step_spec(a as int, x as int, prev as int) - x)
            <= (a as int) * (prev as int - x as int) + 2 * (SCALE as int),
        (a as int) * (prev as int - x as int) - 2 * (SCALE as int)
            <= (SCALE as int) * (OnePoleFilter::step_spec(a as int, x as int, prev as int) - x),
{
    let s = SCALE as int;
    let t1 = smul_spec(x as int, s - (a as int));
    let t2 = smul_spec(prev as int, a as int);
    crate::fixedpoint::lemma_smul_close(x as int, s - (a as int));
    crate::fixedpoint::lemma_smul_close(prev as int, a as int);
    crate::fixedpoint::lemma_smul_bounds(x as int, s - (a as int));
    crate::fixedpoint::lemma_smul_bounds(prev as int, a as int);
    // Neither scaled term exceeds its sample, so the sum does not saturate.
    assert(OnePoleFilter::step_spec(a as int, x as int, prev as int) == t1 + t2);
    // The exact products recombine to x*SCALE plus the scaled distance.
    assert((x as int) * (s - (a as int)) + (prev as int) * (a as int) == (x as int) * s + (
    a as int) * (prev as int - x as int)) by (nonlinear_arith);
    assert(s * (t1 + t2) == s * t1 + s * t2) by (nonlinear_arith);
    assert((x as int) * s == s * (x as int)) by (nonlinear_arith);
}

} // verus!
