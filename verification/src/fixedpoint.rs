//! Q32.32 fixed-point sample arithmetic.
//!
//! Audio samples, parameter values and delay amounts are all carried as
//! signed 64-bit fixed-point numbers with 32 fractional bits: the value 1.0
//! is [`SCALE`].  This gives a sample range of about ±2·10⁹ full-scale units
//! at a resolution of 2⁻³² ≈ 2.3·10⁻¹⁰, far finer than any audible artifact,
//! while keeping the whole signal path in exact integer arithmetic that the
//! verifier can reason about directly.
//!
//! The two primitives of the signal path are [`smul`] (scale a sample by a
//! unit-range factor, truncating toward zero) and [`sadd`] (saturating
//! addition: instead of failing mid-stream, a sum beyond the 64-bit range
//! degrades gracefully to the nearest representable value).

use vstd::prelude::*;
use vstd::arithmetic::div_mod::{
    lemma_div_is_ordered, lemma_div_is_ordered_by_denominator, lemma_div_multiples_vanish,
    lemma_div_pos_is_pos, lemma_fundamental_div_mod, lemma_mod_bound, lemma_multiply_divide_le,
};

verus! {

/// The fixed-point unit: 1.0 in Q32.32.
pub const SCALE: i64 = 0x1_0000_0000;

/// Saturating 64-bit addition: the exact sum, clamped to the `i64` range.
pub open spec fn sat_add_spec(a: int, b: int) -> int {
    if a + b > i64::MAX as int {
        i64::MAX as int
    } else if a + b < i64::MIN as int {
        i64::MIN as int
    } else {
        a + b
    }
}

/// Scale `a` by the unit-range factor `c / SCALE`, truncating toward zero.
///
/// For `c` in `[0, SCALE]` the result never exceeds `a` in magnitude, so a
/// scaled sample always stays representable.
pub open spec fn smul_spec(a: int, c: int) -> int {
    if a >= 0 {
        (a * c) / (SCALE as int)
    } else {
        -(((-a) * c) / (SCALE as int))
    }
}

/// Truncation in [`smul_spec`] loses less than one quantum: scaled back
/// up by `SCALE`, the result sits within `SCALE` of the exact product.
pub proof fn lemma_smul_close(v: int, c: int)
    requires
        0 <= c <= SCALE as int,
    ensures
        v * c - (SCALE as int) * smul_spec(v, c) < SCALE as int,
        -(SCALE as int) < v * c - (SCALE as int) * smul_spec(v, c),
{
    let s = SCALE as int;
    if v >= 0 {
        lemma_fundamental_div_mod(v * c, s);
        lemma_mod_bound(v * c, s);
    } else {
        lemma_fundamental_div_mod((-v) * c, s);
        lemma_mod_bound((-v) * c, s);
        assert((-v) * c == -(v * c)) by (nonlinear_arith);
    }
}

/// The scaled product never exceeds the sample in magnitude: `smul_spec`
/// with a unit-range factor shrinks toward zero.
pub proof fn lemma_smul_bounds(v: int, c: int)
    requires
        0 <= c <= SCALE as int,
    ensures
        v >= 0 ==> 0 <= smul_spec(v, c) <= v,
        v < 0 ==> v <= smul_spec(v, c) <= 0,
{
    let s = SCALE as int;
    let y: int = if v >= 0 {
        v
    } else {
        -v
    };
    assert(y * c <= y * s) by (nonlinear_arith)
        requires
            0 <= y,
            c <= s,
    ;
    assert(y * c >= 0) by (nonlinear_arith)
        requires
            0 <= y,
            0 <= c,
    ;
    lemma_div_is_ordered(y * c, y * s, s);
    lemma_div_multiples_vanish(y, s);
    assert(y * s == s * y);
    lemma_div_pos_is_pos(y * c, s);
}

/// Saturating addition of two samples.
pub fn sadd(a: i64, b: i64) -> (r: i64)
    ensures
        r == sat_add_spec(a as int, b as int),
{
    let s: i128 = a as i128 + b as i128;
    if s > i64::MAX as i128 {
        i64::MAX
    } else if s < i64::MIN as i128 {
        i64::MIN
    } else {
        s as i64
    }
}

/// Scale the sample `a` by the unit-range factor `c / SCALE`.
///
/// The factor is restricted to `[0, SCALE]`, i.e. to `[0.0, 1.0]`: every
/// gain on the signal path (interpolation weight, filter coefficient,
/// feedback, mix) lies in that range, and under it the product cannot
/// overflow.
pub fn smul(a: i64, c: i64) -> (r: i64)
    requires
        0 <= c <= SCALE,
    ensures
        r == smul_spec(a as int, c as int),
        a >= 0 ==> 0 <= r <= a,
        a < 0 ==> a <= r <= 0,
{
    let m: i128 = a as i128;
    let mag: u128 = if m < 0 {
        (-m) as u128
    } else {
        m as u128
    };
    let cc: u128 = c as u128;
    proof {
        assert(mag <= 0x8000_0000_0000_0000u128);
        assert(mag * cc <= 0x8000_0000_0000_0000u128 * 0x1_0000_0000u128)
            by (nonlinear_arith)
            requires
                mag <= 0x8000_0000_0000_0000u128,
                cc <= 0x1_0000_0000u128,
        ;
    }
    let p: u128 = (mag * cc) / (SCALE as u128);
    proof {
        assert(mag as int * cc as int <= mag as int * SCALE as int) by (nonlinear_arith)
            requires
                0 <= mag as int,
                cc as int <= SCALE as int,
        ;
        lemma_div_is_ordered(mag as int * cc as int, mag as int * SCALE as int, SCALE as int);
        lemma_div_multiples_vanish(mag as int, SCALE as int);
        assert(mag as int * SCALE as int == SCALE as int * mag as int);
        assert(p <= mag);
        lemma_div_pos_is_pos(mag as int * cc as int, SCALE as int);
    }
    if m < 0 {
        (-(p as i128)) as i64
    } else {
        p as i64
    }
}

/// `(a * b) / SCALE` on non-negative unit-range values: the building block
/// of the polynomial evaluations below.  The result never exceeds either
/// factor.
fn unit_mul(a: u64, b: u64) -> (r: u64)
    requires
        a <= SCALE as u64,
        b <= SCALE as u64,
    ensures
        r as int == (a as int * b as int) / (SCALE as int),
        r <= a,
        r <= b,
{
    proof {
        assert((a as u128) * (b as u128) <= 0x1_0000_0000u128 * 0x1_0000_0000u128)
            by (nonlinear_arith)
            requires
                a as u128 <= 0x1_0000_0000u128,
                b as u128 <= 0x1_0000_0000u128,
        ;
    }
    let p: u128 = (a as u128) * (b as u128);
    proof {
        assert(p as int == a as int * b as int);
        assert(a as int * b as int <= a as int * SCALE as int) by (nonlinear_arith)
            requires
                0 <= a as int,
                b as int <= SCALE as int,
        ;
        assert(a as int * b as int <= b as int * SCALE as int) by (nonlinear_arith)
            requires
                0 <= b as int,
                a as int <= SCALE as int,
        ;
        lemma_div_is_ordered(a as int * b as int, a as int * SCALE as int, SCALE as int);
        lemma_div_is_ordered(a as int * b as int, b as int * SCALE as int, SCALE as int);
        lemma_div_multiples_vanish(a as int, SCALE as int);
        lemma_div_multiples_vanish(b as int, SCALE as int);
        lemma_div_pos_is_pos(a as int * b as int, SCALE as int);
    }
    (p / (SCALE as u128)) as u64
}

/// `e^(-t)` for a Q32.32 argument `t` in `[0, 4]`, as computed by
/// [`exp_neg`]: the fourth-order Taylor polynomial of `e^(-t/4)`, raised to
/// the fourth power by two squarings.  All divisions truncate.
pub open spec fn exp_neg_spec(t: int) -> int {
    let s = SCALE as int;
    let y = t / 4;
    let y2 = (y * y) / s;
    let y3 = (y2 * y) / s;
    let y4 = (y3 * y) / s;
    let p = s + y2 / 2 + y4 / 24 - y - y3 / 6;
    let p2 = (p * p) / s;
    (p2 * p2) / s
}

/// Decaying exponential `e^(-t)`, exact per [`exp_neg_spec`] and proved to
/// stay a unit-range factor.  The argument range `[0, 4]` covers every
/// value the filter can ask for: its exponent is at most `2π · 0.49`.
pub fn exp_neg(t: i64) -> (r: i64)
    requires
        0 <= t <= 4 * SCALE,
    ensures
        r == exp_neg_spec(t as int),
        0 <= r <= SCALE,
{
    let y: u64 = (t as u64) / 4;
    proof {
        lemma_div_is_ordered(t as int, 4 * SCALE as int, 4);
        lemma_div_multiples_vanish(SCALE as int, 4);
    }
    let y2: u64 = unit_mul(y, y);
    let y3: u64 = unit_mul(y2, y);
    let y4: u64 = unit_mul(y3, y);
    let pos: u64 = SCALE as u64 + y2 / 2 + y4 / 24;
    let negp: u64 = y + y3 / 6;
    proof {
        // The subtracted part stays below the added part ...
        lemma_div_is_ordered(y3 as int, y2 as int, 6);
        lemma_div_is_ordered_by_denominator(y2 as int, 2, 6);
        assert(negp <= pos);
        // ... and by no more than SCALE, since y2/2 + y4/24 <= y/2 + y/24 <= y.
        lemma_div_is_ordered(y2 as int, y as int, 2);
        lemma_div_is_ordered(y4 as int, y as int, 24);
        lemma_fundamental_div_mod(y as int, 2);
        lemma_div_is_ordered_by_denominator(y as int, 2, 24);
        assert(pos - negp <= SCALE as u64);
    }
    let p: u64 = pos - negp;
    let p2: u64 = unit_mul(p, p);
    let r: u64 = unit_mul(p2, p2);
    r as i64
}

/// ln 2 in Q32.32, rounded down.
pub const LN2: i64 = 2977044471;

/// 3 · ln 10 in Q32.32, rounded down: the −60 dB point expressed in nats.
pub const THREE_LN10: i64 = 29668583011;

/// Natural logarithm of a Q32.32 argument, as computed by [`ln_q`]: halve
/// the argument into `[1, 2)`, counting `ln 2` per halving, then evaluate
/// three terms of `ln m = 2 * atanh((m-1)/(m+1))`.
pub open spec fn ln_spec(z: int) -> int
    decreases z,
{
    if z >= 2 * (SCALE as int) {
        ln_spec(z / 2) + LN2 as int
    } else {
        let s = SCALE as int;
        let w = ((z - s) * s) / (z + s);
        let w2 = (w * w) / s;
        let w3 = (w2 * w) / s;
        let w5 = (w3 * w2) / s;
        2 * w + 2 * w3 / 3 + 2 * w5 / 5
    }
}

/// Natural logarithm of a Q32.32 argument in `[1, 1024]`, exact per
/// [`ln_spec`].  For arguments a thirty-second above 1 the result is also
/// bounded away from zero, so callers may divide by it.
pub fn ln_q(z: u64) -> (r: i64)
    requires
        SCALE as u64 <= z <= 1024 * (SCALE as u64),
    ensures
        r == ln_spec(z as int),
        0 <= r,
        z as int >= SCALE as int + SCALE as int / 32 ==> r >= SCALE as int / 64,
{
    let mut m: u64 = z;
    let mut k: u64 = 0;
    proof {
        vstd::arithmetic::power2::lemma2_to64();
    }
    while m >= 2 * (SCALE as u64)
        invariant
            SCALE as u64 <= m <= z <= 1024 * (SCALE as u64),
            k <= 10,
            k == 0 ==> m == z,
            m as nat * vstd::arithmetic::power2::pow2(k as nat) <= 1024 * (SCALE as nat),
            ln_spec(z as int) == ln_spec(m as int) + k as int * (LN2 as int),
        decreases m,
    {
        proof {
            vstd::arithmetic::power2::lemma2_to64();
            vstd::arithmetic::power2::lemma_pow2_unfold(k as nat + 1);
            lemma_fundamental_div_mod(m as int, 2);
            assert((m / 2) as nat * vstd::arithmetic::power2::pow2(k as nat + 1) <= m as nat
                * vstd::arithmetic::power2::pow2(k as nat)) by (nonlinear_arith)
                requires
                    vstd::arithmetic::power2::pow2(k as nat + 1) == 2
                        * vstd::arithmetic::power2::pow2(k as nat),
                    2 * ((m / 2) as nat) <= m as nat,
            ;
            if k == 10 {
                assert(m as nat * 1024 <= 1024 * (SCALE as nat));
                assert(false);
            }
        }
        m = m / 2;
        k = k + 1;
    }
    proof {
        assert(((m - SCALE as u64) as u128) * (SCALE as u128) < 0x1_0000_0000u128
            * 0x1_0000_0000u128) by (nonlinear_arith)
            requires
                ((m - SCALE as u64) as u128) < 0x1_0000_0000u128,
        ;
    }
    let w: u64 = (((m - SCALE as u64) as u128) * (SCALE as u128) / ((m + SCALE as u64) as u128))
        as u64;
    proof {
        // w <= SCALE / 2, since 2 * (m - 1) <= m + 1 for m < 2.
        assert((m as int - SCALE as int) * (SCALE as int) <= (m as int + SCALE as int) * (
        SCALE as int / 2)) by (nonlinear_arith)
            requires
                SCALE as int <= m as int,
                (m as int) < 2 * (SCALE as int),
        ;
        lemma_multiply_divide_le(
            (m as int - SCALE as int) * (SCALE as int),
            m as int + SCALE as int,
            SCALE as int / 2,
        );
        lemma_div_pos_is_pos((m as int - SCALE as int) * (SCALE as int), m as int + SCALE as int);
    }
    let w2: u64 = unit_mul(w, w);
    let w3: u64 = unit_mul(w2, w);
    let w5: u64 = unit_mul(w3, w2);
    let series: u64 = 2 * w + 2 * w3 / 3 + 2 * w5 / 5;
    let r: i64 = (series + k * (LN2 as u64)) as i64;
    proof {
        if z as int >= SCALE as int + SCALE as int / 32 {
            if k == 0 {
                // m == z is at least 1/32 above 1, so w, and with it the
                // series, is bounded away from zero.
                assert((SCALE as int / 32) * (SCALE as int) <= (m as int - SCALE as int) * (
                SCALE as int)) by (nonlinear_arith)
                    requires
                        SCALE as int / 32 <= m as int - SCALE as int,
                ;
                lemma_div_is_ordered(
                    (SCALE as int / 32) * (SCALE as int),
                    (m as int - SCALE as int) * (SCALE as int),
                    m as int + SCALE as int,
                );
                vstd::arithmetic::div_mod::lemma_div_is_ordered_by_denominator(
                    (SCALE as int / 32) * (SCALE as int),
                    m as int + SCALE as int,
                    3 * (SCALE as int),
                );
                assert(w as int >= (SCALE as int / 32) * (SCALE as int) / (3 * (SCALE as int)));
            }
        }
    }
    r
}

} // verus!
