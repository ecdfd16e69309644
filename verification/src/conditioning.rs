//! The signal-conditioning stages: a strictly ordered sequence of in-place
//! transforms over one burst. Every stage is a pure function of the burst
//! and the configuration values it is given.

use vstd::prelude::*;
use crate::sample::{
    burst_bounded, iabs, lemma_abs_mul, lemma_sdiv_bound, lemma_sdiv_exact, sample_bounded,
    scale_div, sdiv, Sample, COND_CAP, DC_CAP, FIXED_ONE, GAIN_MAX, IQ_CAP, MAX_BURST_LEN,
    RAW_CAP, ROT_CAP, TARGET_LEVEL,
};

verus! {

/// A wider sample bound also holds wherever a narrower one does.
pub proof fn lemma_burst_bounded_widen(s: Seq<Sample>, b1: int, b2: int)
    requires
        burst_bounded(s, b1),
        b1 <= b2,
    ensures
        burst_bounded(s, b2),
{
}

/// One step of the exponential smoothing that tracks the DC component:
/// `estimate * (1 - alpha) + x * alpha`, in Q16.
pub open spec fn dc_advance(est: int, x: int, alpha: int) -> int {
    sdiv(est * (FIXED_ONE - alpha) + x * alpha, FIXED_ONE as int)
}

/// The running DC estimate held before sample `i` is corrected: the
/// exponential smoothing of the original samples `0 .. i`, starting from
/// zero. The pair holds the in-phase and quadrature components.
pub open spec fn dc_estimate(s: Seq<Sample>, alpha: int, i: int) -> (int, int)
    decreases i,
{
    if i <= 0 {
        (0int, 0int)
    } else {
        let prev = dc_estimate(s, alpha, i - 1);
        (
            dc_advance(prev.0, s[i - 1].re as int, alpha),
            dc_advance(prev.1, s[i - 1].im as int, alpha),
        )
    }
}

/// What DC-offset removal leaves at position `i`: the original sample with
/// the estimate current at that position subtracted.
pub open spec fn dc_removed_at(s: Seq<Sample>, alpha: int, i: int) -> Sample {
    let est = dc_estimate(s, alpha, i);
    Sample { re: (s[i].re - est.0) as i64, im: (s[i].im - est.1) as i64 }
}

/// The DC estimate never leaves a bound that holds of every sample.
pub proof fn lemma_dc_estimate_bounded(s: Seq<Sample>, alpha: int, i: int, b: int)
    requires
        0 < alpha <= FIXED_ONE,
        0 <= b,
        burst_bounded(s, b),
        0 <= i <= s.len(),
    ensures
        -b <= dc_estimate(s, alpha, i).0 <= b,
        -b <= dc_estimate(s, alpha, i).1 <= b,
    decreases i,
{
    if i > 0 {
        lemma_dc_estimate_bounded(s, alpha, i - 1, b);
        let prev = dc_estimate(s, alpha, i - 1);
        let x = s[i - 1];
        lemma_abs_mul(prev.0, b, FIXED_ONE - alpha, FIXED_ONE - alpha);
        lemma_abs_mul(prev.1, b, FIXED_ONE - alpha, FIXED_ONE - alpha);
        lemma_abs_mul(x.re as int, b, alpha, alpha);
        lemma_abs_mul(x.im as int, b, alpha, alpha);
        assert(b * (FIXED_ONE - alpha) + b * alpha == b * FIXED_ONE) by (nonlinear_arith);
        lemma_sdiv_bound(prev.0 * (FIXED_ONE - alpha) + x.re * alpha, FIXED_ONE as int, b);
        lemma_sdiv_bound(prev.1 * (FIXED_ONE - alpha) + x.im * alpha, FIXED_ONE as int, b);
    }
}

/// DC-offset removal: each sample has the current running estimate
/// subtracted, then the estimate is advanced to include that sample —
/// a causal, single-pass IIR high-pass filter with factor `alpha` in
/// (0, 1] of Q16.
pub fn dc_offset_removal(buffer: &mut Vec<Sample>, alpha: i64)
    requires
        0 < alpha <= FIXED_ONE,
        burst_bounded(old(buffer)@, RAW_CAP as int),
    ensures
        final(buffer)@.len() == old(buffer)@.len(),
        forall|i: int| 0 <= i < old(buffer)@.len() ==>
            #[trigger] final(buffer)@[i] == dc_removed_at(old(buffer)@, alpha as int, i),
        burst_bounded(final(buffer)@, DC_CAP as int),
{
    let ghost orig = buffer@;
    let n: usize = buffer.len();
    let mut est_re: i64 = 0;
    let mut est_im: i64 = 0;
    let mut i: usize = 0;
    while i < n
        invariant
            n == orig.len(),
            buffer@.len() == n,
            i <= n,
            0 < alpha <= FIXED_ONE,
            burst_bounded(orig, RAW_CAP as int),
            est_re == dc_estimate(orig, alpha as int, i as int).0,
            est_im == dc_estimate(orig, alpha as int, i as int).1,
            forall|j: int| i <= j < n ==> buffer@[j] == orig[j],
            forall|j: int| 0 <= j < i ==>
                #[trigger] buffer@[j] == dc_removed_at(orig, alpha as int, j),
        decreases n - i,
    {
        proof {
            lemma_dc_estimate_bounded(orig, alpha as int, i as int, RAW_CAP as int);
            assert(buffer@[i as int] == orig[i as int]);
            assert(sample_bounded(orig[i as int], RAW_CAP as int));
        }
        let x = buffer[i];
        let corrected = Sample { re: x.re - est_re, im: x.im - est_im };
        buffer[i] = corrected;
        proof {
            lemma_abs_mul(est_re as int, RAW_CAP as int, FIXED_ONE - alpha, FIXED_ONE - alpha);
            lemma_abs_mul(est_im as int, RAW_CAP as int, FIXED_ONE - alpha, FIXED_ONE - alpha);
            lemma_abs_mul(x.re as int, RAW_CAP as int, alpha as int, alpha as int);
            lemma_abs_mul(x.im as int, RAW_CAP as int, alpha as int, alpha as int);
            assert(RAW_CAP * (FIXED_ONE - alpha) + RAW_CAP * alpha == RAW_CAP * FIXED_ONE)
                by (nonlinear_arith);
        }
        est_re = scale_div(est_re * (FIXED_ONE - alpha) + x.re * alpha, FIXED_ONE);
        est_im = scale_div(est_im * (FIXED_ONE - alpha) + x.im * alpha, FIXED_ONE);
        i = i + 1;
    }
    proof {
        assert forall|j: int| 0 <= j < buffer@.len() implies
            sample_bounded(#[trigger] buffer@[j], DC_CAP as int) by {
            lemma_dc_estimate_bounded(orig, alpha as int, j, RAW_CAP as int);
        }
    }
}

/// One smoothing step moves the estimate toward a constant input and
/// never past it.
proof fn lemma_dc_step_toward(e: int, v: int, alpha: int)
    requires
        0 < alpha <= FIXED_ONE,
        0 <= e <= v || v <= e <= 0,
    ensures
        0 <= e <= v ==> e <= dc_advance(e, v, alpha) <= v,
        v <= e <= 0 ==> v <= dc_advance(e, v, alpha) <= e,
{
    let one = FIXED_ONE as int;
    let num = e * (one - alpha) + v * alpha;
    if 0 <= e && e <= v {
        assert(num >= e * one && num <= v * one && e * one >= 0) by (nonlinear_arith)
            requires
                num == e * (one - alpha) + v * alpha,
                0 <= e <= v,
                0 < alpha <= one,
        ;
        vstd::arithmetic::div_mod::lemma_div_is_ordered(e * one, num, one);
        vstd::arithmetic::div_mod::lemma_div_is_ordered(num, v * one, one);
        vstd::arithmetic::div_mod::lemma_div_by_multiple(e, one);
        vstd::arithmetic::div_mod::lemma_div_by_multiple(v, one);
    } else {
        assert(num <= e * one && num >= v * one && e * one <= 0) by (nonlinear_arith)
            requires
                num == e * (one - alpha) + v * alpha,
                v <= e <= 0,
                0 < alpha <= one,
        ;
        assert(-num >= (-e) * one && -num <= (-v) * one) by (nonlinear_arith)
            requires
                num <= e * one,
                num >= v * one,
        ;
        vstd::arithmetic::div_mod::lemma_div_is_ordered((-e) * one, -num, one);
        vstd::arithmetic::div_mod::lemma_div_is_ordered(-num, (-v) * one, one);
        vstd::arithmetic::div_mod::lemma_div_by_multiple(-e, one);
        vstd::arithmetic::div_mod::lemma_div_by_multiple(-v, one);
        if num >= 0 {
            vstd::arithmetic::div_mod::lemma_div_pos_is_pos(num, one);
            vstd::arithmetic::div_mod::lemma_div_is_ordered(num, e * one, one);
        }
    }
}

/// On a burst of one constant value the estimate stays between zero and
/// that value, component by component.
proof fn lemma_dc_est_range(s: Seq<Sample>, v: Sample, alpha: int, i: int)
    requires
        forall|j: int| 0 <= j < s.len() ==> #[trigger] s[j] == v,
        0 < alpha <= FIXED_ONE,
        0 <= i <= s.len(),
    ensures
        0 <= v.re ==> 0 <= dc_estimate(s, alpha, i).0 <= v.re,
        v.re < 0 ==> v.re <= dc_estimate(s, alpha, i).0 <= 0,
        0 <= v.im ==> 0 <= dc_estimate(s, alpha, i).1 <= v.im,
        v.im < 0 ==> v.im <= dc_estimate(s, alpha, i).1 <= 0,
    decreases i,
{
    if i > 0 {
        lemma_dc_est_range(s, v, alpha, i - 1);
        let prev = dc_estimate(s, alpha, i - 1);
        lemma_dc_step_toward(prev.0, v.re as int, alpha);
        lemma_dc_step_toward(prev.1, v.im as int, alpha);
    }
}

/// DC-offset removal converges on a constant burst: the residual left at
/// each position never grows in magnitude from one position to the next,
/// and never exceeds the constant itself — the estimate closes in on the
/// DC component and the output heads toward zero.
pub proof fn lemma_dc_convergence(s: Seq<Sample>, v: Sample, alpha: int, i: int)
    requires
        forall|j: int| 0 <= j < s.len() ==> #[trigger] s[j] == v,
        sample_bounded(v, RAW_CAP as int),
        0 < alpha <= FIXED_ONE,
        0 <= i,
        i + 1 < s.len(),
    ensures
        iabs(dc_removed_at(s, alpha, i + 1).re as int)
            <= iabs(dc_removed_at(s, alpha, i).re as int),
        iabs(dc_removed_at(s, alpha, i + 1).im as int)
            <= iabs(dc_removed_at(s, alpha, i).im as int),
        iabs(dc_removed_at(s, alpha, i).re as int) <= iabs(v.re as int),
        iabs(dc_removed_at(s, alpha, i).im as int) <= iabs(v.im as int),
{
    lemma_dc_est_range(s, v, alpha, i);
    lemma_dc_est_range(s, v, alpha, i + 1);
    let e0 = dc_estimate(s, alpha, i);
    let e1 = dc_estimate(s, alpha, i + 1);
    lemma_dc_step_toward(e0.0, v.re as int, alpha);
    lemma_dc_step_toward(e0.1, v.im as int, alpha);
    assert(s[i] == v && s[i + 1] == v);
    assert(-RAW_CAP <= v.re - e0.0 <= RAW_CAP);
    assert(-RAW_CAP <= v.re - e1.0 <= RAW_CAP);
    assert(-RAW_CAP <= v.im - e0.1 <= RAW_CAP);
    assert(-RAW_CAP <= v.im - e1.1 <= RAW_CAP);
}

/// The combined cross coupling of the correction: `gain * sin(phase)` in Q16.
pub open spec fn iq_cross(gain: int, sin_phase: int) -> int {
    sdiv(gain * sin_phase, FIXED_ONE as int)
}

/// What I/Q imbalance correction leaves at position `i`:
/// `I' = I*cos(phase) - Q*gain*sin(phase)`, `Q' = Q*cos(phase) + I*gain*sin(phase)`.
pub open spec fn iq_corrected_at(s: Seq<Sample>, gain: int, cos_phase: int, sin_phase: int, i: int) -> Sample {
    let k = iq_cross(gain, sin_phase);
    Sample {
        re: sdiv(s[i].re * cos_phase - s[i].im * k, FIXED_ONE as int) as i64,
        im: sdiv(s[i].im * cos_phase + s[i].re * k, FIXED_ONE as int) as i64,
    }
}

/// With gain error 1 and phase error 0 the correction is the identity.
pub proof fn lemma_iq_identity(s: Seq<Sample>, i: int)
    requires
        0 <= i < s.len(),
    ensures
        iq_corrected_at(s, FIXED_ONE as int, FIXED_ONE as int, 0, i) == s[i],
{
    assert(iq_cross(FIXED_ONE as int, 0) == 0) by {
        assert(FIXED_ONE * 0 == 0) by (nonlinear_arith);
        lemma_sdiv_exact(0, FIXED_ONE as int);
    }
    lemma_sdiv_exact(s[i].re as int, FIXED_ONE as int);
    lemma_sdiv_exact(s[i].im as int, FIXED_ONE as int);
}

/// With gain error 1 and phase error 0 the whole correction stage is the
/// identity transform: the output burst equals the input burst.
pub proof fn lemma_iq_identity_burst(s: Seq<Sample>)
    ensures
        Seq::new(
            s.len(),
            |i: int| iq_corrected_at(s, FIXED_ONE as int, FIXED_ONE as int, 0, i),
        ) == s,
{
    let t = Seq::new(
        s.len(),
        |i: int| iq_corrected_at(s, FIXED_ONE as int, FIXED_ONE as int, 0, i),
    );
    assert forall|i: int| 0 <= i < s.len() implies #[trigger] t[i] == s[i] by {
        lemma_iq_identity(s, i);
    }
    assert(t =~= s);
}

/// I/Q imbalance correction: each sample gets the gain/phase mismatch of
/// the two converter paths undone, with ratio `gain` and the phase error
/// given by its cosine and sine, all in Q16.
pub fn iq_imbalance_correction(buffer: &mut Vec<Sample>, gain: i64, cos_phase: i64, sin_phase: i64)
    requires
        0 <= gain <= GAIN_MAX,
        -FIXED_ONE <= cos_phase <= FIXED_ONE,
        -FIXED_ONE <= sin_phase <= FIXED_ONE,
        burst_bounded(old(buffer)@, DC_CAP as int),
    ensures
        final(buffer)@.len() == old(buffer)@.len(),
        forall|i: int| 0 <= i < old(buffer)@.len() ==>
            #[trigger] final(buffer)@[i]
                == iq_corrected_at(old(buffer)@, gain as int, cos_phase as int, sin_phase as int, i),
        burst_bounded(final(buffer)@, IQ_CAP as int),
{
    let ghost orig = buffer@;
    proof {
        lemma_abs_mul(gain as int, GAIN_MAX as int, sin_phase as int, FIXED_ONE as int);
        lemma_sdiv_bound(gain * sin_phase, FIXED_ONE as int, GAIN_MAX as int);
    }
    let k: i64 = scale_div(gain * sin_phase, FIXED_ONE);
    let n: usize = buffer.len();
    let mut i: usize = 0;
    while i < n
        invariant
            n == orig.len(),
            buffer@.len() == n,
            i <= n,
            0 <= gain <= GAIN_MAX,
            -FIXED_ONE <= cos_phase <= FIXED_ONE,
            -FIXED_ONE <= sin_phase <= FIXED_ONE,
            -GAIN_MAX <= k <= GAIN_MAX,
            k == iq_cross(gain as int, sin_phase as int),
            burst_bounded(orig, DC_CAP as int),
            forall|j: int| i <= j < n ==> buffer@[j] == orig[j],
            forall|j: int| 0 <= j < i ==> #[trigger] buffer@[j]
                == iq_corrected_at(orig, gain as int, cos_phase as int, sin_phase as int, j),
            forall|j: int| 0 <= j < i ==> sample_bounded(#[trigger] buffer@[j], IQ_CAP as int),
        decreases n - i,
    {
        let x = buffer[i];
        proof {
            assert(sample_bounded(orig[i as int], DC_CAP as int));
            lemma_abs_mul(x.re as int, DC_CAP as int, cos_phase as int, FIXED_ONE as int);
            lemma_abs_mul(x.im as int, DC_CAP as int, cos_phase as int, FIXED_ONE as int);
            lemma_abs_mul(x.re as int, DC_CAP as int, k as int, GAIN_MAX as int);
            lemma_abs_mul(x.im as int, DC_CAP as int, k as int, GAIN_MAX as int);
            lemma_sdiv_bound(x.re * cos_phase - x.im * k, FIXED_ONE as int, IQ_CAP as int);
            lemma_sdiv_bound(x.im * cos_phase + x.re * k, FIXED_ONE as int, IQ_CAP as int);
        }
        let corrected = Sample {
            re: scale_div(x.re * cos_phase - x.im * k, FIXED_ONE),
            im: scale_div(x.im * cos_phase + x.re * k, FIXED_ONE),
        };
        buffer[i] = corrected;
        i = i + 1;
    }
}

/// Real part of a Q16 complex product.
pub open spec fn cmul_re(ar: int, ai: int, br: int, bi: int) -> int {
    sdiv(ar * br - ai * bi, FIXED_ONE as int)
}

/// Imaginary part of a Q16 complex product.
pub open spec fn cmul_im(ar: int, ai: int, br: int, bi: int) -> int {
    sdiv(ar * bi + ai * br, FIXED_ONE as int)
}

/// The rotator carried at sample `i`: the per-sample step raised to the
/// `i`-th power, starting from 1 at the first sample of every burst.
pub open spec fn rotator(step_cos: int, step_sin: int, i: int) -> (int, int)
    decreases i,
{
    if i <= 0 {
        (FIXED_ONE as int, 0int)
    } else {
        let prev = rotator(step_cos, step_sin, i - 1);
        (
            cmul_re(prev.0, prev.1, step_cos, step_sin),
            cmul_im(prev.0, prev.1, step_cos, step_sin),
        )
    }
}

/// What de-rotation leaves at position `i`: the sample multiplied by the
/// accumulated unit-magnitude rotator.
pub open spec fn derotated_at(s: Seq<Sample>, step_cos: int, step_sin: int, i: int) -> Sample {
    let r = rotator(step_cos, step_sin, i);
    Sample {
        re: cmul_re(s[i].re as int, s[i].im as int, r.0, r.1) as i64,
        im: cmul_im(s[i].re as int, s[i].im as int, r.0, r.1) as i64,
    }
}

/// Truncating the components of a complex product toward zero can only
/// shrink its squared magnitude, so a rotator built from a step inside the
/// unit circle stays inside it.
pub proof fn lemma_rotator_bounded(step_cos: int, step_sin: int, i: int)
    requires
        step_cos * step_cos + step_sin * step_sin <= FIXED_ONE * FIXED_ONE,
        0 <= i,
    ensures
        ({
            let r = rotator(step_cos, step_sin, i);
            &&& r.0 * r.0 + r.1 * r.1 <= FIXED_ONE * FIXED_ONE
            &&& -FIXED_ONE <= r.0 <= FIXED_ONE
            &&& -FIXED_ONE <= r.1 <= FIXED_ONE
        }),
    decreases i,
{
    let one = FIXED_ONE as int;
    if i == 0 {
        assert(one * one + 0 * 0 <= one * one) by (nonlinear_arith);
    } else {
        lemma_rotator_bounded(step_cos, step_sin, i - 1);
        let prev = rotator(step_cos, step_sin, i - 1);
        let (a, b) = prev;
        let (c, d) = (step_cos, step_sin);
        let p = a * c - b * d;
        let q = a * d + b * c;
        lemma_complex_norm_product(a, b, c, d, one);
        let p2 = sdiv(p, one);
        let q2 = sdiv(q, one);
        lemma_sdiv_scales_down(p, one);
        lemma_sdiv_scales_down(q, one);
        lemma_square_shrinks(p2, p, one);
        lemma_square_shrinks(q2, q, one);
        lemma_norm_quotient(p2, q2, p, q, one);
    }
}

/// `(u - v)^2` expanded.
proof fn lemma_sq_sub(u: int, v: int)
    by (nonlinear_arith)
    ensures
        (u - v) * (u - v) == u * u - 2 * (u * v) + v * v,
{
}

/// `(u + v)^2` expanded.
proof fn lemma_sq_add(u: int, v: int)
    by (nonlinear_arith)
    ensures
        (u + v) * (u + v) == u * u + 2 * (u * v) + v * v,
{
}

/// Regrouping a product of four factors.
proof fn lemma_mul_pair_swap(a: int, b: int, c: int, d: int)
    by (nonlinear_arith)
    ensures
        (a * c) * (b * d) == (a * d) * (b * c),
{
}

/// The square of a product is the product of the squares.
proof fn lemma_mul_pair_square(x: int, y: int)
    by (nonlinear_arith)
    ensures
        (x * y) * (x * y) == (x * x) * (y * y),
{
}

/// A product of two sums expanded.
proof fn lemma_dist4(p: int, q: int, r: int, s: int)
    by (nonlinear_arith)
    ensures
        (p + q) * (r + s) == p * r + p * s + q * r + q * s,
{
}

/// The squared magnitude of a complex product is the product of the squared
/// magnitudes of its factors.
proof fn lemma_complex_sq_identity(a: int, b: int, c: int, d: int)
    ensures
        (a * c - b * d) * (a * c - b * d) + (a * d + b * c) * (a * d + b * c)
            == (a * a + b * b) * (c * c + d * d),
{
    lemma_sq_sub(a * c, b * d);
    lemma_sq_add(a * d, b * c);
    lemma_mul_pair_swap(a, b, c, d);
    lemma_mul_pair_square(a, c);
    lemma_mul_pair_square(b, d);
    lemma_mul_pair_square(a, d);
    lemma_mul_pair_square(b, c);
    lemma_dist4(a * a, b * b, c * c, d * d);
}

/// Sums of squares are non-negative.
proof fn lemma_sq_sum_nonneg(a: int, b: int)
    by (nonlinear_arith)
    ensures
        0 <= a * a + b * b,
{
}

/// The squared magnitude of a complex product stays within the unit circle
/// when both factors lie within it.
proof fn lemma_complex_norm_product(a: int, b: int, c: int, d: int, one: int)
    requires
        a * a + b * b <= one * one,
        c * c + d * d <= one * one,
    ensures
        (a * c - b * d) * (a * c - b * d) + (a * d + b * c) * (a * d + b * c)
            <= (one * one) * (one * one),
{
    lemma_complex_sq_identity(a, b, c, d);
    lemma_sq_sum_nonneg(a, b);
    lemma_sq_sum_nonneg(c, d);
    lemma_sq_sum_nonneg(one, 0);
    lemma_abs_mul(a * a + b * b, one * one, c * c + d * d, one * one);
}

/// If `|y| * one <= |x|` then `y * y * one * one <= x * x`.
proof fn lemma_square_shrinks(y: int, x: int, one: int)
    by (nonlinear_arith)
    requires
        0 <= iabs(y) * one <= iabs(x),
        iabs(y) == if y >= 0 { y } else { -y },
        iabs(x) == if x >= 0 { x } else { -x },
    ensures
        y * y * (one * one) <= x * x,
{
}

/// Dividing both components of a vector inside a circle of radius
/// `one * one` by `one` leaves it inside the circle of radius `one`.
proof fn lemma_norm_quotient(p2: int, q2: int, p: int, q: int, one: int)
    by (nonlinear_arith)
    requires
        p2 * p2 * (one * one) <= p * p,
        q2 * q2 * (one * one) <= q * q,
        p * p + q * q <= (one * one) * (one * one),
        0 < one,
    ensures
        p2 * p2 + q2 * q2 <= one * one,
        -one <= p2 <= one,
        -one <= q2 <= one,
{
}

/// The truncated quotient, scaled back up by the divisor, never exceeds the
/// dividend in magnitude.
pub proof fn lemma_sdiv_scales_down(x: int, d: int)
    requires
        0 < d,
    ensures
        0 <= iabs(sdiv(x, d)) * d <= iabs(x),
{
    if x >= 0 {
        lemma_div_times_le(x, d);
        lemma_div_pos_is_pos_local(x, d);
        assert(0 <= (x / d) * d) by (nonlinear_arith)
            requires
                0 <= x / d,
                0 < d,
        ;
    } else {
        lemma_div_times_le(-x, d);
        lemma_div_pos_is_pos_local(-x, d);
        assert(0 <= ((-x) / d) * d) by (nonlinear_arith)
            requires
                0 <= (-x) / d,
                0 < d,
        ;
    }
}

/// A rotator built from the identity step stays the identity.
pub proof fn lemma_rotator_identity(i: int)
    requires
        0 <= i,
    ensures
        rotator(FIXED_ONE as int, 0, i) == (FIXED_ONE as int, 0int),
    decreases i,
{
    let one = FIXED_ONE as int;
    if i > 0 {
        lemma_rotator_identity(i - 1);
        lemma_sdiv_exact(one, one);
        vstd::arithmetic::div_mod::lemma_div_of0(one);
        assert(one * 0 + 0 * one == 0) by (nonlinear_arith);
    }
}

/// With frequency offset zero — an identity step — de-rotation leaves every
/// sample unchanged.
pub proof fn lemma_derotation_identity(s: Seq<Sample>, i: int)
    requires
        0 <= i < s.len(),
    ensures
        derotated_at(s, FIXED_ONE as int, 0, i) == s[i],
{
    let one = FIXED_ONE as int;
    lemma_rotator_identity(i);
    assert(s[i].im * 0 == 0 && s[i].re * 0 == 0) by (nonlinear_arith);
    lemma_sdiv_exact(s[i].re as int, one);
    lemma_sdiv_exact(s[i].im as int, one);
}

/// With frequency offset zero the whole de-rotation stage is the
/// identity transform: the output burst equals the input burst.
pub proof fn lemma_derotation_identity_burst(s: Seq<Sample>)
    ensures
        Seq::new(s.len(), |i: int| derotated_at(s, FIXED_ONE as int, 0, i)) == s,
{
    let t = Seq::new(s.len(), |i: int| derotated_at(s, FIXED_ONE as int, 0, i));
    assert forall|i: int| 0 <= i < s.len() implies #[trigger] t[i] == s[i] by {
        lemma_derotation_identity(s, i);
    }
    assert(t =~= s);
}

/// Frequency-offset de-rotation: sample `i` is multiplied by the rotator
/// advanced `i` steps from 1, each step a unit-magnitude Q16 complex value
/// `(step_cos, step_sin)`. The phase starts fresh at every burst.
pub fn frequency_derotation(buffer: &mut Vec<Sample>, step_cos: i64, step_sin: i64)
    requires
        -FIXED_ONE <= step_cos <= FIXED_ONE,
        -FIXED_ONE <= step_sin <= FIXED_ONE,
        step_cos * step_cos + step_sin * step_sin <= FIXED_ONE * FIXED_ONE,
        burst_bounded(old(buffer)@, IQ_CAP as int),
    ensures
        final(buffer)@.len() == old(buffer)@.len(),
        forall|i: int| 0 <= i < old(buffer)@.len() ==>
            #[trigger] final(buffer)@[i]
                == derotated_at(old(buffer)@, step_cos as int, step_sin as int, i),
        burst_bounded(final(buffer)@, ROT_CAP as int),
{
    let ghost orig = buffer@;
    let n: usize = buffer.len();
    let mut rot_re: i64 = FIXED_ONE;
    let mut rot_im: i64 = 0;
    let mut i: usize = 0;
    while i < n
        invariant
            n == orig.len(),
            buffer@.len() == n,
            i <= n,
            -FIXED_ONE <= step_cos <= FIXED_ONE,
            -FIXED_ONE <= step_sin <= FIXED_ONE,
            step_cos * step_cos + step_sin * step_sin <= FIXED_ONE * FIXED_ONE,
            burst_bounded(orig, IQ_CAP as int),
            rot_re == rotator(step_cos as int, step_sin as int, i as int).0,
            rot_im == rotator(step_cos as int, step_sin as int, i as int).1,
            forall|j: int| i <= j < n ==> buffer@[j] == orig[j],
            forall|j: int| 0 <= j < i ==> #[trigger] buffer@[j]
                == derotated_at(orig, step_cos as int, step_sin as int, j),
            forall|j: int| 0 <= j < i ==> sample_bounded(#[trigger] buffer@[j], ROT_CAP as int),
        decreases n - i,
    {
        let x = buffer[i];
        proof {
            lemma_rotator_bounded(step_cos as int, step_sin as int, i as int);
            assert(sample_bounded(orig[i as int], IQ_CAP as int));
            lemma_abs_mul(x.re as int, IQ_CAP as int, rot_re as int, FIXED_ONE as int);
            lemma_abs_mul(x.im as int, IQ_CAP as int, rot_re as int, FIXED_ONE as int);
            lemma_abs_mul(x.re as int, IQ_CAP as int, rot_im as int, FIXED_ONE as int);
            lemma_abs_mul(x.im as int, IQ_CAP as int, rot_im as int, FIXED_ONE as int);
            lemma_sdiv_bound(x.re * rot_re - x.im * rot_im, FIXED_ONE as int, ROT_CAP as int);
            lemma_sdiv_bound(x.re * rot_im + x.im * rot_re, FIXED_ONE as int, ROT_CAP as int);
            lemma_abs_mul(rot_re as int, FIXED_ONE as int, step_cos as int, FIXED_ONE as int);
            lemma_abs_mul(rot_im as int, FIXED_ONE as int, step_sin as int, FIXED_ONE as int);
            lemma_abs_mul(rot_re as int, FIXED_ONE as int, step_sin as int, FIXED_ONE as int);
            lemma_abs_mul(rot_im as int, FIXED_ONE as int, step_cos as int, FIXED_ONE as int);
        }
        let out = Sample {
            re: scale_div(x.re * rot_re - x.im * rot_im, FIXED_ONE),
            im: scale_div(x.re * rot_im + x.im * rot_re, FIXED_ONE),
        };
        buffer[i] = out;
        let next_re = scale_div(rot_re * step_cos - rot_im * step_sin, FIXED_ONE);
        let next_im = scale_div(rot_re * step_sin + rot_im * step_cos, FIXED_ONE);
        rot_re = next_re;
        rot_im = next_im;
        i = i + 1;
    }
}

/// The non-negative integer square root, rounded down.
pub open spec fn sqrt_floor(x: int) -> int {
    choose|r: int| 0 <= r && #[trigger] (r * r) <= x && x < (r + 1) * (r + 1)
}

/// Squaring preserves order on non-negatives.
proof fn lemma_sq_monotone(u: int, v: int)
    by (nonlinear_arith)
    requires
        0 <= u <= v,
    ensures
        u * u <= v * v,
{
}

/// Any value with the rounded-square-root property is the rounded square
/// root: the property pins it down.
pub proof fn lemma_sqrt_floor_unique(x: int, r: int)
    requires
        0 <= r,
        r * r <= x,
        x < (r + 1) * (r + 1),
    ensures
        sqrt_floor(x) == r,
{
    assert(exists|c: int| 0 <= c && #[trigger] (c * c) <= x && x < (c + 1) * (c + 1)) by {
        assert(0 <= r && r * r <= x && x < (r + 1) * (r + 1));
    }
    let c = sqrt_floor(x);
    assert(0 <= c && c * c <= x && x < (c + 1) * (c + 1));
    if c < r {
        lemma_sq_monotone(c + 1, r);
        assert(false);
    }
    if r < c {
        lemma_sq_monotone(r + 1, c);
        assert(false);
    }
}

/// The integer square root, by bisection over the 32-bit root range.
pub fn isqrt(x: u64) -> (r: u64)
    ensures
        r * r <= x < (r + 1) * (r + 1),
        r == sqrt_floor(x as int),
{
    let mut lo: u64 = 0;
    let mut hi: u64 = 4294967296;
    while lo + 1 < hi
        invariant
            lo < hi <= 4294967296,
            lo * lo <= x,
            (x as int) < hi * hi,
        decreases hi - lo,
    {
        let mid: u64 = lo + (hi - lo) / 2;
        proof {
            vstd::arithmetic::div_mod::lemma_div_by_self(2);
            vstd::arithmetic::div_mod::lemma_div_is_ordered(2, (hi - lo) as int, 2);
            vstd::arithmetic::div_mod::lemma_div_is_strictly_smaller((hi - lo) as int, 2);
            lemma_sq_monotone(mid as int, 4294967295);
        }
        if mid * mid <= x {
            lo = mid;
        } else {
            hi = mid;
        }
    }
    proof {
        lemma_sqrt_floor_unique(x as int, lo as int);
    }
    lo
}

/// The magnitude of the sample at position `i`.
pub open spec fn mag_at(s: Seq<Sample>, i: int) -> int {
    sqrt_floor(s[i].re * s[i].re + s[i].im * s[i].im)
}

/// The magnitudes of the first `i` samples summed.
pub open spec fn mag_sum(s: Seq<Sample>, i: int) -> int
    decreases i,
{
    if i <= 0 {
        0
    } else {
        mag_sum(s, i - 1) + mag_at(s, i - 1)
    }
}

/// The mean magnitude of the burst, rounded down; zero for an empty burst.
pub open spec fn mean_magnitude(s: Seq<Sample>) -> int {
    if s.len() == 0 {
        0
    } else {
        mag_sum(s, s.len() as int) / s.len() as int
    }
}

/// The gain that brings the mean magnitude to the target level, in Q16.
pub open spec fn agc_gain(s: Seq<Sample>) -> int {
    (TARGET_LEVEL * FIXED_ONE) / mean_magnitude(s)
}

/// What gain normalization leaves at position `i` when the mean magnitude
/// is non-zero.
pub open spec fn agc_at(s: Seq<Sample>, i: int) -> Sample {
    Sample {
        re: sdiv(s[i].re * agc_gain(s), FIXED_ONE as int) as i64,
        im: sdiv(s[i].im * agc_gain(s), FIXED_ONE as int) as i64,
    }
}

/// A burst of all-zero samples has mean magnitude zero, so normalization
/// passes it through untouched.
pub proof fn lemma_zero_burst_mean(s: Seq<Sample>)
    requires
        forall|i: int| 0 <= i < s.len() ==> #[trigger] s[i] == (Sample { re: 0i64, im: 0i64 }),
    ensures
        mean_magnitude(s) == 0,
{
    assert forall|i: int| 0 <= i < s.len() implies #[trigger] mag_at(s, i) == 0 by {
        assert(s[i].re * s[i].re + s[i].im * s[i].im == 0) by (nonlinear_arith)
            requires
                s[i].re == 0 && s[i].im == 0,
        ;
        lemma_sqrt_floor_unique(0, 0);
    }
    lemma_mag_sum_zero(s, s.len() as int);
    if s.len() > 0 {
        vstd::arithmetic::div_mod::lemma_div_of0(s.len() as int);
    }
}

/// A sum of zero magnitudes is zero.
proof fn lemma_mag_sum_zero(s: Seq<Sample>, i: int)
    requires
        forall|j: int| 0 <= j < s.len() ==> #[trigger] mag_at(s, j) == 0,
        i <= s.len(),
    ensures
        mag_sum(s, i) == 0,
    decreases i,
{
    if i > 0 {
        lemma_mag_sum_zero(s, i - 1);
    }
}

/// Magnitudes of bounded samples are bounded by twice the component cap.
proof fn lemma_mag_bounded(s: Seq<Sample>, i: int, b: int)
    requires
        0 <= i < s.len(),
        0 < b,
        sample_bounded(s[i], b),
    ensures
        0 <= mag_at(s, i) <= 2 * b,
{
    let x = s[i].re * s[i].re + s[i].im * s[i].im;
    let m = mag_at(s, i);
    lemma_sq_sum_nonneg(s[i].re as int, s[i].im as int);
    assert(exists|c: int| 0 <= c && #[trigger] (c * c) <= x && x < (c + 1) * (c + 1)) by {
        let w = sqrt_witness(x);
        assert(0 <= w && w * w <= x && x < (w + 1) * (w + 1));
    }
    assert(0 <= m && m * m <= x && x < (m + 1) * (m + 1));
    assert(x <= 2 * (b * b)) by (nonlinear_arith)
        requires
            x == s[i].re * s[i].re + s[i].im * s[i].im,
            -b <= s[i].re <= b,
            -b <= s[i].im <= b,
    ;
    if m > 2 * b {
        assert((2 * b + 1) * (2 * b + 1) <= m * m) by (nonlinear_arith)
            requires
                0 < 2 * b + 1 <= m,
        ;
        assert(2 * (b * b) < (2 * b + 1) * (2 * b + 1)) by (nonlinear_arith)
            requires
                0 < b,
        ;
        assert(false);
    }
}

/// A witness for the rounded square root of a non-negative value.
proof fn sqrt_witness(x: int) -> (r: int)
    requires
        0 <= x,
    ensures
        0 <= r,
        r * r <= x,
        x < (r + 1) * (r + 1),
    decreases x,
{
    if x == 0 {
        0
    } else {
        let p = sqrt_witness(x - 1);
        if (p + 1) * (p + 1) <= x {
            assert(x < (p + 2) * (p + 2)) by (nonlinear_arith)
                requires
                    x - 1 < (p + 1) * (p + 1),
                    0 <= p,
            ;
            p + 1
        } else {
            p
        }
    }
}

/// Automatic gain normalization: the whole burst is rescaled so that its
/// mean magnitude meets the target level. A burst whose mean magnitude is
/// zero passes through unscaled: no division happens on a silent burst.
pub fn gain_normalization(buffer: &mut Vec<Sample>)
    requires
        burst_bounded(old(buffer)@, ROT_CAP as int),
        old(buffer)@.len() <= MAX_BURST_LEN,
    ensures
        final(buffer)@.len() == old(buffer)@.len(),
        mean_magnitude(old(buffer)@) == 0 ==> final(buffer)@ == old(buffer)@,
        mean_magnitude(old(buffer)@) != 0 ==> forall|i: int| 0 <= i < old(buffer)@.len() ==>
            #[trigger] final(buffer)@[i] == agc_at(old(buffer)@, i),
        burst_bounded(final(buffer)@, COND_CAP as int),
{
    let ghost orig = buffer@;
    let n: usize = buffer.len();
    if n == 0 {
        proof {
            lemma_burst_bounded_widen(buffer@, ROT_CAP as int, COND_CAP as int);
        }
        return ;
    }
    let mut sum: u64 = 0;
    let mut i: usize = 0;
    while i < n
        invariant
            n == buffer@.len(),
            buffer@ == orig,
            i <= n,
            n <= MAX_BURST_LEN,
            burst_bounded(orig, ROT_CAP as int),
            sum == mag_sum(orig, i as int),
            sum <= (i as int) * (2 * ROT_CAP),
        decreases n - i,
    {
        let x = buffer[i];
        proof {
            assert(sample_bounded(orig[i as int], ROT_CAP as int));
            lemma_abs_mul(x.re as int, ROT_CAP as int, x.re as int, ROT_CAP as int);
            lemma_abs_mul(x.im as int, ROT_CAP as int, x.im as int, ROT_CAP as int);
            lemma_sq_sum_nonneg(x.re as int, x.im as int);
            assert(x.re * x.re >= 0 && x.im * x.im >= 0) by (nonlinear_arith);
        }
        let sq: u64 = ((x.re * x.re) as u64) + ((x.im * x.im) as u64);
        let m: u64 = isqrt(sq);
        proof {
            assert(sq as int == orig[i as int].re * orig[i as int].re
                + orig[i as int].im * orig[i as int].im);
            assert(m == mag_at(orig, i as int));
            lemma_mag_bounded(orig, i as int, ROT_CAP as int);
            assert((i as int + 1) * (2 * ROT_CAP) <= 16777216 * (2 * ROT_CAP))
                by (nonlinear_arith)
                requires
                    i as int + 1 <= 16777216,
                    MAX_BURST_LEN == 16777216usize,
            ;
            assert((i as int) * (2 * ROT_CAP) + 2 * ROT_CAP == (i as int + 1) * (2 * ROT_CAP))
                by (nonlinear_arith);
        }
        sum = sum + m;
        i = i + 1;
    }
    let mean: u64 = sum / (n as u64);
    proof {
        assert(mean == mean_magnitude(orig));
    }
    if mean == 0 {
        proof {
            lemma_burst_bounded_widen(buffer@, ROT_CAP as int, COND_CAP as int);
        }
        return ;
    }
    let gain: u64 = ((TARGET_LEVEL * FIXED_ONE) as u64) / mean;
    proof {
        assert(gain == agc_gain(orig));
        vstd::arithmetic::div_mod::lemma_div_nonincreasing(
            (TARGET_LEVEL * FIXED_ONE) as int,
            mean as int,
        );
        assert(gain <= 2147483648);
    }
    let gi: i64 = gain as i64;
    let mut i2: usize = 0;
    while i2 < n
        invariant
            n == buffer@.len(),
            n == orig.len(),
            i2 <= n,
            burst_bounded(orig, ROT_CAP as int),
            0 <= gi <= 2147483648,
            gi == agc_gain(orig),
            mean_magnitude(orig) > 0,
            forall|j: int| i2 <= j < n ==> buffer@[j] == orig[j],
            forall|j: int| 0 <= j < i2 ==> #[trigger] buffer@[j] == agc_at(orig, j),
            forall|j: int| 0 <= j < i2 ==> sample_bounded(#[trigger] buffer@[j], COND_CAP as int),
        decreases n - i2,
    {
        let x = buffer[i2];
        proof {
            assert(sample_bounded(orig[i2 as int], ROT_CAP as int));
            lemma_abs_mul(x.re as int, ROT_CAP as int, gi as int, 2147483648);
            lemma_abs_mul(x.im as int, ROT_CAP as int, gi as int, 2147483648);
            lemma_sdiv_bound(x.re * gi, FIXED_ONE as int, COND_CAP as int);
            lemma_sdiv_bound(x.im * gi, FIXED_ONE as int, COND_CAP as int);
        }
        buffer[i2] = Sample {
            re: scale_div(x.re * gi, FIXED_ONE),
            im: scale_div(x.im * gi, FIXED_ONE),
        };
        i2 = i2 + 1;
    }
}

/// The margin the noise smoother leaves untouched at each edge of a
/// burst: half the averaging window.
pub const SMOOTH_HALF: usize = 5;

/// The width of the smoother's centered averaging window.
pub const SMOOTH_WINDOW: i64 = 11;

/// The samples of the window `lo .. hi` summed, in-phase component.
pub open spec fn window_re(s: Seq<Sample>, lo: int, hi: int) -> int
    decreases hi - lo,
{
    if hi - lo <= 0 {
        0
    } else {
        window_re(s, lo, hi - 1) + s[hi - 1].re
    }
}

/// The samples of the window `lo .. hi` summed, quadrature component.
pub open spec fn window_im(s: Seq<Sample>, lo: int, hi: int) -> int
    decreases hi - lo,
{
    if hi - lo <= 0 {
        0
    } else {
        window_im(s, lo, hi - 1) + s[hi - 1].im
    }
}

/// A window sum over bounded samples is bounded by the window length times
/// the sample bound.
pub proof fn lemma_window_bounded(s: Seq<Sample>, lo: int, hi: int, b: int)
    requires
        0 <= lo <= hi,
        hi <= s.len(),
        0 <= b,
        burst_bounded(s, b),
    ensures
        -((hi - lo) * b) <= window_re(s, lo, hi) <= (hi - lo) * b,
        -((hi - lo) * b) <= window_im(s, lo, hi) <= (hi - lo) * b,
    decreases hi - lo,
{
    if hi - lo > 0 {
        lemma_window_bounded(s, lo, hi - 1, b);
        assert(sample_bounded(s[hi - 1], b));
        assert((hi - 1 - lo) * b + b == (hi - lo) * b) by (nonlinear_arith);
    } else {
        assert((hi - lo) * b == 0) by (nonlinear_arith)
            requires
                hi - lo == 0,
        ;
    }
}

/// What the noise smoother leaves at position `i`: interior samples become
/// the centered moving average of the odd window, edge samples within the
/// half-width margin stay untouched.
pub open spec fn smoothed_at(s: Seq<Sample>, i: int) -> Sample {
    if SMOOTH_HALF <= i && i + SMOOTH_HALF < s.len() {
        Sample {
            re: sdiv(window_re(s, i - SMOOTH_HALF, i + SMOOTH_HALF + 1), SMOOTH_WINDOW as int) as i64,
            im: sdiv(window_im(s, i - SMOOTH_HALF, i + SMOOTH_HALF + 1), SMOOTH_WINDOW as int) as i64,
        }
    } else {
        s[i]
    }
}

/// Noise smoothing: interior samples are replaced by the centered moving
/// average of an 11-wide window; a 5-sample margin at each edge is left
/// unmodified.
pub fn noise_smoothing(buffer: &mut Vec<Sample>)
    requires
        burst_bounded(old(buffer)@, COND_CAP as int),
        old(buffer)@.len() <= MAX_BURST_LEN,
    ensures
        final(buffer)@.len() == old(buffer)@.len(),
        forall|i: int| 0 <= i < old(buffer)@.len() ==>
            #[trigger] final(buffer)@[i] == smoothed_at(old(buffer)@, i),
        burst_bounded(final(buffer)@, COND_CAP as int),
{
    let ghost orig = buffer@;
    let n: usize = buffer.len();
    let mut out: Vec<Sample> = Vec::new();
    let mut i: usize = 0;
    while i < n
        invariant
            n == buffer@.len(),
            buffer@ == orig,
            out@.len() == i,
            i <= n,
            n <= MAX_BURST_LEN,
            burst_bounded(orig, COND_CAP as int),
            forall|j: int| 0 <= j < i ==> #[trigger] out@[j] == smoothed_at(orig, j),
            forall|j: int| 0 <= j < i ==> sample_bounded(#[trigger] out@[j], COND_CAP as int),
        decreases n - i,
    {
        if i >= SMOOTH_HALF && i + SMOOTH_HALF < n {
            let mut acc_re: i64 = 0;
            let mut acc_im: i64 = 0;
            let mut k: usize = i - SMOOTH_HALF;
            while k < i + SMOOTH_HALF + 1
                invariant
                    buffer@ == orig,
                    n == orig.len(),
                    SMOOTH_HALF <= i,
                    i + SMOOTH_HALF < n,
                    i - SMOOTH_HALF <= k <= i + SMOOTH_HALF + 1,
                    burst_bounded(orig, COND_CAP as int),
                    acc_re == window_re(orig, i - SMOOTH_HALF, k as int),
                    acc_im == window_im(orig, i - SMOOTH_HALF, k as int),
                decreases i + SMOOTH_HALF + 1 - k,
            {
                let x = buffer[k];
                proof {
                    lemma_window_bounded(orig, i - SMOOTH_HALF, k as int, COND_CAP as int);
                    assert(sample_bounded(orig[k as int], COND_CAP as int));
                    assert((k - (i - SMOOTH_HALF)) * COND_CAP <= 11 * COND_CAP)
                        by (nonlinear_arith)
                        requires
                            k - (i - SMOOTH_HALF) <= 11,
                            0 < COND_CAP,
                    ;
                }
                acc_re = acc_re + x.re;
                acc_im = acc_im + x.im;
                k = k + 1;
            }
            proof {
                lemma_window_bounded(orig, i - SMOOTH_HALF, i + SMOOTH_HALF + 1, COND_CAP as int);
                lemma_sdiv_bound(acc_re as int, SMOOTH_WINDOW as int, COND_CAP as int);
                lemma_sdiv_bound(acc_im as int, SMOOTH_WINDOW as int, COND_CAP as int);
            }
            out.push(Sample {
                re: scale_div(acc_re, SMOOTH_WINDOW),
                im: scale_div(acc_im, SMOOTH_WINDOW),
            });
        } else {
            let x = buffer[i];
            proof {
                assert(sample_bounded(orig[i as int], COND_CAP as int));
            }
            out.push(x);
        }
        i = i + 1;
    }
    *buffer = out;
}

/// `(x / d) * d <= x` for non-negative `x` and positive `d`.
proof fn lemma_div_times_le(x: int, d: int)
    requires
        0 <= x,
        0 < d,
    ensures
        (x / d) * d <= x,
{
    vstd::arithmetic::div_mod::lemma_fundamental_div_mod(x, d);
    assert(x == d * (x / d) + x % d);
    assert(d * (x / d) == (x / d) * d) by (nonlinear_arith);
}

/// The quotient of non-negatives is non-negative.
proof fn lemma_div_pos_is_pos_local(x: int, d: int)
    requires
        0 <= x,
        0 < d,
    ensures
        0 <= x / d,
{
    vstd::arithmetic::div_mod::lemma_div_pos_is_pos(x, d);
}

} // verus!
