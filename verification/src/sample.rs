//! Fixed-point complex samples and the scaling arithmetic shared by every
//! stage of the pipeline.
//!
//! A sample holds one in-phase / quadrature pair in Q16 fixed point: the
//! value `FIXED_ONE` stands for 1.0 relative to the full-scale hardware
//! range. Radio front ends deliver 16-bit integer I/Q pairs, so this
//! representation is exact for the acquired data.

use vstd::prelude::*;
use vstd::arithmetic::div_mod::{
    lemma_div_by_multiple, lemma_div_is_ordered, lemma_div_pos_is_pos,
};

verus! {

/// The fixed-point unit: 1.0 in Q16 format.
pub const FIXED_ONE: i64 = 65536;

/// Largest magnitude a raw sample handed to the pipeline may have:
/// four times full scale, leaving headroom over the 16-bit converter range.
pub const RAW_CAP: i64 = 262144;

/// Magnitude bound after DC-offset removal: the estimate is itself bounded
/// by the raw cap, so the residual is at most twice it.
pub const DC_CAP: i64 = 524288;

/// Largest admitted I/Q gain-error ratio: 4.0 in Q16.
pub const GAIN_MAX: i64 = 262144;

/// Magnitude bound after I/Q imbalance correction: the in-phase term is
/// bounded by `DC_CAP` and the cross term by `GAIN_MAX / FIXED_ONE` times it.
pub const IQ_CAP: i64 = 2621440;

/// Magnitude bound after de-rotation by a unit-magnitude rotator.
pub const ROT_CAP: i64 = 5242880;

/// The gain-normalization target: a mean magnitude of 0.5 in Q16.
pub const TARGET_LEVEL: i64 = 32768;

/// Magnitude bound on a fully conditioned sample: gain normalization can
/// scale by at most `TARGET_LEVEL * FIXED_ONE`, applied to `ROT_CAP`.
pub const COND_CAP: i64 = 171798691840;

/// Largest burst length the pipeline accepts, so that magnitude sums and
/// byte offsets stay within machine range.
pub const MAX_BURST_LEN: usize = 16777216;

/// One complex baseband sample in Q16 fixed point.
#[derive(Clone, Copy, PartialEq, Eq, Structural, Debug)]
pub struct Sample {
    pub re: i64,
    pub im: i64,
}

/// Division rounding toward zero, the rounding every fixed-point scaling
/// step in the pipeline uses.
pub open spec fn sdiv(x: int, d: int) -> int {
    if x >= 0 {
        x / d
    } else {
        -((-x) / d)
    }
}

/// Magnitude of a mathematical integer.
pub open spec fn iabs(x: int) -> int {
    if x >= 0 {
        x
    } else {
        -x
    }
}

/// Both components of `s` lie within `b` of zero.
pub open spec fn sample_bounded(s: Sample, b: int) -> bool {
    -b <= s.re <= b && -b <= s.im <= b
}

/// Every sample of the burst is bounded by `b`.
pub open spec fn burst_bounded(s: Seq<Sample>, b: int) -> bool {
    forall|i: int| 0 <= i < s.len() ==> sample_bounded(#[trigger] s[i], b)
}

/// Truncating division of a signed value by a positive divisor.
pub fn scale_div(x: i64, d: i64) -> (r: i64)
    requires
        0 < d,
        -0x4000_0000_0000_0000 <= x <= 0x4000_0000_0000_0000,
    ensures
        r == sdiv(x as int, d as int),
        if x >= 0 { 0 <= r <= x } else { x <= r <= 0 },
{
    if x >= 0 {
        let q: u64 = (x as u64) / (d as u64);
        assert(q <= x as u64);
        q as i64
    } else {
        let m: i64 = -x;
        let q: u64 = (m as u64) / (d as u64);
        assert(q <= m as u64);
        -(q as i64)
    }
}

/// The quotient keeps any bound that the dividend has `d`-fold.
pub proof fn lemma_sdiv_bound(x: int, d: int, b: int)
    requires
        0 < d,
        0 <= b,
        -(b * d) <= x <= b * d,
    ensures
        -b <= sdiv(x, d) <= b,
{
    if x >= 0 {
        lemma_div_pos_is_pos(x, d);
        lemma_div_is_ordered(x, b * d, d);
        lemma_div_by_multiple(b, d);
    } else {
        lemma_div_pos_is_pos(-x, d);
        lemma_div_is_ordered(-x, b * d, d);
        lemma_div_by_multiple(b, d);
    }
}

/// Dividing an exact multiple recovers the factor.
pub proof fn lemma_sdiv_exact(x: int, d: int)
    requires
        0 < d,
    ensures
        sdiv(x * d, d) == x,
{
    if x >= 0 {
        lemma_div_by_multiple(x, d);
    } else {
        assert(-(x * d) == (-x) * d) by (nonlinear_arith);
        lemma_div_by_multiple(-x, d);
    }
}

/// A product of bounded factors is bounded by the product of the bounds.
pub proof fn lemma_abs_mul(a: int, ab: int, b: int, bb: int)
    requires
        -ab <= a <= ab,
        -bb <= b <= bb,
        0 <= ab,
        0 <= bb,
    ensures
        -(ab * bb) <= a * b <= ab * bb,
{
    assert(-(ab * bb) <= a * b <= ab * bb) by (nonlinear_arith)
        requires
            -ab <= a <= ab,
            -bb <= b <= bb,
            0 <= ab,
            0 <= bb,
    ;
}

} // verus!
