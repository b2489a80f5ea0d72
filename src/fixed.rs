//! The sample format: signed Q16.16 fixed point held in an `i32`.
//!
//! A sample `s` stands for the real value `s / ONE`. Products are formed in
//! wider integers and brought back to the sample range by saturation.
use vstd::prelude::*;

verus! {

/// One unit of a sample value (the raw value of 1.0).
pub const ONE: i64 = 65536;

/// Half a unit (the raw value of 0.5).
pub const HALF: i64 = 32768;

/// Smallest meaningful difference between two samples (one raw step): a
/// smoothed value closer than this to its target snaps onto it.
pub const EPSILON: i64 = 1;

/// Smallest representable sample.
pub const SAMPLE_MIN: i64 = -2147483648;

/// Largest representable sample.
pub const SAMPLE_MAX: i64 = 2147483647;

/// The value `x` saturated into the sample range.
pub open spec fn clamp(x: int) -> int {
    if x < SAMPLE_MIN {
        SAMPLE_MIN as int
    } else if x > SAMPLE_MAX {
        SAMPLE_MAX as int
    } else {
        x
    }
}

/// The fixed-point product of two samples, rounded toward negative infinity.
pub open spec fn fixed_mul(a: int, b: int) -> int {
    (a * b) / (ONE as int)
}

/// A product is bounded by the product of the bounds of its factors.
pub proof fn lemma_mul_bounded(a: int, b: int, x: int, y: int)
    requires
        -x <= a <= x,
        -y <= b <= y,
    ensures
        -(x * y) <= a * b <= x * y,
{
    assert(-(x * y) <= a * b <= x * y) by (nonlinear_arith)
        requires
            -x <= a <= x,
            -y <= b <= y,
    ;
}

/// Saturates a wide integer into the sample range.
pub fn saturate(x: i128) -> (r: i32)
    ensures
        r as int == clamp(x as int),
{
    if x < SAMPLE_MIN as i128 {
        i32::MIN
    } else if x > SAMPLE_MAX as i128 {
        i32::MAX
    } else {
        x as i32
    }
}

/// Division rounded toward negative infinity, as `/` is on `int`.
pub fn floor_div(n: i128, d: i128) -> (r: i128)
    requires
        d > 0,
        n > i128::MIN,
    ensures
        r as int == n as int / d as int,
{
    if n >= 0 {
        n / d
    } else {
        let q = (-n - 1) / d;
        proof {
            let m: int = -n - 1;
            let dd: int = d as int;
            vstd::arithmetic::div_mod::lemma_fundamental_div_mod(m, dd);
            vstd::arithmetic::div_mod::lemma_mod_bound(m, dd);
            assert(q as int == m / dd);
            assert(n as int == (-q - 1) * dd + (dd - 1 - m % dd)) by (nonlinear_arith)
                requires
                    m == dd * q + m % dd,
                    m == -n - 1,
            ;
            vstd::arithmetic::div_mod::lemma_fundamental_div_mod_converse(
                n as int,
                dd,
                -q - 1,
                dd - 1 - m % dd,
            );
        }
        -q - 1
    }
}

/// The sample nearest to `num / den` from below, saturated: builds a sample
/// from a ratio of integers (`from_ratio(11, 2)` is 5.5).
pub fn from_ratio(num: i32, den: i32) -> (r: i32)
    requires
        den > 0,
    ensures
        r as int == clamp((num as int * ONE as int) / den as int),
{
    let scaled: i128 = num as i128 * ONE as i128;
    assert(scaled > i128::MIN) by (nonlinear_arith)
        requires
            scaled == num as int * 65536,
            num >= i32::MIN,
    ;
    saturate(floor_div(scaled, den as i128))
}

} // verus!
