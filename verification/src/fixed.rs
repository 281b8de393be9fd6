//! Fixed-point arithmetic in millionths.
//!
//! Every real-valued quantity of the crate (sample amplitudes, thresholds,
//! weights, scores) is an integer count of millionths: `UNIT` stands for 1.0.
//! The specification functions work on unbounded `int`; the executable
//! functions compute the same values in 128-bit arithmetic.

use vstd::prelude::*;
use vstd::arithmetic::div_mod::lemma_fundamental_div_mod_converse;

verus! {

/// The fixed-point representation of 1.0.
pub const UNIT: i64 = 1_000_000;

/// Largest magnitude the 128-bit helpers accept for an unsigned operand.
pub const WIDE_LIMIT: u128 = 0xC000_0000_0000_0000;

/// Bound on the magnitude of a fixed-point product of 64-bit operands.
pub const PRODUCT_LIMIT: i128 = 0x1000_0000_0000_0000_0000_0000_0000;

/// Absolute value.
pub open spec fn abs(x: int) -> int {
    if x < 0 {
        -x
    } else {
        x
    }
}

/// The smaller of two integers.
pub open spec fn min(a: int, b: int) -> int {
    if a <= b {
        a
    } else {
        b
    }
}

/// The larger of two integers.
pub open spec fn max(a: int, b: int) -> int {
    if a >= b {
        a
    } else {
        b
    }
}

/// Fixed-point product: `a * b` rescaled by `UNIT`, rounded towards minus
/// infinity.
pub open spec fn fx_mul(a: int, b: int) -> int {
    (a * b) / (UNIT as int)
}

/// Quotient of `a` by a positive `d`, rounded towards minus infinity.
pub open spec fn floor_div(a: int, d: int) -> int {
    a / d
}

/// The value of `x` saturated to the range of `i64`.
pub open spec fn clamp_i64(x: int) -> int {
    if x < i64::MIN as int {
        i64::MIN as int
    } else if x > i64::MAX as int {
        i64::MAX as int
    } else {
        x
    }
}

/// The value of a non-negative `x` saturated to the range of `u64`.
pub open spec fn clamp_u64(x: int) -> int {
    if x < 0 {
        0
    } else if x > u64::MAX as int {
        u64::MAX as int
    } else {
        x
    }
}

/// Magnitude of a signed 64-bit value, widened so that `i64::MIN` fits.
pub fn magnitude(x: i64) -> (m: u128)
    ensures
        m == abs(x as int),
        m <= 0x8000_0000_0000_0000,
{
    if x >= 0 {
        x as u128
    } else {
        let wide: i128 = x as i128;
        (-wide) as u128
    }
}

/// Saturates a signed 128-bit value to `i64`.
pub fn saturate_i64(x: i128) -> (r: i64)
    ensures
        r == clamp_i64(x as int),
{
    if x < i64::MIN as i128 {
        i64::MIN
    } else if x > i64::MAX as i128 {
        i64::MAX
    } else {
        x as i64
    }
}

/// Saturates an unsigned 128-bit value to `u64`.
pub fn saturate_u64(x: u128) -> (r: u64)
    ensures
        r == clamp_u64(x as int),
{
    if x > u64::MAX as u128 {
        u64::MAX
    } else {
        x as u64
    }
}

/// Floor division of a signed numerator, given as sign and magnitude, by a
/// positive divisor.
pub(crate) fn floor_div_signed(negative: bool, magnitude: u128, d: u128) -> (q: i128)
    requires
        d > 0,
        magnitude <= i128::MAX,
    ensures
        q == floor_div(if negative { -(magnitude as int) } else { magnitude as int }, d as int),
        -(magnitude as int) - 1 <= q <= magnitude,
{
    let quot: u128 = magnitude / d;
    let rem: u128 = magnitude % d;
    proof {
        assert(magnitude as int == (d as int) * (quot as int) + (rem as int)) by {
            vstd::arithmetic::div_mod::lemma_fundamental_div_mod(magnitude as int, d as int);
        }
        assert(quot <= magnitude) by {
            vstd::arithmetic::div_mod::lemma_div_nonincreasing(magnitude as int, d as int);
        }
    }
    if !negative {
        quot as i128
    } else if rem == 0 {
        proof {
            assert(-(magnitude as int) == (-(quot as int)) * (d as int) + 0) by (nonlinear_arith)
                requires
                    magnitude as int == (d as int) * (quot as int) + (rem as int),
                    rem == 0,
            ;
            lemma_fundamental_div_mod_converse(-(magnitude as int), d as int, -(quot as int), 0);
        }
        -(quot as i128)
    } else {
        proof {
            assert(-(magnitude as int) == (-(quot as int) - 1) * (d as int) + (d as int - rem as int))
                by (nonlinear_arith)
                requires
                    magnitude as int == (d as int) * (quot as int) + (rem as int),
            ;
            lemma_fundamental_div_mod_converse(
                -(magnitude as int),
                d as int,
                -(quot as int) - 1,
                d as int - rem as int,
            );
        }
        -(quot as i128) - 1
    }
}

/// Fixed-point product of a signed weight and a non-negative value.
pub(crate) fn mul_fixed(w: i64, v: u128) -> (r: i128)
    requires
        v <= WIDE_LIMIT,
    ensures
        r == fx_mul(w as int, v as int),
        -PRODUCT_LIMIT <= r <= PRODUCT_LIMIT,
{
    let m: u128 = magnitude(w);
    assert(m * v <= 0x8000_0000_0000_0000 * 0xC000_0000_0000_0000) by (nonlinear_arith)
        requires
            m <= 0x8000_0000_0000_0000,
            v <= 0xC000_0000_0000_0000,
    ;
    let p: u128 = m * v;
    let r = floor_div_signed(w < 0, p, UNIT as u128);
    proof {
        let sp: int = if w < 0 { -(p as int) } else { p as int };
        assert(sp == (w as int) * (v as int)) by (nonlinear_arith)
            requires
                p as int == (m as int) * (v as int),
                m as int == abs(w as int),
                sp == if w < 0 { -(p as int) } else { p as int },
        ;
        vstd::arithmetic::div_mod::lemma_fundamental_div_mod(sp, UNIT as int);
        vstd::arithmetic::div_mod::lemma_mod_bound(sp, UNIT as int);
        assert(-PRODUCT_LIMIT <= r <= PRODUCT_LIMIT) by (nonlinear_arith)
            requires
                sp == 1_000_000 * (r as int) + sp % 1_000_000,
                0 <= sp % 1_000_000 < 1_000_000,
                -(0x8000_0000_0000_0000 * 0xC000_0000_0000_0000) <= sp <= 0x8000_0000_0000_0000
                    * 0xC000_0000_0000_0000,
                PRODUCT_LIMIT == 0x1000_0000_0000_0000_0000_0000_0000,
        ;
    }
    r
}

/// Whether `r` is the whole part of the square root of `x`.
pub open spec fn is_sqrt_floor(x: int, r: int) -> bool {
    0 <= r && r * r <= x && x < (r + 1) * (r + 1)
}

/// The whole part of the square root of `x`.
pub fn sqrt_floor(x: u128) -> (r: u128)
    ensures
        is_sqrt_floor(x as int, r as int),
        r <= 0xffff_ffff_ffff_ffff,
{
    let mut low: u128 = 0;
    let mut high: u128 = 0x1_0000_0000_0000_0000;
    assert(0 * 0 == 0 && 0x1_0000_0000_0000_0000 * 0x1_0000_0000_0000_0000
        == 0x1_0000_0000_0000_0000_0000_0000_0000_0000) by (nonlinear_arith);
    while high - low > 1
        invariant
            low < high <= 0x1_0000_0000_0000_0000,
            low * low <= x,
            x < high * high,
        decreases high - low,
    {
        let mid: u128 = low + (high - low) / 2;
        assert(mid * mid <= 0xffff_ffff_ffff_ffff * 0xffff_ffff_ffff_ffff) by (nonlinear_arith)
            requires
                mid <= 0xffff_ffff_ffff_ffff,
        ;
        if mid * mid <= x {
            low = mid;
        } else {
            high = mid;
        }
    }
    low
}

} // verus!
