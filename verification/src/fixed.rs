//! Signed fixed-point numbers with 32 fractional bits, held in an `i64`.
//!
//! A raw value `v` stands for the real number `v / 2^32`. Every operation
//! rounds down to the grid and saturates at the ends of the `i64` range, so
//! none can overflow.

use vstd::prelude::*;
use vstd::arithmetic::div_mod::lemma_fundamental_div_mod_converse;

verus! {

/// The raw value of `1.0`.
pub const ONE: i64 = 4294967296;

/// The raw value of `0.5`.
pub const HALF: i64 = 2147483648;

/// The value nearest to `v` that an `i64` can hold.
pub open spec fn saturate(v: int) -> i64 {
    if v < i64::MIN {
        i64::MIN
    } else if v > i64::MAX {
        i64::MAX
    } else {
        v as i64
    }
}

/// Quotient rounded towards negative infinity, for any divisor but zero.
pub open spec fn floor_div(n: int, d: int) -> int {
    if d > 0 {
        n / d
    } else {
        (-n) / (-d)
    }
}

/// Saturating sum.
pub open spec fn add_sat(a: i64, b: i64) -> i64 {
    saturate(a + b)
}

/// Saturating difference.
pub open spec fn sub_sat(a: i64, b: i64) -> i64 {
    saturate(a - b)
}

/// Fixed-point product, rounded down, saturating.
pub open spec fn mul_sat(a: i64, b: i64) -> i64 {
    saturate((a * b) / (ONE as int))
}

/// Fixed-point quotient, rounded down, saturating. A division by zero
/// saturates in the direction of the dividend's sign and gives zero for zero.
pub open spec fn div_sat(a: i64, b: i64) -> i64 {
    if b == 0 {
        if a > 0 {
            i64::MAX
        } else if a < 0 {
            i64::MIN
        } else {
            0
        }
    } else {
        saturate(floor_div(a * ONE, b as int))
    }
}

/// Saturating absolute value.
pub open spec fn abs_sat(a: i64) -> i64 {
    if a >= 0 {
        a
    } else {
        saturate(-a)
    }
}

/// The smaller of two values.
pub open spec fn min_of(a: i64, b: i64) -> i64 {
    if a <= b {
        a
    } else {
        b
    }
}

/// `v` limited to the range from `lo` to `hi`.
pub open spec fn clamp_to(v: i64, lo: i64, hi: i64) -> i64 {
    if v < lo {
        lo
    } else if v > hi {
        hi
    } else {
        v
    }
}

fn narrow(v: i128) -> (r: i64)
    ensures
        r == saturate(v as int),
{
    if v < i64::MIN as i128 {
        i64::MIN
    } else if v > i64::MAX as i128 {
        i64::MAX
    } else {
        v as i64
    }
}

fn floor_quotient(n: i128, d: i128) -> (q: i128)
    requires
        d > 0,
        -0x4000_0000_0000_0000_0000_0000_0000_0000 <= n <= 0x4000_0000_0000_0000_0000_0000_0000_0000,
    ensures
        q == n as int / d as int,
{
    if n >= 0 {
        n / d
    } else {
        let m: i128 = -n;
        let q: i128 = m / d;
        let r: i128 = m % d;
        proof {
            vstd::arithmetic::div_mod::lemma_fundamental_div_mod(m as int, d as int);
            vstd::arithmetic::div_mod::lemma_div_pos_is_pos(m as int, d as int);
            assert(q <= m) by {
                vstd::arithmetic::div_mod::lemma_div_is_ordered_by_denominator(m as int, 1, d as int);
                vstd::arithmetic::div_mod::lemma_div_basics(m as int);
            }
        }
        if r == 0 {
            proof {
                assert(n == (-q) * d + 0) by (nonlinear_arith)
                    requires
                        -n == d * q + 0,
                ;
                lemma_fundamental_div_mod_converse(n as int, d as int, -q as int, 0);
            }
            -q
        } else {
            proof {
                assert(n == (-q - 1) * d + (d - r)) by (nonlinear_arith)
                    requires
                        -n == d * q + r,
                ;
                lemma_fundamental_div_mod_converse(n as int, d as int, -q - 1, d - r);
            }
            -q - 1
        }
    }
}

/// Saturating sum.
pub fn fx_add(a: i64, b: i64) -> (r: i64)
    ensures
        r == add_sat(a, b),
{
    narrow(a as i128 + b as i128)
}

/// Saturating difference.
pub fn fx_sub(a: i64, b: i64) -> (r: i64)
    ensures
        r == sub_sat(a, b),
{
    narrow(a as i128 - b as i128)
}

/// Fixed-point product, rounded down, saturating.
pub fn fx_mul(a: i64, b: i64) -> (r: i64)
    ensures
        r == mul_sat(a, b),
{
    assert(-0x4000_0000_0000_0000_0000_0000_0000_0000 <= a * b <= 0x4000_0000_0000_0000_0000_0000_0000_0000) by (nonlinear_arith)
        requires
            -0x8000_0000_0000_0000 <= a <= 0x7fff_ffff_ffff_ffff,
            -0x8000_0000_0000_0000 <= b <= 0x7fff_ffff_ffff_ffff,
    ;
    let product: i128 = a as i128 * b as i128;
    narrow(floor_quotient(product, ONE as i128))
}

/// Fixed-point quotient, rounded down, saturating.
pub fn fx_div(a: i64, b: i64) -> (r: i64)
    ensures
        r == div_sat(a, b),
{
    if b == 0 {
        if a > 0 {
            i64::MAX
        } else if a < 0 {
            i64::MIN
        } else {
            0
        }
    } else {
        assert(-0x4000_0000_0000_0000_0000_0000_0000_0000 <= a * ONE <= 0x4000_0000_0000_0000_0000_0000_0000_0000) by (nonlinear_arith)
            requires
                -0x8000_0000_0000_0000 <= a <= 0x7fff_ffff_ffff_ffff,
                ONE == 4294967296,
        ;
        let n: i128 = a as i128 * ONE as i128;
        if b > 0 {
            narrow(floor_quotient(n, b as i128))
        } else {
            narrow(floor_quotient(-n, -(b as i128)))
        }
    }
}

/// Saturating absolute value.
pub fn fx_abs(a: i64) -> (r: i64)
    ensures
        r == abs_sat(a),
{
    if a >= 0 {
        a
    } else {
        narrow(-(a as i128))
    }
}

/// The smaller of two values.
pub fn fx_min(a: i64, b: i64) -> (r: i64)
    ensures
        r == min_of(a, b),
{
    if a <= b {
        a
    } else {
        b
    }
}

/// `v` limited to the range from `lo` to `hi`.
pub fn fx_clamp(v: i64, lo: i64, hi: i64) -> (r: i64)
    requires
        lo <= hi,
    ensures
        r == clamp_to(v, lo, hi),
{
    if v < lo {
        lo
    } else if v > hi {
        hi
    } else {
        v
    }
}


/// A quotient of a value that is not negative by a positive one is not
/// negative.
pub proof fn lemma_div_sat_nonneg(a: i64, b: i64)
    requires
        0 <= a,
        0 < b,
    ensures
        0 <= div_sat(a, b),
{
    assert(0 <= a * ONE) by (nonlinear_arith)
        requires
            0 <= a,
            ONE == 4294967296,
    ;
    vstd::arithmetic::div_mod::lemma_div_pos_is_pos(a * ONE, b as int);
}

/// A product of two values that are not negative is not negative.
pub proof fn lemma_mul_sat_nonneg(a: i64, b: i64)
    requires
        0 <= a,
        0 <= b,
    ensures
        0 <= mul_sat(a, b),
{
    assert(0 <= a * b) by (nonlinear_arith)
        requires
            0 <= a,
            0 <= b,
    ;
    vstd::arithmetic::div_mod::lemma_div_pos_is_pos(a * b, ONE as int);
}

} // verus!
