//! Exact proportional scaling of grid lengths.

use vstd::prelude::*;
use vstd::arithmetic::div_mod::lemma_fundamental_div_mod_converse;

verus! {

/// `len` scaled by the fraction `part / whole`, rounded down to the grid.
pub open spec fn scaled(len: int, part: int, whole: int) -> int {
    (len * part) / whole
}

/// A quotient of `n * part` by `whole` never exceeds `n` when `part <= whole`.
pub proof fn lemma_quotient_bound(q: int, rem: int, n: int, part: int, whole: int)
    by (nonlinear_arith)
    requires
        0 <= part <= whole,
        0 < whole,
        0 <= rem,
        0 <= n,
        q * whole + rem == n * part,
    ensures
        q <= n,
{
}

/// `scaled` stays between `0` and `len`.
pub proof fn lemma_scaled_bounds(len: int, part: int, whole: int)
    requires
        0 <= len,
        0 <= part <= whole,
        0 < whole,
    ensures
        0 <= scaled(len, part, whole) <= len,
{
    let x = len * part;
    assert(0 <= x) by (nonlinear_arith)
        requires
            0 <= len,
            0 <= part,
            x == len * part,
    ;
    let q = x / whole;
    let r = x % whole;
    vstd::arithmetic::div_mod::lemma_fundamental_div_mod(x, whole);
    assert(x == whole * q + r);
    assert(0 <= r < whole) by {
        vstd::arithmetic::div_mod::lemma_mod_bound(x, whole);
    }
    assert(q >= 0) by (nonlinear_arith)
        requires
            x == whole * q + r,
            0 <= x,
            0 <= r < whole,
            0 < whole,
    ;
    assert(q * whole + r == len * part) by (nonlinear_arith)
        requires
            x == whole * q + r,
            x == len * part,
    ;
    lemma_quotient_bound(q, r, len, part, whole);
}

/// The whole fraction gives the whole length.
pub proof fn lemma_scaled_whole(len: int, whole: int)
    requires
        0 < whole,
    ensures
        scaled(len, whole, whole) == len,
        scaled(len, 0, whole) == 0,
{
    vstd::arithmetic::div_mod::lemma_div_multiples_vanish(len, whole);
    assert(len * whole == whole * len) by (nonlinear_arith);
    assert(len * 0 == 0) by (nonlinear_arith);
}

/// `scaled` grows with the part.
pub proof fn lemma_scaled_monotone(len: int, a: int, b: int, whole: int)
    requires
        0 <= len,
        0 <= a <= b,
        0 < whole,
    ensures
        scaled(len, a, whole) <= scaled(len, b, whole),
{
    assert(len * a <= len * b) by (nonlinear_arith)
        requires
            0 <= len,
            a <= b,
    ;
    vstd::arithmetic::div_mod::lemma_div_is_ordered(len * a, len * b, whole);
}

/// The difference of two rounded-down quotients is the rounded-down quotient
/// of the difference, or one more.
pub proof fn lemma_floor_difference(a: int, b: int, d: int)
    requires
        0 < d,
    ensures
        (b - a) / d <= b / d - a / d <= (b - a) / d + 1,
{
    vstd::arithmetic::div_mod::lemma_fundamental_div_mod(a, d);
    vstd::arithmetic::div_mod::lemma_fundamental_div_mod(b, d);
    vstd::arithmetic::div_mod::lemma_fundamental_div_mod(b - a, d);
    vstd::arithmetic::div_mod::lemma_mod_bound(a, d);
    vstd::arithmetic::div_mod::lemma_mod_bound(b, d);
    vstd::arithmetic::div_mod::lemma_mod_bound(b - a, d);
    let qa = a / d;
    let qb = b / d;
    let qd = (b - a) / d;
    assert(qd <= qb - qa <= qd + 1) by (nonlinear_arith)
        requires
            0 < d,
            a == d * qa + a % d,
            b == d * qb + b % d,
            b - a == d * qd + (b - a) % d,
            0 <= a % d < d,
            0 <= b % d < d,
            0 <= (b - a) % d < d,
    ;
}

/// Quotient and remainder of `len * part` by `whole`, without forming the product.
fn mul_div_rem(len: u64, part: u128, whole: u128) -> (out: (u64, u128))
    requires
        part <= whole,
        0 < whole,
    ensures
        out.0 * whole + out.1 == len * part,
        out.1 < whole,
    decreases len,
{
    if len == 0 {
        assert(0 * whole + 0 == 0 * part) by (nonlinear_arith);
        return (0, 0);
    }
    let half: u64 = len / 2;
    let odd: bool = len % 2 == 1;
    let (q0, r0) = mul_div_rem(half, part, whole);
    proof {
        lemma_quotient_bound(q0 as int, r0 as int, half as int, part as int, whole as int);
    }
    let q1: u64;
    let r1: u128;
    if r0 >= whole - r0 {
        q1 = 2 * q0 + 1;
        r1 = r0 - (whole - r0);
    } else {
        q1 = 2 * q0;
        r1 = r0 + r0;
    }
    assert(q1 * whole + r1 == 2 * half * part) by (nonlinear_arith)
        requires
            q0 * whole + r0 == half * part,
            (q1 == 2 * q0 + 1 && r1 == r0 - (whole - r0)) || (q1 == 2 * q0 && r1 == r0 + r0),
    ;
    if !odd {
        return (q1, r1);
    }
    proof {
        lemma_quotient_bound(q1 as int, r1 as int, 2 * half as int, part as int, whole as int);
    }
    let q2: u64;
    let r2: u128;
    if r1 >= whole - part {
        q2 = q1 + 1;
        r2 = r1 - (whole - part);
    } else {
        q2 = q1;
        r2 = r1 + part;
    }
    assert(q2 * whole + r2 == len * part) by (nonlinear_arith)
        requires
            q1 * whole + r1 == 2 * half * part,
            len == 2 * half + 1,
            (q2 == q1 + 1 && r2 == r1 - (whole - part)) || (q2 == q1 && r2 == r1 + part),
    ;
    (q2, r2)
}

/// Computes `len * part / whole` exactly for any operands with `part <= whole`.
pub fn mul_div(len: u64, part: u128, whole: u128) -> (q: u64)
    requires
        part <= whole,
        0 < whole,
    ensures
        q == scaled(len as int, part as int, whole as int),
{
    if whole <= u64::MAX as u128 {
        assert(len * part <= u128::MAX) by (nonlinear_arith)
            requires
                len <= u64::MAX,
                part <= u64::MAX,
        ;
        let product: u128 = len as u128 * part;
        let q: u128 = product / whole;
        proof {
            lemma_scaled_bounds(len as int, part as int, whole as int);
        }
        q as u64
    } else {
        let (q, rem) = mul_div_rem(len, part, whole);
        proof {
            assert(len * part == q * whole + rem);
            lemma_fundamental_div_mod_converse(len * part, whole as int, q as int, rem as int);
        }
        q
    }
}

} // verus!
