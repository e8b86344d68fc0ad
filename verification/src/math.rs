//! Exact integer arithmetic used by the field evaluator and the integrator:
//! floor square root, truncating (sign-magnitude) division, and symmetric
//! clamping of wide intermediates into `i64`.

use vstd::prelude::*;
use vstd::arithmetic::mul::lemma_mul_upper_bound;

verus! {

/// Magnitude of an integer, as an `int`.
pub open spec fn mag(a: int) -> int {
    if a < 0 {
        -a
    } else {
        a
    }
}

/// Floor of the square root of a natural number.
pub open spec fn sqrt_floor(n: nat) -> nat
    decreases n,
{
    if n == 0 {
        0
    } else {
        let r = sqrt_floor((n - 1) as nat);
        if (r + 1) * (r + 1) <= n {
            r + 1
        } else {
            r
        }
    }
}

/// `sqrt_floor(n)` is the unique `r` with `r * r <= n < (r + 1) * (r + 1)`.
pub proof fn lemma_sqrt_floor_bounds(n: nat)
    ensures
        sqrt_floor(n) * sqrt_floor(n) <= n,
        n < (sqrt_floor(n) + 1) * (sqrt_floor(n) + 1),
    decreases n,
{
    if n == 0 {
        assert(sqrt_floor(n) == 0);
        assert(n < (sqrt_floor(n) + 1) * (sqrt_floor(n) + 1)) by (nonlinear_arith)
            requires
                n == 0,
                sqrt_floor(n) == 0,
        ;
    } else {
        let r = sqrt_floor((n - 1) as nat);
        lemma_sqrt_floor_bounds((n - 1) as nat);
        if (r + 1) * (r + 1) <= n {
            assert(sqrt_floor(n) == r + 1);
            assert(n < (r + 2) * (r + 2)) by (nonlinear_arith)
                requires
                    n <= (r + 1) * (r + 1),
                    r >= 0,
            ;
        } else {
            assert(sqrt_floor(n) == r);
        }
    }
}

pub proof fn lemma_sqrt_floor_unique(n: nat, r: nat)
    requires
        r * r <= n,
        n < (r + 1) * (r + 1),
    ensures
        r == sqrt_floor(n),
{
    let s = sqrt_floor(n);
    lemma_sqrt_floor_bounds(n);
    if r < s {
        assert((r + 1) * (r + 1) <= s * s) by (nonlinear_arith)
            requires
                r + 1 <= s,
        ;
    }
    if s < r {
        assert((s + 1) * (s + 1) <= r * r) by (nonlinear_arith)
            requires
                s + 1 <= r,
        ;
    }
}

/// Floor square root by bisection.
pub fn isqrt(n: u128) -> (r: u128)
    ensures
        r * r <= n,
        n < (r + 1) * (r + 1),
        r == sqrt_floor(n as nat),
        r < 0x1_0000_0000_0000_0000u128,
{
    let mut lo: u128 = 0;
    let mut hi: u128 = 0x1_0000_0000_0000_0000u128;
    proof {
        assert(n < hi * hi) by (nonlinear_arith)
            requires
                hi == 0x1_0000_0000_0000_0000u128,
                n <= 0xffff_ffff_ffff_ffff_ffff_ffff_ffff_ffffu128,
        ;
    }
    while hi - lo > 1
        invariant
            lo < hi <= 0x1_0000_0000_0000_0000u128,
            lo * lo <= n,
            n < hi * hi,
        decreases hi - lo,
    {
        let mid = lo + (hi - lo) / 2;
        assert(lo < mid < hi);
        proof {
            lemma_mul_upper_bound(mid as int, 0x1_0000_0000_0000_0000 - 1, mid as int, 0x1_0000_0000_0000_0000 - 1);
        }
        if mid * mid <= n {
            lo = mid;
        } else {
            hi = mid;
        }
    }
    proof {
        lemma_sqrt_floor_unique(n as nat, lo as nat);
    }
    lo
}

/// Division that truncates toward zero (the quotient of magnitudes, carrying
/// the dividend's sign), for a positive divisor.
pub open spec fn tdiv(a: int, b: int) -> int
    recommends
        b > 0,
{
    if a >= 0 {
        a / b
    } else {
        -((-a) / b)
    }
}

/// Truncating division on wide integers, exactly `tdiv`.
pub fn tdiv_i128(a: i128, b: i128) -> (r: i128)
    requires
        b > 0,
        a > i128::MIN,
    ensures
        r == tdiv(a as int, b as int),
        mag(r as int) <= mag(a as int),
{
    proof {
        vstd::arithmetic::div_mod::lemma_div_nonincreasing(mag(a as int), b as int);
        vstd::arithmetic::div_mod::lemma_div_pos_is_pos(mag(a as int), b as int);
    }
    if a >= 0 {
        ((a as u128) / (b as u128)) as i128
    } else {
        -((((-a) as u128) / (b as u128)) as i128)
    }
}

/// A quotient of nonnegatives is at most `bound` once the dividend is at
/// most `bound * d`.
pub proof fn lemma_div_le(num: int, bound: int, d: int)
    requires
        0 <= num,
        0 < d,
        num <= bound * d,
    ensures
        num / d <= bound,
{
    vstd::arithmetic::div_mod::lemma_div_is_ordered(num, bound * d, d);
    vstd::arithmetic::div_mod::lemma_div_multiples_vanish(bound, d);
    vstd::arithmetic::mul::lemma_mul_is_commutative(bound, d);
}

/// The magnitude of a truncating quotient is bounded once the dividend is.
pub proof fn lemma_tdiv_mag(a: int, b: int, bound: int)
    requires
        b > 0,
        0 <= bound,
        mag(a) <= bound * b,
    ensures
        mag(tdiv(a, b)) <= bound,
{
    if a >= 0 {
        vstd::arithmetic::div_mod::lemma_div_pos_is_pos(a, b);
        lemma_div_le(a, bound, b);
    } else {
        vstd::arithmetic::div_mod::lemma_div_pos_is_pos(-a, b);
        lemma_div_le(-a, bound, b);
    }
}

/// The magnitude of a product is bounded by the product of the bounds.
pub proof fn lemma_mag_mul_bound(a: int, b: int, ab: int, bb: int)
    requires
        mag(a) <= ab,
        mag(b) <= bb,
    ensures
        mag(a * b) <= ab * bb,
{
    assert(mag(a * b) <= ab * bb) by (nonlinear_arith)
        requires
            mag(a) <= ab,
            mag(b) <= bb,
    ;
}

/// Clamp into `[-lim, lim]`; the symmetric range keeps negation exact.
pub open spec fn clamp_mag(v: int, lim: int) -> int {
    if v > lim {
        lim
    } else if v < -lim {
        -lim
    } else {
        v
    }
}

/// Clamp a wide intermediate into the symmetric `i64` range.
pub fn clamp_to_i64(v: i128) -> (r: i64)
    ensures
        r == clamp_mag(v as int, i64::MAX as int),
{
    if v > i64::MAX as i128 {
        i64::MAX
    } else if v < -(i64::MAX as i128) {
        -i64::MAX
    } else {
        v as i64
    }
}

} // verus!
