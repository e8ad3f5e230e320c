//! Fixed-point scalars.
//!
//! A scalar is an `i64` counting micro-units: `ONE` of them make one world
//! unit.  Products and quotients are computed in `i128` and rounded toward
//! zero, exactly as [`div_t`] specifies, so every contract in the crate can
//! state results of fixed-point arithmetic without approximation.

use vstd::prelude::*;
use vstd::arithmetic::div_mod::lemma_fundamental_div_mod;
use vstd::arithmetic::mul::lemma_mul_inequality;

verus! {

/// Number of micro-units in one world unit.
pub const ONE: i64 = 1_000_000;

/// Largest magnitude a coordinate may take: one thousand world units.
/// Keeping coordinates within this bound lets every dot product of two
/// vectors fit in an `i64`.
pub const MAX_FIX: i64 = 1_000_000_000;

/// Magnitude of an integer.
pub open spec fn mag(a: int) -> int {
    if a < 0 {
        -a
    } else {
        a
    }
}

/// Division rounded toward zero, the rounding that `/` performs on Rust's
/// signed integers.  Callers keep `b > 0`.
pub open spec fn div_t(a: int, b: int) -> int {
    if a >= 0 {
        a / b
    } else {
        -((-a) / b)
    }
}

/// Integer square root, rounded down; zero for negative arguments.
pub open spec fn spec_isqrt(n: int) -> int
    decreases n,
{
    if n <= 0 {
        0
    } else {
        let r = spec_isqrt(n - 1);
        if (r + 1) * (r + 1) <= n {
            r + 1
        } else {
            r
        }
    }
}

/// `div_t(a, b)` differs from the exact quotient by a remainder smaller
/// than the divisor and of the numerator's sign.
pub proof fn lemma_div_t(a: int, b: int)
    requires
        b > 0,
    ensures
        a == div_t(a, b) * b + (a - div_t(a, b) * b),
        mag(a - div_t(a, b) * b) < b,
        a >= 0 ==> a - div_t(a, b) * b >= 0 && div_t(a, b) >= 0,
        a <= 0 ==> a - div_t(a, b) * b <= 0 && div_t(a, b) <= 0,
{
    if a >= 0 {
        let q = a / b;
        lemma_fundamental_div_mod(a, b);
        vstd::arithmetic::div_mod::lemma_mod_bound(a, b);
        vstd::arithmetic::div_mod::lemma_div_pos_is_pos(a, b);
        assert(a == b * q + (a % b));
        assert(b * q == q * b) by (nonlinear_arith);
    } else {
        let q = (-a) / b;
        lemma_fundamental_div_mod(-a, b);
        vstd::arithmetic::div_mod::lemma_mod_bound(-a, b);
        vstd::arithmetic::div_mod::lemma_div_pos_is_pos(-a, b);
        assert(div_t(a, b) == -q);
        assert((-q) * b == -(q * b)) by (nonlinear_arith);
        assert(-a == b * q + ((-a) % b));
        assert(b * q == q * b) by (nonlinear_arith);
    }
}

/// The magnitude of a truncated quotient is bounded by the numerator's
/// magnitude over the divisor.
pub proof fn lemma_div_t_mag(a: int, b: int)
    requires
        b > 0,
    ensures
        mag(div_t(a, b)) * b <= mag(a),
        mag(div_t(a, b)) <= mag(a) / b,
{
    lemma_div_t(a, b);
    if a >= 0 {
        assert(mag(div_t(a, b)) * b <= mag(a)) by (nonlinear_arith)
            requires
                a >= 0,
                b > 0,
                div_t(a, b) >= 0,
                a - div_t(a, b) * b >= 0,
        ;
    } else {
        assert(mag(div_t(a, b)) * b <= mag(a)) by (nonlinear_arith)
            requires
                a < 0,
                b > 0,
                div_t(a, b) <= 0,
                a - div_t(a, b) * b <= 0,
        ;
    }
    assert(mag(div_t(a, b)) <= mag(a) / b) by (nonlinear_arith)
        requires
            b > 0,
            mag(div_t(a, b)) * b <= mag(a),
            mag(div_t(a, b)) >= 0,
            mag(a) >= 0,
    ;
}

/// Magnitudes multiply through a product.
pub proof fn lemma_mag_mul(a: int, b: int)
    ensures
        mag(a * b) == mag(a) * mag(b),
{
    assert(mag(a * b) == mag(a) * mag(b)) by (nonlinear_arith);
}

/// Bounds multiply through a product of magnitudes.
pub proof fn lemma_mag_mul_bound(a: int, b: int, x: int, y: int)
    requires
        mag(a) <= x,
        mag(b) <= y,
    ensures
        mag(a * b) <= x * y,
{
    lemma_mag_mul(a, b);
    lemma_mul_inequality(mag(a), x, mag(b));
    lemma_mul_inequality(mag(b), y, x);
    assert(x * mag(b) == mag(b) * x) by (nonlinear_arith);
}

/// The integer square root is never negative.
pub proof fn lemma_isqrt_nonneg(n: int)
    ensures
        spec_isqrt(n) >= 0,
    decreases n,
{
    if n > 0 {
        lemma_isqrt_nonneg(n - 1);
    }
}

/// The recursive definition of [`spec_isqrt`] lands between the two
/// consecutive squares around its argument.
pub proof fn lemma_isqrt_bounds(n: int)
    requires
        n >= 0,
    ensures
        spec_isqrt(n) >= 0,
        spec_isqrt(n) * spec_isqrt(n) <= n,
        n < (spec_isqrt(n) + 1) * (spec_isqrt(n) + 1),
    decreases n,
{
    if n > 0 {
        lemma_isqrt_bounds(n - 1);
        let r = spec_isqrt(n - 1);
        if (r + 1) * (r + 1) <= n {
            assert(n < (r + 2) * (r + 2)) by (nonlinear_arith)
                requires
                    r >= 0,
                    n - 1 < (r + 1) * (r + 1),
                    (r + 1) * (r + 1) <= n,
            ;
        }
    }
}

/// A nonnegative root squeezed between consecutive squares is the integer
/// square root: the characterization is unique.
pub proof fn lemma_isqrt_unique(n: int, r: int)
    requires
        n >= 0,
        r >= 0,
        r * r <= n,
        n < (r + 1) * (r + 1),
    ensures
        r == spec_isqrt(n),
{
    lemma_isqrt_bounds(n);
    let s = spec_isqrt(n);
    assert(r == s) by (nonlinear_arith)
        requires
            r >= 0,
            s >= 0,
            r * r <= n,
            n < (r + 1) * (r + 1),
            s * s <= n,
            n < (s + 1) * (s + 1),
    ;
}

/// The integer square root is monotone.
pub proof fn lemma_isqrt_mono(a: int, b: int)
    requires
        0 <= a <= b,
    ensures
        spec_isqrt(a) <= spec_isqrt(b),
{
    lemma_isqrt_bounds(a);
    lemma_isqrt_bounds(b);
    let ra = spec_isqrt(a);
    let rb = spec_isqrt(b);
    assert(ra <= rb) by (nonlinear_arith)
        requires
            ra >= 0,
            rb >= 0,
            ra * ra <= a,
            b < (rb + 1) * (rb + 1),
            a <= b,
    ;
}

/// The integer square root of a perfect square is its root.
pub proof fn lemma_isqrt_square(x: int)
    requires
        x >= 0,
    ensures
        spec_isqrt(x * x) == x,
{
    assert(x * x >= 0 && x * x < (x + 1) * (x + 1)) by (nonlinear_arith)
        requires
            x >= 0,
    ;
    lemma_isqrt_unique(x * x, x);
}

/// Integer square root, rounded down.
pub fn isqrt(n: i64) -> (r: i64)
    requires
        n >= 0,
    ensures
        r == spec_isqrt(n as int),
        r >= 0,
        r * r <= n,
        n < (r + 1) * (r + 1),
{
    let nn: u128 = n as u128;
    let mut lo: u64 = 0;
    let mut hi: u64 = 4_294_967_296;
    proof {
        assert((hi as int) * (hi as int) > nn as int) by (nonlinear_arith)
            requires
                hi == 4_294_967_296u64,
                nn <= 9_223_372_036_854_775_807,
        ;
    }
    while hi - lo > 1
        invariant
            lo < hi,
            hi <= 4_294_967_296,
            nn == n as u128,
            n >= 0,
            (lo as int) * (lo as int) <= nn as int,
            (nn as int) < (hi as int) * (hi as int),
        decreases hi - lo,
    {
        let mid: u64 = lo + (hi - lo) / 2;
        proof {
            assert((mid as int) * (mid as int) < 0x1_0000_0000_0000_0000) by (nonlinear_arith)
                requires
                    mid < 4_294_967_296,
            ;
        }
        if (mid as u128) * (mid as u128) <= nn {
            lo = mid;
        } else {
            hi = mid;
        }
    }
    proof {
        lemma_isqrt_unique(n as int, lo as int);
    }
    lo as i64
}

/// Integer square root of a wide value, rounded down.  Covers products
/// beyond the scalar range, such as a squared radius times a squared
/// length.
pub fn isqrt_wide(n: u128) -> (r: u128)
    requires
        n < 0x4000_0000_0000_0000_0000_0000_0000_0000,
    ensures
        r == spec_isqrt(n as int),
        r >= 0,
        r * r <= n,
        n < (r + 1) * (r + 1),
{
    let mut lo: u128 = 0;
    let mut hi: u128 = 0x8000_0000_0000_0000;
    proof {
        assert((hi as int) * (hi as int) > n as int) by (nonlinear_arith)
            requires
                hi == 0x8000_0000_0000_0000u128,
                n < 0x4000_0000_0000_0000_0000_0000_0000_0000,
        ;
    }
    while hi - lo > 1
        invariant
            lo < hi,
            hi <= 0x8000_0000_0000_0000,
            (lo as int) * (lo as int) <= n as int,
            (n as int) < (hi as int) * (hi as int),
        decreases hi - lo,
    {
        let mid: u128 = lo + (hi - lo) / 2;
        proof {
            assert((mid as int) * (mid as int) < 0x1_0000_0000_0000_0000_0000_0000_0000_0000)
                by (nonlinear_arith)
                requires
                    mid < 0x8000_0000_0000_0000,
            ;
        }
        if mid * mid <= n {
            lo = mid;
        } else {
            hi = mid;
        }
    }
    proof {
        lemma_isqrt_unique(n as int, lo as int);
    }
    lo
}

/// Multiplies two scalars and divides by a positive divisor, rounding
/// toward zero, all in one exact step through `i128`.
pub fn mul_div(a: i64, b: i64, den: i64) -> (r: i64)
    requires
        den > 0,
        mag(a as int * b as int) <= den * MAX_FIX,
    ensures
        r == div_t(a as int * b as int, den as int),
        mag(r as int) <= MAX_FIX,
        mag(r as int) * den <= mag(a as int * b as int),
{
    proof {
        lemma_mag_mul(a as int, b as int);
        lemma_div_t_mag(a as int * b as int, den as int);
        assert(mag(a as int * b as int) / (den as int) <= MAX_FIX) by (nonlinear_arith)
            requires
                den > 0,
                mag(a as int * b as int) <= den * MAX_FIX,
        ;
    }
    let p: i128 = (a as i128) * (b as i128);
    let q: i128 = p / (den as i128);
    q as i64
}

/// Multiplies a scalar by a fixed-point factor: `a * b` at scale [`ONE`],
/// rounded toward zero.
pub fn fx_mul(a: i64, b: i64) -> (r: i64)
    requires
        mag(a as int) <= MAX_FIX,
        mag(b as int) <= ONE,
    ensures
        r == div_t(a as int * b as int, ONE as int),
        mag(r as int) <= mag(a as int),
{
    proof {
        lemma_mag_mul_bound(a as int, b as int, mag(a as int), ONE as int);
        lemma_div_t_mag(a as int * b as int, ONE as int);
        lemma_mag_mul(a as int, b as int);
        assert(mag(a as int) * (ONE as int) / (ONE as int) == mag(a as int)) by (nonlinear_arith)
            requires
                mag(a as int) >= 0,
        ;
        vstd::arithmetic::div_mod::lemma_div_is_ordered(
            mag(a as int * b as int),
            mag(a as int) * (ONE as int),
            ONE as int,
        );
    }
    mul_div(a, b, ONE)
}

} // verus!
