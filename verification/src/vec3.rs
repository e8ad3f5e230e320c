//! Vectors over fixed-point scalars.
//!
//! `Vec3` is a world-space vector, `Vec2` a horizontal (ground-plane)
//! vector; components are micro-unit scalars as in [`crate::fixed`].
//! Each executable operation is pinned to a spec mirror that states the
//! result exactly, rounding included, so higher layers can reason about
//! whole algorithms by unfolding these mirrors.

use vstd::prelude::*;
use crate::fixed::{div_t, mag, spec_isqrt, isqrt, mul_div, MAX_FIX};
use crate::fixed::{lemma_mag_mul_bound, lemma_div_t, lemma_div_t_mag, lemma_isqrt_mono,
    lemma_isqrt_square, lemma_isqrt_bounds};

verus! {

/// Smallest squared length accepted for a surface normal: within about
/// ten percent of a unit vector.  Planes carry normals of roughly unit
/// length so that the skin margin applied along them keeps its size.
pub const NORMAL_SQ_MIN: i64 = 810_000_000_000;

/// Largest component magnitude a vector may have when it is rejected from
/// a normal: keeps the projection arithmetic inside the scalar range.
pub const REJECT_MAX: i64 = 270_000_000;

/// A three-dimensional vector in micro-units.
#[derive(Clone, Copy, Debug, PartialEq, Eq, Structural)]
pub struct Vec3 {
    pub x: i64,
    pub y: i64,
    pub z: i64,
}

/// A two-dimensional vector in micro-units, used for ground-plane motion.
#[derive(Clone, Copy, Debug, PartialEq, Eq, Structural)]
pub struct Vec2 {
    pub x: i64,
    pub y: i64,
}

/// All three components are at most `m` in magnitude.
pub open spec fn bounded3(v: Vec3, m: int) -> bool {
    mag(v.x as int) <= m && mag(v.y as int) <= m && mag(v.z as int) <= m
}

/// Largest component magnitude of a vector.
pub open spec fn max_mag3(v: Vec3) -> int {
    let mx = mag(v.x as int);
    let my = mag(v.y as int);
    let mz = mag(v.z as int);
    if mx >= my && mx >= mz {
        mx
    } else if my >= mz {
        my
    } else {
        mz
    }
}

/// Exact dot product, in squared micro-units.
pub open spec fn spec_dot(a: Vec3, b: Vec3) -> int {
    a.x * b.x + a.y * b.y + a.z * b.z
}

/// Componentwise sum.
pub open spec fn spec_add3(a: Vec3, b: Vec3) -> Vec3 {
    Vec3 { x: (a.x + b.x) as i64, y: (a.y + b.y) as i64, z: (a.z + b.z) as i64 }
}

/// Componentwise difference.
pub open spec fn spec_sub3(a: Vec3, b: Vec3) -> Vec3 {
    Vec3 { x: (a.x - b.x) as i64, y: (a.y - b.y) as i64, z: (a.z - b.z) as i64 }
}

/// Scaling by the ratio `num / den`, each component rounded toward zero.
pub open spec fn spec_scale_div(v: Vec3, num: int, den: int) -> Vec3 {
    Vec3 {
        x: div_t(v.x * num, den) as i64,
        y: div_t(v.y * num, den) as i64,
        z: div_t(v.z * num, den) as i64,
    }
}

/// Euclidean length rounded down to a whole micro-unit.
pub open spec fn spec_len3(v: Vec3) -> int {
    spec_isqrt(spec_dot(v, v))
}

/// A vector clamped to a maximum length: unchanged when already short
/// enough, otherwise rescaled to that length on the fixed grid.
pub open spec fn spec_clamp_len3(v: Vec3, m: i64) -> Vec3 {
    if spec_len3(v) <= m {
        v
    } else {
        spec_scale_div(v, m as int, spec_len3(v))
    }
}

/// Vector rejection: `v` minus its projection onto `n`, each projected
/// component rounded toward zero.  This removes the part of `v` that
/// points into the surface whose normal is `n`.
pub open spec fn spec_reject(v: Vec3, n: Vec3) -> Vec3 {
    let s = spec_dot(v, n);
    let nn = spec_dot(n, n);
    Vec3 {
        x: (v.x - div_t(n.x * s, nn)) as i64,
        y: (v.y - div_t(n.y * s, nn)) as i64,
        z: (v.z - div_t(n.z * s, nn)) as i64,
    }
}

impl Vec3 {
    /// The zero vector.
    pub fn zero() -> (r: Vec3)
        ensures
            r == (Vec3 { x: 0, y: 0, z: 0 }),
    {
        Vec3 { x: 0, y: 0, z: 0 }
    }

    /// Componentwise sum.
    pub fn plus(self, o: Vec3) -> (r: Vec3)
        requires
            mag(self.x + o.x) <= i64::MAX,
            mag(self.y + o.y) <= i64::MAX,
            mag(self.z + o.z) <= i64::MAX,
        ensures
            r == spec_add3(self, o),
            r.x == self.x + o.x,
            r.y == self.y + o.y,
            r.z == self.z + o.z,
    {
        Vec3 { x: self.x + o.x, y: self.y + o.y, z: self.z + o.z }
    }

    /// Componentwise difference.
    pub fn minus(self, o: Vec3) -> (r: Vec3)
        requires
            mag(self.x - o.x) <= i64::MAX,
            mag(self.y - o.y) <= i64::MAX,
            mag(self.z - o.z) <= i64::MAX,
        ensures
            r == spec_sub3(self, o),
            r.x == self.x - o.x,
            r.y == self.y - o.y,
            r.z == self.z - o.z,
    {
        Vec3 { x: self.x - o.x, y: self.y - o.y, z: self.z - o.z }
    }

    /// Exact dot product.
    pub fn dot(self, o: Vec3) -> (r: i64)
        requires
            bounded3(self, MAX_FIX as int),
            bounded3(o, MAX_FIX as int),
        ensures
            r == spec_dot(self, o),
            mag(r as int) <= 3 * MAX_FIX * MAX_FIX,
    {
        proof {
            lemma_mag_mul_bound(self.x as int, o.x as int, MAX_FIX as int, MAX_FIX as int);
            lemma_mag_mul_bound(self.y as int, o.y as int, MAX_FIX as int, MAX_FIX as int);
            lemma_mag_mul_bound(self.z as int, o.z as int, MAX_FIX as int, MAX_FIX as int);
        }
        self.x * o.x + self.y * o.y + self.z * o.z
    }

    /// Length in micro-units, rounded down.
    pub fn length(self) -> (r: i64)
        requires
            bounded3(self, MAX_FIX as int),
        ensures
            r == spec_len3(self),
            r >= 0,
            r * r <= spec_dot(self, self),
            spec_dot(self, self) < (r + 1) * (r + 1),
            mag(self.x as int) <= r,
            mag(self.y as int) <= r,
            mag(self.z as int) <= r,
            r == 0 ==> self == (Vec3 { x: 0, y: 0, z: 0 }),
            r <= 2 * MAX_FIX,
    {
        let d = self.dot(self);
        proof {
            lemma_self_dot_bounds(self);
        }
        let r = isqrt(d);
        proof {
            lemma_len_dominates_components(self);
            lemma_isqrt_mono(spec_dot(self, self), 4 * MAX_FIX * MAX_FIX);
            lemma_isqrt_square(2 * MAX_FIX);
            if r == 0 {
                assert((r + 1) * (r + 1) == 1) by (nonlinear_arith)
                    requires
                        r == 0,
                ;
                lemma_self_dot_zero(self);
            }
        }
        r
    }

    /// Scales by the ratio `num / den`, rounding each component toward zero.
    pub fn scale_div(self, num: i64, den: i64) -> (r: Vec3)
        requires
            den > 0,
            bounded3(self, den as int),
            mag(num as int) <= MAX_FIX,
        ensures
            r == spec_scale_div(self, num as int, den as int),
            bounded3(r, mag(num as int)),
    {
        proof {
            lemma_scale_div_bounds(self, num as int, den as int);
        }
        Vec3 {
            x: mul_div(self.x, num, den),
            y: mul_div(self.y, num, den),
            z: mul_div(self.z, num, den),
        }
    }

    /// Scales by a fixed-point factor `s` at scale [`crate::fixed::ONE`],
    /// rounding each component toward zero.
    pub fn scale_fx(self, s: i64) -> (r: Vec3)
        requires
            bounded3(self, MAX_FIX as int),
            mag(s as int) <= crate::fixed::ONE as int,
        ensures
            r == spec_scale_div(self, s as int, crate::fixed::ONE as int),
            mag(r.x as int) <= mag(self.x as int),
            mag(r.y as int) <= mag(self.y as int),
            mag(r.z as int) <= mag(self.z as int),
            bounded3(self, crate::fixed::ONE as int) ==> bounded3(r, mag(s as int)),
    {
        proof {
            if bounded3(self, crate::fixed::ONE as int) {
                lemma_scale_div_bounds(self, s as int, crate::fixed::ONE as int);
            }
        }
        Vec3 {
            x: crate::fixed::fx_mul(self.x, s),
            y: crate::fixed::fx_mul(self.y, s),
            z: crate::fixed::fx_mul(self.z, s),
        }
    }

    /// Clamps the vector to a maximum length: unchanged when already short
    /// enough, otherwise rescaled down to that length on the fixed grid.
    /// The result is never longer than the limit.
    pub fn clamp_length(self, m: i64) -> (r: Vec3)
        requires
            bounded3(self, MAX_FIX as int),
            0 <= m <= MAX_FIX,
        ensures
            r == spec_clamp_len3(self, m),
            spec_len3(r) <= m,
            mag(r.x as int) <= mag(self.x as int),
            mag(r.y as int) <= mag(self.y as int),
            mag(r.z as int) <= mag(self.z as int),
    {
        let len = self.length();
        if len <= m {
            self
        } else {
            proof {
                lemma_clamp_scale_len(self, m as int, len as int);
            }
            let r = self.scale_div(m, len);
            proof {
                lemma_dot_self_range(r, MAX_FIX as int);
                crate::fixed::lemma_isqrt_bounds(spec_dot(r, r));
                assert(spec_len3(r) <= m) by (nonlinear_arith)
                    requires
                        spec_dot(r, r) < (m + 1) * (m + 1),
                        spec_len3(r) >= 0,
                        spec_len3(r) * spec_len3(r) <= spec_dot(r, r),
                        m >= 0,
                ;
            }
            r
        }
    }

    /// Rejects `self` from the surface normal `n`: the result keeps the
    /// tangential part of `self` and drops the part along `n`, up to the
    /// fixed-grid rounding bounded by [`lemma_reject_orthogonal`].
    pub fn reject_from(self, n: Vec3) -> (r: Vec3)
        requires
            bounded3(self, REJECT_MAX as int),
            bounded3(n, crate::fixed::ONE as int),
            spec_dot(n, n) >= NORMAL_SQ_MIN,
        ensures
            r == spec_reject(self, n),
            bounded3(r, 5 * max_mag3(self)),
            mag(spec_dot(r, n)) < mag(n.x as int) + mag(n.y as int) + mag(n.z as int),
    {
        let s = self.dot(n);
        let nn = n.dot(n);
        proof {
            lemma_reject_bounds(self, n);
            lemma_reject_orthogonal(self, n);
        }
        Vec3 {
            x: self.x - mul_div(n.x, s, nn),
            y: self.y - mul_div(n.y, s, nn),
            z: self.z - mul_div(n.z, s, nn),
        }
    }
}

/// A clamped vector is no longer than the limit and no component grows.
pub proof fn lemma_clamp_len3_short(v: Vec3, m: i64)
    requires
        bounded3(v, MAX_FIX as int),
        0 <= m,
    ensures
        spec_len3(spec_clamp_len3(v, m)) <= m || spec_clamp_len3(v, m) == v,
        spec_len3(spec_clamp_len3(v, m)) <= m || spec_len3(v) <= m,
        spec_len3(spec_clamp_len3(v, m)) <= if spec_len3(v) <= m {
            spec_len3(v)
        } else {
            m as int
        },
        mag(spec_clamp_len3(v, m).x as int) <= mag(v.x as int),
        mag(spec_clamp_len3(v, m).y as int) <= mag(v.y as int),
        mag(spec_clamp_len3(v, m).z as int) <= mag(v.z as int),
{
    let len = spec_len3(v);
    lemma_dot_self_range(v, MAX_FIX as int);
    lemma_isqrt_bounds(spec_dot(v, v));
    if len <= m {
    } else {
        lemma_clamp_scale_len(v, m as int, len);
        let r = spec_clamp_len3(v, m);
        lemma_dot_self_range(r, MAX_FIX as int);
        lemma_isqrt_bounds(spec_dot(r, r));
        assert(spec_len3(r) <= m) by (nonlinear_arith)
            requires
                spec_dot(r, r) < (m + 1) * (m + 1),
                spec_len3(r) >= 0,
                spec_len3(r) * spec_len3(r) <= spec_dot(r, r),
                m >= 0,
        ;
    }
}

/// Rescaling a vector to a length limit below its own length shrinks every
/// component and leaves the squared length below the next square above the
/// limit.
proof fn lemma_clamp_scale_len(v: Vec3, m: int, len: int)
    requires
        len == spec_len3(v),
        0 <= m < len,
        bounded3(v, MAX_FIX as int),
    ensures
        spec_dot(spec_scale_div(v, m, len), spec_scale_div(v, m, len)) < (m + 1) * (m + 1),
        mag(div_t(v.x * m, len)) <= mag(v.x as int),
        mag(div_t(v.y * m, len)) <= mag(v.y as int),
        mag(div_t(v.z * m, len)) <= mag(v.z as int),
        bounded3(spec_scale_div(v, m, len), m),
{
    let w = spec_scale_div(v, m, len);
    let d = spec_dot(v, v);
    lemma_dot_self_range(v, MAX_FIX as int);
    crate::fixed::lemma_isqrt_bounds(d);
    lemma_len_dominates_components(v);
    lemma_clamp_component(v.x as int, m, len);
    lemma_clamp_component(v.y as int, m, len);
    lemma_clamp_component(v.z as int, m, len);
    assert(w.x == div_t(v.x * m, len) && w.y == div_t(v.y * m, len) && w.z == div_t(
        v.z * m,
        len,
    ));
    let ww = spec_dot(w, w);
    assert(ww * (len * len) <= (d * m) * m) by (nonlinear_arith)
        requires
            ww == w.x * w.x + w.y * w.y + w.z * w.z,
            d == v.x * v.x + v.y * v.y + v.z * v.z,
            (w.x * w.x) * (len * len) <= ((v.x * v.x) * m) * m,
            (w.y * w.y) * (len * len) <= ((v.y * v.y) * m) * m,
            (w.z * w.z) * (len * len) <= ((v.z * v.z) * m) * m,
    ;
    assert(ww < (m + 1) * (m + 1)) by (nonlinear_arith)
        requires
            ww * (len * len) <= (d * m) * m,
            d < (len + 1) * (len + 1),
            d >= 0,
            0 <= m < len,
    ;
}

/// One component of a length-clamping rescale: the scaled component
/// shrinks, and its square scales with the squared ratio.
proof fn lemma_clamp_component(c: int, m: int, len: int)
    requires
        0 <= m < len,
        mag(c) <= len,
    ensures
        mag(div_t(c * m, len)) <= mag(c),
        mag(div_t(c * m, len)) <= m,
        (div_t(c * m, len) * div_t(c * m, len)) * (len * len) <= ((c * c) * m) * m,
{
    lemma_div_t_mag(c * m, len);
    crate::fixed::lemma_mag_mul(c, m);
    let q = div_t(c * m, len);
    assert(mag(q) * mag(q) == q * q && mag(c) * mag(c) == c * c) by (nonlinear_arith);
    assert(mag(q) <= mag(c) && mag(q) <= m) by (nonlinear_arith)
        requires
            0 <= m < len,
            mag(q) * len <= mag(c * m),
            mag(c * m) == mag(c) * mag(m),
            mag(q) >= 0,
            mag(c) <= len,
    ;
    assert((q * q) * (len * len) <= ((c * c) * m) * m) by (nonlinear_arith)
        requires
            0 <= m < len,
            mag(q) * len <= mag(c) * mag(m),
            mag(m) == m,
            mag(q) >= 0,
            mag(c) >= 0,
            mag(q) * mag(q) == q * q,
            mag(c) * mag(c) == c * c,
    ;
}

/// A dot product distributes over a componentwise sum whose components
/// stay in range.
pub proof fn lemma_dot_add3(n: Vec3, a: Vec3, b: Vec3)
    requires
        mag(a.x + b.x) <= i64::MAX,
        mag(a.y + b.y) <= i64::MAX,
        mag(a.z + b.z) <= i64::MAX,
    ensures
        spec_dot(n, spec_add3(a, b)) == spec_dot(n, a) + spec_dot(n, b),
{
    let s = spec_add3(a, b);
    assert(s.x == a.x + b.x && s.y == a.y + b.y && s.z == a.z + b.z);
    assert(n.x * (a.x + b.x) == n.x * a.x + n.x * b.x) by (nonlinear_arith);
    assert(n.y * (a.y + b.y) == n.y * a.y + n.y * b.y) by (nonlinear_arith);
    assert(n.z * (a.z + b.z) == n.z * a.z + n.z * b.z) by (nonlinear_arith);
}

/// A self dot product of a bounded vector is a bounded sum of squares.
pub proof fn lemma_dot_self_range(v: Vec3, b: int)
    requires
        b >= 0,
        bounded3(v, b),
    ensures
        0 <= spec_dot(v, v) <= 3 * (b * b),
{
    assert(0 <= v.x * v.x <= b * b && 0 <= v.y * v.y <= b * b && 0 <= v.z * v.z <= b * b)
        by (nonlinear_arith)
        requires
            b >= 0,
            mag(v.x as int) <= b,
            mag(v.y as int) <= b,
            mag(v.z as int) <= b,
    ;
}

/// Scaling by a fixed-point factor of at most one keeps component bounds.
pub proof fn lemma_scale_fx_bounded(v: Vec3, s: int, b: int)
    requires
        b >= 0,
        bounded3(v, b),
        mag(s) <= crate::fixed::ONE as int,
    ensures
        bounded3(spec_scale_div(v, s, crate::fixed::ONE as int), b),
{
    let one = crate::fixed::ONE as int;
    lemma_mag_mul_bound(v.x as int, s, b, one);
    lemma_mag_mul_bound(v.y as int, s, b, one);
    lemma_mag_mul_bound(v.z as int, s, b, one);
    lemma_div_t_mag(v.x * s, one);
    lemma_div_t_mag(v.y * s, one);
    lemma_div_t_mag(v.z * s, one);
    assert(mag(div_t(v.x * s, one)) <= b && mag(div_t(v.y * s, one)) <= b && mag(
        div_t(v.z * s, one),
    ) <= b) by (nonlinear_arith)
        requires
            one > 0,
            b >= 0,
            mag(div_t(v.x * s, one)) * one <= mag(v.x * s),
            mag(div_t(v.y * s, one)) * one <= mag(v.y * s),
            mag(div_t(v.z * s, one)) * one <= mag(v.z * s),
            mag(v.x * s) <= b * one,
            mag(v.y * s) <= b * one,
            mag(v.z * s) <= b * one,
    ;
}

/// A vector whose components are bounded by `b` is no longer than `2 * b`.
pub proof fn lemma_len3_bound(v: Vec3, b: int)
    requires
        b >= 0,
        bounded3(v, b),
    ensures
        0 <= spec_len3(v) <= 2 * b,
{
    assert(0 <= v.x * v.x <= b * b && 0 <= v.y * v.y <= b * b && 0 <= v.z * v.z <= b * b && 3 * (b
        * b) <= (2 * b) * (2 * b)) by (nonlinear_arith)
        requires
            b >= 0,
            mag(v.x as int) <= b,
            mag(v.y as int) <= b,
            mag(v.z as int) <= b,
    ;
    crate::fixed::lemma_isqrt_nonneg(spec_dot(v, v));
    lemma_isqrt_mono(spec_dot(v, v), (2 * b) * (2 * b));
    lemma_isqrt_square(2 * b);
}

/// A dot product of a vector with itself is a sum of squares: nonnegative
/// and, for bounded vectors, at most `3 * MAX_FIX * MAX_FIX`.
proof fn lemma_self_dot_bounds(v: Vec3)
    requires
        bounded3(v, MAX_FIX as int),
    ensures
        0 <= spec_dot(v, v) <= 3 * MAX_FIX * MAX_FIX,
{
    assert(0 <= v.x * v.x <= MAX_FIX * MAX_FIX) by (nonlinear_arith)
        requires
            mag(v.x as int) <= MAX_FIX,
    ;
    assert(0 <= v.y * v.y <= MAX_FIX * MAX_FIX) by (nonlinear_arith)
        requires
            mag(v.y as int) <= MAX_FIX,
    ;
    assert(0 <= v.z * v.z <= MAX_FIX * MAX_FIX) by (nonlinear_arith)
        requires
            mag(v.z as int) <= MAX_FIX,
    ;
}

/// A vector whose self dot product is zero is the zero vector.
proof fn lemma_self_dot_zero(v: Vec3)
    requires
        spec_dot(v, v) == 0,
    ensures
        v == (Vec3 { x: 0, y: 0, z: 0 }),
{
    assert(v.x == 0 && v.y == 0 && v.z == 0) by (nonlinear_arith)
        requires
            v.x * v.x + v.y * v.y + v.z * v.z == 0,
    ;
}

/// Each component's magnitude is at most the rounded-down length.
pub proof fn lemma_len_dominates_components(v: Vec3)
    ensures
        mag(v.x as int) <= spec_len3(v),
        mag(v.y as int) <= spec_len3(v),
        mag(v.z as int) <= spec_len3(v),
{
    let d = spec_dot(v, v);
    assert(v.x * v.x >= 0 && v.y * v.y >= 0 && v.z * v.z >= 0 && mag(v.x as int) * mag(
        v.x as int,
    ) == v.x * v.x && mag(v.y as int) * mag(v.y as int) == v.y * v.y && mag(v.z as int) * mag(
        v.z as int,
    ) == v.z * v.z) by (nonlinear_arith);
    lemma_isqrt_square(mag(v.x as int));
    lemma_isqrt_mono(mag(v.x as int) * mag(v.x as int), d);
    lemma_isqrt_square(mag(v.y as int));
    lemma_isqrt_mono(mag(v.y as int) * mag(v.y as int), d);
    lemma_isqrt_square(mag(v.z as int));
    lemma_isqrt_mono(mag(v.z as int) * mag(v.z as int), d);
}

/// The products taken inside [`Vec3::scale_div`] meet the divider's bounds.
pub proof fn lemma_scale_div_bounds(v: Vec3, num: int, den: int)
    requires
        den > 0,
        bounded3(v, den),
        mag(num) <= MAX_FIX,
    ensures
        mag(v.x * num) <= den * MAX_FIX,
        mag(v.y * num) <= den * MAX_FIX,
        mag(v.z * num) <= den * MAX_FIX,
        mag(div_t(v.x * num, den)) <= mag(num),
        mag(div_t(v.y * num, den)) <= mag(num),
        mag(div_t(v.z * num, den)) <= mag(num),
{
    lemma_mag_mul_bound(v.x as int, num, den, MAX_FIX as int);
    lemma_mag_mul_bound(v.y as int, num, den, MAX_FIX as int);
    lemma_mag_mul_bound(v.z as int, num, den, MAX_FIX as int);
    lemma_mag_mul_bound(v.x as int, num, den, mag(num));
    lemma_mag_mul_bound(v.y as int, num, den, mag(num));
    lemma_mag_mul_bound(v.z as int, num, den, mag(num));
    lemma_div_t_mag(v.x * num, den);
    lemma_div_t_mag(v.y * num, den);
    lemma_div_t_mag(v.z * num, den);
    assert(den * mag(num) == mag(num) * den) by (nonlinear_arith);
    assert(mag(div_t(v.x * num, den)) <= mag(num)) by (nonlinear_arith)
        requires
            den > 0,
            mag(div_t(v.x * num, den)) * den <= mag(v.x * num),
            mag(v.x * num) <= mag(num) * den,
    ;
    assert(mag(div_t(v.y * num, den)) <= mag(num)) by (nonlinear_arith)
        requires
            den > 0,
            mag(div_t(v.y * num, den)) * den <= mag(v.y * num),
            mag(v.y * num) <= mag(num) * den,
    ;
    assert(mag(div_t(v.z * num, den)) <= mag(num)) by (nonlinear_arith)
        requires
            den > 0,
            mag(div_t(v.z * num, den)) * den <= mag(v.z * num),
            mag(v.z * num) <= mag(num) * den,
    ;
}

/// The products taken inside [`Vec3::reject_from`] meet the divider's
/// bounds, and each projected component is below `4 * max_mag3(v)`.
pub proof fn lemma_reject_bounds(v: Vec3, n: Vec3)
    requires
        bounded3(v, REJECT_MAX as int),
        bounded3(n, crate::fixed::ONE as int),
        spec_dot(n, n) >= NORMAL_SQ_MIN,
    ensures
        mag(n.x * spec_dot(v, n)) <= spec_dot(n, n) * MAX_FIX,
        mag(n.y * spec_dot(v, n)) <= spec_dot(n, n) * MAX_FIX,
        mag(n.z * spec_dot(v, n)) <= spec_dot(n, n) * MAX_FIX,
        mag(div_t(n.x * spec_dot(v, n), spec_dot(n, n))) <= 4 * max_mag3(v),
        mag(div_t(n.y * spec_dot(v, n), spec_dot(n, n))) <= 4 * max_mag3(v),
        mag(div_t(n.z * spec_dot(v, n), spec_dot(n, n))) <= 4 * max_mag3(v),
{
    let s = spec_dot(v, n);
    let nn = spec_dot(n, n);
    let m = max_mag3(v);
    let one = crate::fixed::ONE as int;
    lemma_mag_mul_bound(v.x as int, n.x as int, m, one);
    lemma_mag_mul_bound(v.y as int, n.y as int, m, one);
    lemma_mag_mul_bound(v.z as int, n.z as int, m, one);
    assert(mag(s) <= 3 * (m * one));
    lemma_reject_component(n.x as int, s, nn, m);
    lemma_reject_component(n.y as int, s, nn, m);
    lemma_reject_component(n.z as int, s, nn, m);
}

/// One projected component of a rejection stays within four times the
/// largest component of the rejected vector.
proof fn lemma_reject_component(c: int, s: int, nn: int, m: int)
    requires
        mag(c) <= crate::fixed::ONE as int,
        mag(s) <= 3 * (m * (crate::fixed::ONE as int)),
        nn >= NORMAL_SQ_MIN,
        0 <= m <= REJECT_MAX,
    ensures
        mag(c * s) <= nn * MAX_FIX,
        mag(div_t(c * s, nn)) <= 4 * m,
{
    let one = crate::fixed::ONE as int;
    lemma_mag_mul_bound(c, s, one, 3 * (m * one));
    assert(one * (3 * (m * one)) <= nn * MAX_FIX) by (nonlinear_arith)
        requires
            nn >= 810_000_000_000,
            0 <= m <= 270_000_000,
            one == 1_000_000,
    ;
    lemma_div_t_mag(c * s, nn);
    assert(mag(div_t(c * s, nn)) <= 4 * m) by (nonlinear_arith)
        requires
            nn >= 810_000_000_000,
            one == 1_000_000,
            m >= 0,
            mag(div_t(c * s, nn)) * nn <= mag(c * s),
            mag(c * s) <= one * (3 * (m * one)),
            mag(div_t(c * s, nn)) >= 0,
    ;
}

/// After one rejection the remaining vector is orthogonal to the contact
/// normal up to the fixed grid: the dot product of the rejected vector
/// with the normal is smaller in magnitude than the sum of the normal's
/// component magnitudes (about one micro-unit for a unit normal).
pub proof fn lemma_reject_orthogonal(v: Vec3, n: Vec3)
    requires
        bounded3(v, REJECT_MAX as int),
        bounded3(n, crate::fixed::ONE as int),
        spec_dot(n, n) >= NORMAL_SQ_MIN,
    ensures
        mag(spec_dot(spec_reject(v, n), n)) < mag(n.x as int) + mag(n.y as int) + mag(
            n.z as int,
        ),
{
    let s = spec_dot(v, n);
    let nn = spec_dot(n, n);
    let px = div_t(n.x * s, nn);
    let py = div_t(n.y * s, nn);
    let pz = div_t(n.z * s, nn);
    let rx = n.x * s - px * nn;
    let ry = n.y * s - py * nn;
    let rz = n.z * s - pz * nn;
    lemma_div_t(n.x * s, nn);
    lemma_div_t(n.y * s, nn);
    lemma_div_t(n.z * s, nn);
    lemma_reject_bounds(v, n);
    let r = spec_reject(v, n);
    assert(r.x == v.x - px && r.y == v.y - py && r.z == v.z - pz);
    let d = spec_dot(r, n);
    assert(nn * (r.x * n.x) == nn * (v.x * n.x) - (n.x * n.x) * s + rx * n.x) by (nonlinear_arith)
        requires
            r.x == v.x - px,
            rx == n.x * s - px * nn,
    ;
    assert(nn * (r.y * n.y) == nn * (v.y * n.y) - (n.y * n.y) * s + ry * n.y) by (nonlinear_arith)
        requires
            r.y == v.y - py,
            ry == n.y * s - py * nn,
    ;
    assert(nn * (r.z * n.z) == nn * (v.z * n.z) - (n.z * n.z) * s + rz * n.z) by (nonlinear_arith)
        requires
            r.z == v.z - pz,
            rz == n.z * s - pz * nn,
    ;
    assert(nn * d == nn * (r.x * n.x) + nn * (r.y * n.y) + nn * (r.z * n.z)) by (nonlinear_arith)
        requires
            d == r.x * n.x + r.y * n.y + r.z * n.z,
    ;
    assert(nn * s == nn * (v.x * n.x) + nn * (v.y * n.y) + nn * (v.z * n.z)) by (nonlinear_arith)
        requires
            s == v.x * n.x + v.y * n.y + v.z * n.z,
    ;
    assert(nn * s == (n.x * n.x) * s + (n.y * n.y) * s + (n.z * n.z) * s) by (nonlinear_arith)
        requires
            nn == n.x * n.x + n.y * n.y + n.z * n.z,
    ;
    assert(nn * d == rx * n.x + ry * n.y + rz * n.z);
    assert(mag(rx * n.x) <= (nn - 1) * mag(n.x as int)) by (nonlinear_arith)
        requires
            mag(rx) < nn,
    ;
    assert(mag(ry * n.y) <= (nn - 1) * mag(n.y as int)) by (nonlinear_arith)
        requires
            mag(ry) < nn,
    ;
    assert(mag(rz * n.z) <= (nn - 1) * mag(n.z as int)) by (nonlinear_arith)
        requires
            mag(rz) < nn,
    ;
    let nsum = mag(n.x as int) + mag(n.y as int) + mag(n.z as int);
    assert(mag(nn * d) <= (nn - 1) * nsum) by (nonlinear_arith)
        requires
            nn * d == rx * n.x + ry * n.y + rz * n.z,
            mag(rx * n.x) <= (nn - 1) * mag(n.x as int),
            mag(ry * n.y) <= (nn - 1) * mag(n.y as int),
            mag(rz * n.z) <= (nn - 1) * mag(n.z as int),
            nsum == mag(n.x as int) + mag(n.y as int) + mag(n.z as int),
    ;
    assert(mag(nn * d) == nn * mag(d)) by (nonlinear_arith)
        requires
            nn > 0,
    ;
    assert(nsum > 0) by {
        if n.x == 0 && n.y == 0 && n.z == 0 {
            assert(nn == 0) by (nonlinear_arith)
                requires
                    nn == n.x * n.x + n.y * n.y + n.z * n.z,
                    n.x == 0 && n.y == 0 && n.z == 0,
            ;
        }
    }
    assert(mag(d) < nsum) by (nonlinear_arith)
        requires
            nn > 0,
            nsum > 0,
            mag(nn * d) <= (nn - 1) * nsum,
            mag(nn * d) == nn * mag(d),
    ;
}

} // verus!
