//! Convex body colliders and their inflation.
//!
//! A body's collider is one of exactly two primitives, a sphere or a
//! vertically aligned capsule; the closed enum enforces the configuration
//! invariant that no other shape family can reach the solver.  Inflation
//! derives a same-family shape whose surface is offset by a signed margin;
//! the solver casts a slightly shrunk collider so contacts are found just
//! before true penetration, and restores the margin at the contact point.

use vstd::prelude::*;
use crate::fixed::mag;
use crate::vec3::Vec3;

verus! {

/// Largest radius or segment height of a collider, in micro-units:
/// one hundred world units, far beyond any character body.
pub const SHAPE_MAX: i64 = 100_000_000;

/// A convex collider: a sphere, or a capsule whose segment of length
/// `height` runs along the vertical axis between the two hemisphere
/// centers.
#[derive(Clone, Copy, Debug, PartialEq, Eq, Structural)]
pub enum Collider {
    Sphere { radius: i64 },
    Capsule { radius: i64, height: i64 },
}

impl Collider {
    /// A collider is well formed when its radius is positive and its
    /// dimensions stay within [`SHAPE_MAX`].
    pub open spec fn wf(self) -> bool {
        match self {
            Collider::Sphere { radius } => 0 < radius <= SHAPE_MAX,
            Collider::Capsule { radius, height } => 0 < radius <= SHAPE_MAX && 0 <= height
                <= SHAPE_MAX,
        }
    }

    /// End-to-end extent along the vertical axis: the segment height plus
    /// a radius on both ends; a sphere is a capsule with an empty segment.
    pub open spec fn spec_inclusive_height(self) -> int {
        match self {
            Collider::Sphere { radius } => 2 * radius,
            Collider::Capsule { radius, height } => height + 2 * radius,
        }
    }

    /// The shape [`inflated_collider`] returns.
    pub open spec fn spec_inflate(self, margin: int) -> Collider {
        match self {
            Collider::Sphere { radius } => Collider::Sphere { radius: (radius + margin) as i64 },
            Collider::Capsule { radius, height } => Collider::Capsule {
                radius: (radius + margin) as i64,
                height,
            },
        }
    }

    /// Support reach of the collider toward a plane with normal `n` of
    /// length `len_n`, scaled by `len_n`: the collider centered at `p`
    /// touches the plane exactly when the clearance of `p` equals this
    /// value.  For a sphere that reach is the radius; a capsule adds the
    /// segment half-length weighted by how vertical the normal is.
    pub open spec fn spec_support(self, n: Vec3, len_n: int) -> int {
        match self {
            Collider::Sphere { radius } => radius * len_n,
            Collider::Capsule { radius, height } => radius * len_n + (height / 2) * mag(
                n.y as int,
            ),
        }
    }
}

/// Returns the same-family collider grown outward (positive margin) or
/// shrunk inward (negative margin) by `margin`: the radius changes by the
/// margin and, for a capsule, the segment height is rederived so that the
/// inclusive end-to-end extent also changes by twice the margin, which
/// leaves the segment itself untouched.
pub fn inflated_collider(collider: &Collider, margin: i64) -> (r: Collider)
    requires
        collider.wf(),
        margin + radius_of(*collider) > 0,
        margin + radius_of(*collider) <= SHAPE_MAX,
    ensures
        r == collider.spec_inflate(margin as int),
        r.wf(),
        r.spec_inclusive_height() == collider.spec_inclusive_height() + 2 * margin,
{
    match collider {
        Collider::Sphere { radius } => Collider::Sphere { radius: radius + margin },
        Collider::Capsule { radius, height } => {
            let extended_radius = radius + margin;
            let inclusive_height = height + 2 * radius;
            let inclusive_extended_height = inclusive_height + 2 * margin;
            let extended_height = inclusive_extended_height - 2 * extended_radius;
            Collider::Capsule { radius: extended_radius, height: extended_height }
        },
    }
}

/// Radius of either collider family.
pub open spec fn radius_of(c: Collider) -> int {
    match c {
        Collider::Sphere { radius } => radius as int,
        Collider::Capsule { radius, .. } => radius as int,
    }
}

/// The distance [`distance_from_center_to_hull`] computes: how far a ray
/// from the collider's center travels along `dir` before leaving the
/// collider's surface.  A sphere is left after one radius in any
/// direction.  A capsule is left through its cylindrical side when the
/// ray's slope stays below the segment's reach
/// (`r^2 dy^2 <= (h/2)^2 lxz^2`), after `r / sin` of the ray's tilt;
/// otherwise through an end cap, at the root of the cap sphere's
/// quadratic along the ray — both rounded down on the fixed grid.
pub open spec fn spec_hull_distance(c: Collider, dir: Vec3) -> int {
    let dd = crate::vec3::spec_dot(dir, dir);
    let len = crate::fixed::spec_isqrt(dd);
    match c {
        Collider::Sphere { radius } => radius as int,
        Collider::Capsule { radius, height } => {
            let hh = (height as int) / 2;
            let lxz2 = dir.x * dir.x + dir.z * dir.z;
            if (radius * radius) * (dir.y * dir.y) <= (hh * hh) * lxz2 {
                crate::fixed::div_t(radius * len, crate::fixed::spec_isqrt(lxz2))
            } else {
                let disc = (radius * radius) * dd - (hh * hh) * lxz2;
                crate::fixed::div_t(mag(dir.y as int) * hh + crate::fixed::spec_isqrt(disc), len)
            }
        },
    }
}

/// Distance from the collider's center to its hull along a direction: the
/// radius for a sphere; for a capsule, the exit distance through its
/// cylindrical side or an end cap, exactly as [`spec_hull_distance`]
/// states it.  The direction need not be normalized; its length only
/// scales the intermediate arithmetic.
pub fn distance_from_center_to_hull(collider: &Collider, direction: Vec3) -> (r: i64)
    requires
        collider.wf(),
        crate::vec3::bounded3(direction, crate::fixed::ONE as int),
        crate::vec3::spec_dot(direction, direction) > 0,
    ensures
        r == spec_hull_distance(*collider, direction),
        r >= 0,
{
    match *collider {
        Collider::Sphere { radius } => radius,
        Collider::Capsule { radius, height } => {
            let dir = direction;
            let hh = height / 2;
            proof {
                lemma_hull_products(radius as int, hh as int, dir);
            }
            let dd = dir.dot(dir);
            let len = crate::fixed::isqrt(dd);
            let lxz2 = dir.x * dir.x + dir.z * dir.z;
            let dy_mag = if dir.y < 0 {
                -dir.y
            } else {
                dir.y
            };
            proof {
                assert(0 <= ((radius * radius) as i128) * ((dir.y * dir.y) as i128)
                    <= 10_000_000_000_000_000_000_000_000_000i128) by (nonlinear_arith)
                    requires
                        0 < radius * radius <= 10_000_000_000_000_000,
                        0 <= dir.y * dir.y <= 1_000_000_000_000,
                ;
                assert(0 <= ((hh * hh) as i128) * (lxz2 as i128)
                    <= 20_000_000_000_000_000_000_000_000_000i128) by (nonlinear_arith)
                    requires
                        0 <= hh * hh <= 10_000_000_000_000_000,
                        0 <= lxz2 <= 2_000_000_000_000,
                ;
            }
            let r2y2: i128 = ((radius * radius) as i128) * ((dir.y * dir.y) as i128);
            let h2l2: i128 = ((hh * hh) as i128) * (lxz2 as i128);
            proof {
                assert(len >= 1) by {
                    crate::fixed::lemma_isqrt_bounds(dd as int);
                    let sq = crate::fixed::spec_isqrt(dd as int);
                    assert(sq >= 1) by (nonlinear_arith)
                        requires
                            (dd as int) < (sq + 1) * (sq + 1),
                            sq >= 0,
                            dd >= 1,
                    ;
                }
            }
            if r2y2 <= h2l2 {
                proof {
                    crate::world::lemma_normal_len_bound(dir);
                    assert(lxz2 >= 1) by {
                        if lxz2 == 0 {
                            assert(dir.y * dir.y > 0 && ((radius * radius) as i128) * ((dir.y
                                * dir.y) as i128) > 0) by (nonlinear_arith)
                                requires
                                    dir.x * dir.x + dir.z * dir.z == 0,
                                    dir.x * dir.x + dir.y * dir.y + dir.z * dir.z > 0,
                                    0 <= dir.x * dir.x,
                                    0 <= dir.z * dir.z,
                                    radius > 0,
                            ;
                            assert(((hh * hh) as i128) * (lxz2 as i128) == 0) by (nonlinear_arith)
                                requires
                                    lxz2 == 0,
                            ;
                        }
                    }
                    crate::fixed::lemma_isqrt_bounds(lxz2 as int);
                    assert(crate::fixed::spec_isqrt(lxz2 as int) >= 1) by {
                        let sq = crate::fixed::spec_isqrt(lxz2 as int);
                        assert(sq >= 1) by (nonlinear_arith)
                            requires
                                (lxz2 as int) < (sq + 1) * (sq + 1),
                                sq >= 0,
                                lxz2 >= 1,
                        ;
                    }
                    crate::fixed::lemma_mag_mul_bound(
                        radius as int,
                        len as int,
                        SHAPE_MAX as int,
                        2_000_000,
                    );
                    assert((radius as int) * (len as int) >= 0) by (nonlinear_arith)
                        requires
                            radius >= 0,
                            len >= 0,
                    ;
                    crate::fixed::lemma_div_t(
                        (radius as int) * (len as int),
                        crate::fixed::spec_isqrt(lxz2 as int),
                    );
                }
                let lxz = crate::fixed::isqrt(lxz2);
                (radius * len) / lxz
            } else {
                proof {
                    lemma_hull_disc(radius as int, hh as int, dir, dd as int);
                }
                let disc: i128 = ((radius * radius) as i128) * (dd as i128) - h2l2;
                let root = crate::fixed::isqrt_wide(disc as u128) as i64;
                proof {
                    crate::fixed::lemma_mag_mul_bound(
                        dy_mag as int,
                        hh as int,
                        1_000_000,
                        SHAPE_MAX as int,
                    );
                    crate::fixed::lemma_div_t(dy_mag as int * hh + root, len as int);
                }
                (dy_mag * hh + root) / len
            }
        },
    }
}

/// The products of the capsule hull-distance computation stay within the
/// scalar range.
proof fn lemma_hull_products(radius: int, hh: int, dir: Vec3)
    requires
        0 < radius <= SHAPE_MAX,
        0 <= hh <= SHAPE_MAX,
        crate::vec3::bounded3(dir, crate::fixed::ONE as int),
    ensures
        0 <= dir.x * dir.x <= 1_000_000_000_000,
        0 <= dir.z * dir.z <= 1_000_000_000_000,
        0 <= dir.x * dir.x + dir.z * dir.z <= 2_000_000_000_000,
        0 <= dir.y * dir.y <= 1_000_000_000_000,
        0 < radius * radius <= 10_000_000_000_000_000,
        0 <= hh * hh <= 10_000_000_000_000_000,
{
    assert(0 <= dir.x * dir.x <= 1_000_000_000_000 && 0 <= dir.y * dir.y <= 1_000_000_000_000 && 0
        <= dir.z * dir.z <= 1_000_000_000_000) by (nonlinear_arith)
        requires
            mag(dir.x as int) <= 1_000_000,
            mag(dir.y as int) <= 1_000_000,
            mag(dir.z as int) <= 1_000_000,
    ;
    assert(0 < radius * radius <= 10_000_000_000_000_000 && 0 <= hh * hh
        <= 10_000_000_000_000_000) by (nonlinear_arith)
        requires
            0 < radius <= 100_000_000,
            0 <= hh <= 100_000_000,
    ;
}

/// In the cap case the quadratic discriminant is nonnegative and within
/// the wide square root's range, and its root is modest.
proof fn lemma_hull_disc(radius: int, hh: int, dir: Vec3, dd: int)
    requires
        0 < radius <= SHAPE_MAX,
        0 <= hh <= SHAPE_MAX,
        crate::vec3::bounded3(dir, crate::fixed::ONE as int),
        dd == crate::vec3::spec_dot(dir, dir),
        (radius * radius) * (dir.y * dir.y) > (hh * hh) * (dir.x * dir.x + dir.z * dir.z),
    ensures
        0 <= (radius * radius) * dd - (hh * hh) * (dir.x * dir.x + dir.z * dir.z),
        (radius * radius) * dd - (hh * hh) * (dir.x * dir.x + dir.z * dir.z)
            <= 30_000_000_000_000_000_000_000_000_000,
        crate::fixed::spec_isqrt(
            (radius * radius) * dd - (hh * hh) * (dir.x * dir.x + dir.z * dir.z),
        ) <= 200_000_000_000_000,
{
    let lxz2 = dir.x * dir.x + dir.z * dir.z;
    let disc = (radius * radius) * dd - (hh * hh) * lxz2;
    lemma_hull_products(radius, hh, dir);
    assert((radius * radius) * dd == (radius * radius) * (dir.y * dir.y) + (radius * radius)
        * lxz2) by (nonlinear_arith)
        requires
            dd == dir.x * dir.x + dir.y * dir.y + dir.z * dir.z,
            lxz2 == dir.x * dir.x + dir.z * dir.z,
    ;
    assert((radius * radius) * lxz2 >= 0) by (nonlinear_arith)
        requires
            radius * radius > 0,
            lxz2 >= 0,
    ;
    assert((radius * radius) * dd <= 30_000_000_000_000_000_000_000_000_000) by (nonlinear_arith)
        requires
            0 < radius * radius <= 10_000_000_000_000_000,
            0 <= dd,
            dd <= 3_000_000_000_000,
    ;
    assert((hh * hh) * lxz2 >= 0) by (nonlinear_arith)
        requires
            hh * hh >= 0,
            lxz2 >= 0,
    ;
    crate::fixed::lemma_isqrt_bounds(disc);
    assert(crate::fixed::spec_isqrt(disc) <= 200_000_000_000_000) by (nonlinear_arith)
        requires
            crate::fixed::spec_isqrt(disc) >= 0,
            crate::fixed::spec_isqrt(disc) * crate::fixed::spec_isqrt(disc) <= disc,
            disc <= 30_000_000_000_000_000_000_000_000_000,
    ;
}

/// Inflating a collider moves its support reach toward every plane by the
/// margin, scaled by the normal's length: the inflated surface is offset
/// by exactly the margin along each contact normal.
pub proof fn lemma_inflate_support(c: Collider, margin: int, n: Vec3, len_n: int)
    requires
        c.wf(),
        margin + radius_of(c) > 0,
        margin + radius_of(c) <= SHAPE_MAX,
    ensures
        c.spec_inflate(margin).spec_support(n, len_n) == c.spec_support(n, len_n) + margin
            * len_n,
{
    match c {
        Collider::Sphere { radius } => {
            assert((radius + margin) * len_n == radius * len_n + margin * len_n)
                by (nonlinear_arith);
        },
        Collider::Capsule { radius, height } => {
            assert((radius + margin) * len_n == radius * len_n + margin * len_n)
                by (nonlinear_arith);
        },
    }
}

} // verus!
