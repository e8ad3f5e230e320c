//! Grounded-state detection and ground snapping.
//!
//! A body is grounded when a downward probe of its (skin-shrunk) collider
//! finds terrain within a configured distance whose surface is no steeper
//! than the configured maximum slope.  Steepness is compared without
//! trigonometry: a surface with normal `n` is walkable when the angle
//! between `n` and the vertical axis is at most the maximum slope angle,
//! which holds exactly when `n.y > 0` and `n.y^2 * ONE >= c * |n|^2`,
//! where `c` is the squared cosine of the maximum slope angle at scale
//! [`ONE`].  Configurations therefore carry that squared cosine: a
//! forty-five degree limit is `ONE / 2`.

use vstd::prelude::*;
use crate::collider::{Collider, inflated_collider, radius_of};
use crate::fixed::{ONE, MAX_FIX};
use crate::solver::EPSILON;
use crate::vec3::{Vec3, bounded3, spec_dot, spec_scale_div};
use crate::world::{
    CollisionLayer,
    Plane,
    World,
    cast_shape,
    layer_mask,
    spec_cast,
    spec_layer_mask,
};

verus! {

/// Whether a surface with this normal counts as walkable ground under a
/// maximum-slope limit given as the squared cosine of the limit angle at
/// scale [`ONE`]: the normal points upward and its angle from vertical is
/// within the limit.
pub open spec fn spec_walkable(normal: Vec3, max_slope_cos_sq: i64) -> bool {
    normal.y > 0 && (normal.y * normal.y) * ONE >= max_slope_cos_sq * spec_dot(normal, normal)
}

/// Whether a surface with this normal counts as walkable ground, exactly
/// as [`spec_walkable`] states it.
pub fn walkable(normal: Vec3, max_slope_cos_sq: i64) -> (r: bool)
    requires
        bounded3(normal, ONE as int),
        0 <= max_slope_cos_sq <= ONE,
    ensures
        r == spec_walkable(normal, max_slope_cos_sq),
{
    proof {
        assert(0 <= normal.y * normal.y <= 1_000_000_000_000 && (normal.y * normal.y) * 1_000_000
            <= 1_000_000_000_000_000_000) by (nonlinear_arith)
            requires
                crate::fixed::mag(normal.y as int) <= 1_000_000,
        ;
        crate::vec3::lemma_dot_self_range(normal, ONE as int);
        assert(max_slope_cos_sq * spec_dot(normal, normal) <= 3_000_000_000_000_000_000 && 0
            <= max_slope_cos_sq * spec_dot(normal, normal)) by (nonlinear_arith)
            requires
                0 <= max_slope_cos_sq <= 1_000_000,
                0 <= spec_dot(normal, normal) <= 3_000_000_000_000,
        ;
    }
    let nn = normal.dot(normal);
    normal.y > 0 && (normal.y * normal.y) * ONE >= max_slope_cos_sq * nn
}

/// What the downward probe concludes: whether the body is grounded, and
/// the normal of the surface the probe found, if it found one (even a
/// surface too steep to stand on).
pub open spec fn spec_classify(
    planes: Seq<Plane>,
    collider: Collider,
    position: Vec3,
    max_check_distance: i64,
    max_slope_cos_sq: i64,
) -> (bool, Option<Vec3>) {
    let down = Vec3 { x: 0, y: (-ONE) as i64, z: 0 };
    match spec_cast(
        planes,
        collider.spec_inflate(-EPSILON as int),
        position,
        down,
        max_check_distance + EPSILON,
        spec_layer_mask(CollisionLayer::Terrain),
    ) {
        Option::None => (false, Option::None),
        Option::Some(b) => (
            spec_walkable(planes[b.1].normal, max_slope_cos_sq),
            Option::Some(planes[b.1].normal),
        ),
    }
}

/// Probes straight down from `position` with the collider shrunk by the
/// skin margin, for at most `max_check_distance` plus the margin, and
/// classifies the body: grounded exactly when the probe found terrain
/// whose slope is within the limit, as [`spec_classify`] states.
pub fn classify(
    world: &World,
    collider: &Collider,
    position: Vec3,
    max_check_distance: i64,
    max_slope_cos_sq: i64,
) -> (r: (bool, Option<Vec3>))
    requires
        world.wf(),
        collider.wf(),
        radius_of(*collider) > EPSILON,
        bounded3(position, MAX_FIX as int),
        0 <= max_check_distance <= MAX_FIX,
        0 <= max_slope_cos_sq <= ONE,
    ensures
        r == spec_classify(
            world.planes@,
            *collider,
            position,
            max_check_distance,
            max_slope_cos_sq,
        ),
{
    let mask = layer_mask(CollisionLayer::Terrain);
    let down = Vec3 { x: 0, y: (-ONE) as i64, z: 0 };
    let inflated = inflated_collider(collider, -EPSILON);
    let cast = cast_shape(world, &inflated, position, down, max_check_distance + EPSILON, mask);
    match cast {
        Option::None => (false, Option::None),
        Option::Some(hit) => {
            proof {
                let sc = spec_cast(
                    world.planes@,
                    inflated,
                    position,
                    down,
                    max_check_distance + EPSILON,
                    mask,
                );
                let b = sc->Some_0;
                assert(world.planes@[b.1].wf());
            }
            (walkable(hit.normal, max_slope_cos_sq), Option::Some(hit.normal))
        },
    }
}

/// Grounded monotonicity: widening the downward probe distance can only
/// turn an ungrounded body grounded, never the reverse — a probe that
/// already found walkable ground keeps finding the same surface at any
/// larger distance.
pub proof fn lemma_grounded_monotone(
    planes: Seq<Plane>,
    collider: Collider,
    position: Vec3,
    d1: i64,
    d2: i64,
    max_slope_cos_sq: i64,
)
    requires
        d1 <= d2,
    ensures
        spec_classify(planes, collider, position, d1, max_slope_cos_sq).0 ==> spec_classify(
            planes,
            collider,
            position,
            d2,
            max_slope_cos_sq,
        ) == spec_classify(planes, collider, position, d1, max_slope_cos_sq),
{
    let down = Vec3 { x: 0, y: (-ONE) as i64, z: 0 };
    crate::world::lemma_cast_monotone(
        planes,
        collider.spec_inflate(-EPSILON as int),
        position,
        down,
        d1 + EPSILON,
        d2 + EPSILON,
        spec_layer_mask(CollisionLayer::Terrain),
    );
}

/// Where [`snap_to_floor`] puts a body: when snapping is enabled, the body
/// is not moving upward, and a probe within the snap distance finds
/// walkable ground, the body moves down to rest on it with the skin gap
/// restored along the contact normal; otherwise it stays where it is.
pub open spec fn spec_snap(
    planes: Seq<Plane>,
    collider: Collider,
    position: Vec3,
    vertical_velocity: i64,
    enabled: bool,
    snap_max_distance: i64,
    max_slope_cos_sq: i64,
) -> Vec3 {
    let down = Vec3 { x: 0, y: (-ONE) as i64, z: 0 };
    if !enabled || vertical_velocity > 0 {
        position
    } else {
        match spec_cast(
            planes,
            collider.spec_inflate(-EPSILON as int),
            position,
            down,
            snap_max_distance + EPSILON,
            spec_layer_mask(CollisionLayer::Terrain),
        ) {
            Option::None => position,
            Option::Some(b) => if spec_walkable(planes[b.1].normal, max_slope_cos_sq) {
                let dropped = Vec3 {
                    x: position.x,
                    y: (position.y - b.0) as i64,
                    z: position.z,
                };
                crate::vec3::spec_add3(
                    dropped,
                    spec_scale_div(planes[b.1].normal, EPSILON as int, ONE as int),
                )
            } else {
                position
            },
        }
    }
}

/// Snaps a body down onto nearby walkable ground: when enabled and the
/// body is not moving upward, a downward probe within the snap distance
/// that finds walkable terrain moves the body down to rest on it with the
/// skin gap restored, exactly as [`spec_snap`] states.  Keeps feet on the
/// ground over small drops such as stair edges.
pub fn snap_to_floor(
    world: &World,
    collider: &Collider,
    position: Vec3,
    vertical_velocity: i64,
    enabled: bool,
    snap_max_distance: i64,
    max_slope_cos_sq: i64,
) -> (r: Vec3)
    requires
        world.wf(),
        collider.wf(),
        radius_of(*collider) > EPSILON,
        bounded3(position, MAX_FIX as int),
        0 <= snap_max_distance <= MAX_FIX,
        0 <= max_slope_cos_sq <= ONE,
    ensures
        r == spec_snap(
            world.planes@,
            *collider,
            position,
            vertical_velocity,
            enabled,
            snap_max_distance,
            max_slope_cos_sq,
        ),
        bounded3(r, 2 * MAX_FIX + 2 * EPSILON),
{
    if !enabled || vertical_velocity > 0 {
        return position;
    }
    let mask = layer_mask(CollisionLayer::Terrain);
    let down = Vec3 { x: 0, y: (-ONE) as i64, z: 0 };
    let inflated = inflated_collider(collider, -EPSILON);
    let cast = cast_shape(world, &inflated, position, down, snap_max_distance + EPSILON, mask);
    match cast {
        Option::None => position,
        Option::Some(hit) => {
            proof {
                let sc = spec_cast(
                    world.planes@,
                    inflated,
                    position,
                    down,
                    snap_max_distance + EPSILON,
                    mask,
                );
                let b = sc->Some_0;
                assert(world.planes@[b.1].wf());
            }
            if walkable(hit.normal, max_slope_cos_sq) {
                let dropped = Vec3 { x: position.x, y: position.y - hit.distance, z: position.z };
                let nudge = hit.normal.scale_fx(EPSILON);
                dropped.plus(nudge)
            } else {
                position
            }
        },
    }
}

} // verus!
