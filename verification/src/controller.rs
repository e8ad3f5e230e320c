//! The character controller: per-body configuration, per-frame velocity
//! updates (input-driven movement, gravity, jumping), and the per-tick
//! systems that run the solver and the ground classifier over a collection
//! of bodies, in that fixed order.
//!
//! Bodies are plain records in a `Vec`; each body's state is read and
//! written independently of every other body's, so a tick touches body `k`
//! using nothing but body `k` and the read-only world.

use vstd::prelude::*;
use crate::collider::Collider;
use crate::fixed::{div_t, fx_mul, mag, mul_div, isqrt, spec_isqrt, ONE, MAX_FIX};
use crate::ground::{classify, spec_classify};
use crate::solver::{
    CollideAndSlideMaxIterations,
    EPSILON,
    MAX_ITERATIONS_LIMIT,
    POS_LIMIT,
    SOLVE_POS_BOUND,
    VEL_LIMIT,
    solve,
    spec_solve,
};
use crate::vec3::{Vec2, Vec3, bounded3};
use crate::world::{Plane, World};

verus! {

/// Per-body movement configuration.  These are set when the body is
/// created and never change during simulation.
#[derive(Clone, Copy, Debug, PartialEq, Eq, Structural)]
pub struct KinematicCharacterBody {
    /// Maximum distance between collider and ground for the body to be
    /// considered grounded, in micro-units.
    pub grounded_max_distance: i64,
    /// Body slides off terrain steeper than this limit, given as the
    /// squared cosine of the maximum slope angle at scale [`ONE`]
    /// (a forty-five degree limit is `ONE / 2`).
    pub max_slope_cos_sq: i64,
    /// Whether the body snaps down onto nearby walkable ground.
    pub snap_to_floor: bool,
    /// Maximum distance to the floor at which snapping can occur, in
    /// micro-units.
    pub snap_to_floor_max_distance: i64,
}

impl KinematicCharacterBody {
    /// Configuration values are in range for the probes they parameterize.
    pub open spec fn wf(self) -> bool {
        &&& 0 <= self.grounded_max_distance <= MAX_FIX
        &&& 0 <= self.max_slope_cos_sq <= ONE
        &&& 0 <= self.snap_to_floor_max_distance <= MAX_FIX
    }
}

impl Default for KinematicCharacterBody {
    /// A five-centimeter grounded probe, a forty-five degree slope limit,
    /// and snapping within a tenth of a unit.
    fn default() -> (r: KinematicCharacterBody)
        ensures
            r == (KinematicCharacterBody {
                grounded_max_distance: 50_000,
                max_slope_cos_sq: 500_000,
                snap_to_floor: true,
                snap_to_floor_max_distance: 100_000,
            }),
            r.wf(),
    {
        KinematicCharacterBody {
            grounded_max_distance: 50_000,
            max_slope_cos_sq: 500_000,
            snap_to_floor: true,
            snap_to_floor_max_distance: 100_000,
        }
    }
}

/// A body's velocity in world units per second, micro-scaled.
#[derive(Clone, Copy, Debug, PartialEq, Eq, Structural)]
pub struct Velocity(pub Vec3);

/// Movement tuning of the player character, in micro-units; speeds are
/// per second.
#[derive(Clone, Copy, Debug, PartialEq, Eq, Structural)]
pub struct Player {
    pub gravity: i64,
    pub acceleration: i64,
    pub max_speed: i64,
    pub sprint_acceleration: i64,
    pub sprint_max_speed: i64,
    pub grounded_deceleration: i64,
    pub jump_impulse: i64,
    pub airborne_acceleration: i64,
}

impl Player {
    /// Every tuning value is a nonnegative rate within the velocity cap.
    pub open spec fn wf(self) -> bool {
        &&& 0 <= self.gravity <= VEL_LIMIT
        &&& 0 <= self.acceleration <= VEL_LIMIT
        &&& 0 <= self.max_speed <= VEL_LIMIT
        &&& 0 <= self.sprint_acceleration <= VEL_LIMIT
        &&& 0 <= self.sprint_max_speed <= VEL_LIMIT
        &&& 0 <= self.grounded_deceleration <= VEL_LIMIT
        &&& 0 <= self.jump_impulse <= VEL_LIMIT
        &&& 0 <= self.airborne_acceleration <= VEL_LIMIT
    }
}

impl Default for Player {
    /// Earth-like gravity and the walking, sprinting and jumping rates the
    /// prototype tunes around.
    fn default() -> (r: Player)
        ensures
            r == (Player {
                gravity: 9_810_000,
                acceleration: 30_000_000,
                max_speed: 7_500_000,
                sprint_acceleration: 40_000_000,
                sprint_max_speed: 10_000_000,
                grounded_deceleration: 30_000_000,
                jump_impulse: 10_000_000,
                airborne_acceleration: 15_000_000,
            }),
            r.wf(),
    {
        Player {
            gravity: 9_810_000,
            acceleration: 30_000_000,
            max_speed: 7_500_000,
            sprint_acceleration: 40_000_000,
            sprint_max_speed: 10_000_000,
            grounded_deceleration: 30_000_000,
            jump_impulse: 10_000_000,
            airborne_acceleration: 15_000_000,
        }
    }
}

/// A moving agent: its configuration, collider, pose translation,
/// velocity, and whether the last classification found it grounded.
#[derive(Clone, Copy, Debug, PartialEq, Eq, Structural)]
pub struct Body {
    pub params: KinematicCharacterBody,
    pub collider: Collider,
    pub position: Vec3,
    pub velocity: Velocity,
    pub grounded: bool,
}

impl Body {
    /// A body the solver accepts: valid configuration, a collider thicker
    /// than the skin margin, and pose and velocity within the caps.
    pub open spec fn wf(self) -> bool {
        &&& self.params.wf()
        &&& self.collider.wf()
        &&& crate::collider::radius_of(self.collider) > EPSILON
        &&& bounded3(self.position, POS_LIMIT as int)
        &&& bounded3(self.velocity.0, VEL_LIMIT as int)
    }
}

/// Squared length of a horizontal vector.
pub open spec fn spec_dot2(a: Vec2, b: Vec2) -> int {
    a.x * b.x + a.y * b.y
}

/// Both components are at most `m` in magnitude.
pub open spec fn bounded2(v: Vec2, m: int) -> bool {
    mag(v.x as int) <= m && mag(v.y as int) <= m
}

/// Length of a horizontal vector, rounded down to a whole micro-unit.
pub open spec fn spec_len2(v: Vec2) -> int {
    spec_isqrt(spec_dot2(v, v))
}

/// Length of a horizontal vector, rounded down.
pub fn length2(v: Vec2) -> (r: i64)
    requires
        bounded2(v, MAX_FIX as int),
    ensures
        r == spec_len2(v),
        r >= 0,
        mag(v.x as int) <= r,
        mag(v.y as int) <= r,
        r <= 2 * MAX_FIX,
{
    proof {
        crate::fixed::lemma_mag_mul_bound(v.x as int, v.x as int, MAX_FIX as int, MAX_FIX as int);
        crate::fixed::lemma_mag_mul_bound(v.y as int, v.y as int, MAX_FIX as int, MAX_FIX as int);
        assert(v.x * v.x >= 0 && v.y * v.y >= 0 && mag(v.x as int) * mag(v.x as int) == v.x * v.x
            && mag(v.y as int) * mag(v.y as int) == v.y * v.y) by (nonlinear_arith);
    }
    let d = v.x * v.x + v.y * v.y;
    let r = isqrt(d);
    proof {
        crate::fixed::lemma_isqrt_square(mag(v.x as int));
        crate::fixed::lemma_isqrt_mono(mag(v.x as int) * mag(v.x as int), d as int);
        crate::fixed::lemma_isqrt_square(mag(v.y as int));
        crate::fixed::lemma_isqrt_mono(mag(v.y as int) * mag(v.y as int), d as int);
        crate::fixed::lemma_isqrt_mono(d as int, 4 * MAX_FIX * MAX_FIX);
        crate::fixed::lemma_isqrt_square(2 * MAX_FIX);
    }
    r
}

/// A horizontal vector whose components are bounded by `b` is no longer
/// than `2 * b`.
pub proof fn lemma_len2_bound(v: Vec2, b: int)
    requires
        b >= 0,
        bounded2(v, b),
    ensures
        0 <= spec_len2(v) <= 2 * b,
{
    assert(0 <= v.x * v.x <= b * b && 0 <= v.y * v.y <= b * b && 2 * (b * b) <= (2 * b) * (2 * b))
        by (nonlinear_arith)
        requires
            b >= 0,
            mag(v.x as int) <= b,
            mag(v.y as int) <= b,
    ;
    crate::fixed::lemma_isqrt_nonneg(spec_dot2(v, v));
    crate::fixed::lemma_isqrt_mono(spec_dot2(v, v), (2 * b) * (2 * b));
    crate::fixed::lemma_isqrt_square(2 * b);
}

/// A horizontal vector clamped to a maximum length: unchanged when already
/// short enough, otherwise rescaled to that length on the fixed grid.
pub open spec fn spec_clamp_len2(v: Vec2, m: i64) -> Vec2 {
    let len = spec_len2(v);
    if len <= m {
        v
    } else {
        Vec2 { x: div_t(v.x * m, len) as i64, y: div_t(v.y * m, len) as i64 }
    }
}

/// Clamps a horizontal vector to a maximum length, exactly as
/// [`spec_clamp_len2`] states.
pub fn clamp_length_max(v: Vec2, m: i64) -> (r: Vec2)
    requires
        bounded2(v, MAX_FIX as int),
        0 <= m <= MAX_FIX,
    ensures
        r == spec_clamp_len2(v, m),
        bounded2(r, spec_len2(v)),
        bounded2(r, if spec_len2(v) <= m {
            spec_len2(v)
        } else {
            m as int
        }),
        mag(r.x as int) <= mag(v.x as int),
        mag(r.y as int) <= mag(v.y as int),
{
    let len = length2(v);
    if len <= m {
        v
    } else {
        proof {
            crate::fixed::lemma_mag_mul_bound(v.x as int, m as int, len as int, MAX_FIX as int);
            crate::fixed::lemma_mag_mul_bound(v.y as int, m as int, len as int, MAX_FIX as int);
            crate::fixed::lemma_mag_mul_bound(v.x as int, m as int, len as int, m as int);
            crate::fixed::lemma_mag_mul_bound(v.y as int, m as int, len as int, m as int);
            crate::fixed::lemma_div_t_mag(v.x * m, len as int);
            crate::fixed::lemma_div_t_mag(v.y * m, len as int);
            crate::fixed::lemma_mag_mul(v.x as int, m as int);
            crate::fixed::lemma_mag_mul(v.y as int, m as int);
            assert(mag(div_t(v.x * m, len as int)) <= m && mag(div_t(v.y * m, len as int)) <= m
                && mag(div_t(v.x * m, len as int)) <= mag(v.x as int) && mag(
                div_t(v.y * m, len as int),
            ) <= mag(v.y as int)) by (nonlinear_arith)
                requires
                    len > 0,
                    0 <= m < len,
                    mag(div_t(v.x * m, len as int)) * len <= mag(v.x * m),
                    mag(div_t(v.y * m, len as int)) * len <= mag(v.y * m),
                    mag(v.x * m) <= len * m,
                    mag(v.y * m) <= len * m,
                    mag(v.x * m) == mag(v.x as int) * mag(m as int),
                    mag(v.y * m) == mag(v.y as int) * mag(m as int),
                    mag(div_t(v.x * m, len as int)) >= 0,
                    mag(div_t(v.y * m, len as int)) >= 0,
            ;
        }
        Vec2 { x: mul_div(v.x, m, len), y: mul_div(v.y, m, len) }
    }
}

/// A horizontal input direction rotated by a yaw angle whose cosine and
/// sine are given at scale [`ONE`]: the exact two-dimensional rotation on
/// the fixed grid.
pub open spec fn spec_rotate_yaw(v: Vec2, cos: i64, sin: i64) -> Vec2 {
    Vec2 {
        x: div_t(v.x * cos - v.y * sin, ONE as int) as i64,
        y: div_t(v.x * sin + v.y * cos, ONE as int) as i64,
    }
}

/// Rotates a horizontal input direction by a yaw angle given through its
/// cosine and sine at scale [`ONE`], exactly as [`spec_rotate_yaw`]
/// states.  The caller supplies the camera yaw's cosine and sine.
pub fn rotate_yaw(v: Vec2, cos: i64, sin: i64) -> (r: Vec2)
    requires
        bounded2(v, ONE as int),
        mag(cos as int) <= ONE,
        mag(sin as int) <= ONE,
    ensures
        r == spec_rotate_yaw(v, cos, sin),
        bounded2(r, 2 * ONE),
{
    proof {
        crate::fixed::lemma_mag_mul_bound(v.x as int, cos as int, ONE as int, ONE as int);
        crate::fixed::lemma_mag_mul_bound(v.y as int, sin as int, ONE as int, ONE as int);
        crate::fixed::lemma_mag_mul_bound(v.x as int, sin as int, ONE as int, ONE as int);
        crate::fixed::lemma_mag_mul_bound(v.y as int, cos as int, ONE as int, ONE as int);
        crate::fixed::lemma_div_t_mag(v.x * cos - v.y * sin, ONE as int);
        crate::fixed::lemma_div_t_mag(v.x * sin + v.y * cos, ONE as int);
        assert(mag(div_t(v.x * cos - v.y * sin, ONE as int)) <= 2 * ONE && mag(
            div_t(v.x * sin + v.y * cos, ONE as int),
        ) <= 2 * ONE) by (nonlinear_arith)
            requires
                mag(v.x * cos - v.y * sin) <= 2_000_000_000_000,
                mag(v.x * sin + v.y * cos) <= 2_000_000_000_000,
                mag(div_t(v.x * cos - v.y * sin, ONE as int)) * (ONE as int) <= mag(
                    v.x * cos - v.y * sin,
                ),
                mag(div_t(v.x * sin + v.y * cos, ONE as int)) * (ONE as int) <= mag(
                    v.x * sin + v.y * cos,
                ),
                ONE == 1_000_000,
        ;
    }
    let nx = v.x * cos - v.y * sin;
    let ny = v.x * sin + v.y * cos;
    Vec2 { x: nx / ONE, y: ny / ONE }
}

/// Integrates gravity into a velocity for one timestep: the vertical
/// component decreases by the gravity rate scaled by the timestep.  Runs
/// only while the body is airborne; grounded bodies have their vertical
/// velocity pinned to zero by [`respond_to_ground`].
pub fn apply_gravity(player: &Player, velocity: &mut Velocity, dt: i64)
    requires
        player.wf(),
        bounded3(old(velocity).0, VEL_LIMIT as int),
        old(velocity).0.y - player.gravity >= -VEL_LIMIT,
        0 < dt <= ONE,
    ensures
        final(velocity).0.x == old(velocity).0.x,
        final(velocity).0.z == old(velocity).0.z,
        final(velocity).0.y == old(velocity).0.y - div_t(
            player.gravity * dt,
            ONE as int,
        ),
        bounded3(final(velocity).0, VEL_LIMIT as int),
{
    let fall = fx_mul(player.gravity, dt);
    velocity.0.y = velocity.0.y - fall;
}

/// Applies the jump impulse: a grounded body gains the impulse on its
/// vertical velocity; an airborne body is left unchanged.
pub fn jump(player: &Player, velocity: &mut Velocity, grounded: bool)
    requires
        player.wf(),
        bounded3(old(velocity).0, VEL_LIMIT as int),
        old(velocity).0.y + player.jump_impulse <= VEL_LIMIT,
    ensures
        final(velocity).0.x == old(velocity).0.x,
        final(velocity).0.z == old(velocity).0.z,
        final(velocity).0.y == if grounded {
            old(velocity).0.y + player.jump_impulse
        } else {
            old(velocity).0.y as int
        },
        bounded3(final(velocity).0, VEL_LIMIT as int),
{
    if grounded {
        velocity.0.y = velocity.0.y + player.jump_impulse;
    }
}

/// The horizontal velocity [`grounded_movement`] produces.
pub open spec fn spec_grounded_movement(
    player: Player,
    v: Vec3,
    input: Vec2,
    sprint: bool,
    dt: i64,
) -> Vec3 {
    let planar = Vec2 { x: v.x, y: v.z };
    let speed = spec_len2(planar);
    if spec_dot2(input, input) > 0 {
        let accel = if sprint {
            player.sprint_acceleration
        } else {
            player.acceleration
        };
        let max_speed = if sprint {
            player.sprint_max_speed
        } else {
            player.max_speed
        };
        let raw = speed + div_t(accel * dt, ONE as int);
        let target = if raw < 0 {
            0
        } else if raw > max_speed {
            max_speed as int
        } else {
            raw
        };
        Vec3 {
            x: div_t(input.x * target, ONE as int) as i64,
            y: v.y,
            z: div_t(input.y * target, ONE as int) as i64,
        }
    } else {
        let decelerated = speed - div_t(player.grounded_deceleration * dt, ONE as int);
        if decelerated > 0 {
            let clamped = spec_clamp_len2(planar, decelerated as i64);
            Vec3 { x: clamped.x, y: v.y, z: clamped.y }
        } else {
            Vec3 { x: 0, y: v.y, z: 0 }
        }
    }
}

/// Updates a grounded body's horizontal velocity from the player's input
/// direction, exactly as [`spec_grounded_movement`] states: with input,
/// the speed grows by the acceleration rate and is clamped to the maximum
/// (the sprint rates when sprinting), along the input direction; without
/// input, ground friction decelerates the current horizontal motion
/// toward a stop.  The input direction is expected normalized or zero, in
/// camera-relative terms already resolved through [`rotate_yaw`].
pub fn grounded_movement(
    player: &Player,
    velocity: &mut Velocity,
    input: Vec2,
    sprint: bool,
    dt: i64,
)
    requires
        player.wf(),
        bounded3(old(velocity).0, VEL_LIMIT as int),
        bounded2(input, ONE as int),
        0 < dt <= ONE,
    ensures
        final(velocity).0 == spec_grounded_movement(*player, old(velocity).0, input, sprint, dt),
        bounded3(final(velocity).0, VEL_LIMIT as int),
{
    let planar = Vec2 { x: velocity.0.x, y: velocity.0.z };
    proof {
        crate::fixed::lemma_mag_mul_bound(input.x as int, input.x as int, ONE as int, ONE as int);
        crate::fixed::lemma_mag_mul_bound(input.y as int, input.y as int, ONE as int, ONE as int);
        assert(input.x * input.x >= 0 && input.y * input.y >= 0) by (nonlinear_arith);
    }
    let has_input = input.x * input.x + input.y * input.y > 0;
    let speed = length2(planar);
    if has_input {
        let accel = if sprint {
            player.sprint_acceleration
        } else {
            player.acceleration
        };
        let max_speed = if sprint {
            player.sprint_max_speed
        } else {
            player.max_speed
        };
        let raw = speed + fx_mul(accel, dt);
        let target = if raw < 0 {
            0
        } else if raw > max_speed {
            max_speed
        } else {
            raw
        };
        proof {
            lemma_scale_unit_component(input.x as int, target as int);
            lemma_scale_unit_component(input.y as int, target as int);
        }
        velocity.0.x = mul_div(input.x, target, ONE);
        velocity.0.z = mul_div(input.y, target, ONE);
    } else {
        let decelerated = speed - fx_mul(player.grounded_deceleration, dt);
        if decelerated > 0 {
            proof {
                lemma_len2_bound(planar, VEL_LIMIT as int);
            }
            let clamped = clamp_length_max(planar, decelerated);
            velocity.0.x = clamped.x;
            velocity.0.z = clamped.y;
        } else {
            velocity.0.x = 0;
            velocity.0.z = 0;
        }
    }
}

/// Scaling a unit-bounded input component by a capped speed stays within
/// the velocity cap and the divider's range.
proof fn lemma_scale_unit_component(c: int, target: int)
    requires
        mag(c) <= ONE as int,
        0 <= target <= VEL_LIMIT,
    ensures
        mag(c * target) <= (ONE as int) * MAX_FIX,
        mag(div_t(c * target, ONE as int)) <= VEL_LIMIT,
{
    crate::fixed::lemma_mag_mul_bound(c, target, ONE as int, VEL_LIMIT as int);
    crate::fixed::lemma_div_t_mag(c * target, ONE as int);
    assert(mag(c * target) <= (ONE as int) * MAX_FIX && mag(div_t(c * target, ONE as int))
        <= VEL_LIMIT) by (nonlinear_arith)
        requires
            mag(c * target) <= (ONE as int) * VEL_LIMIT,
            mag(div_t(c * target, ONE as int)) * (ONE as int) <= mag(c * target),
            mag(div_t(c * target, ONE as int)) >= 0,
            ONE == 1_000_000,
            VEL_LIMIT == 50_000_000,
            MAX_FIX == 1_000_000_000,
    ;
}

/// The horizontal velocity [`airborne_movement`] produces.
pub open spec fn spec_airborne_movement(player: Player, v: Vec3, input: Vec2, dt: i64) -> Vec3 {
    if spec_dot2(input, input) > 0 {
        let step = div_t(player.airborne_acceleration * dt, ONE as int);
        let steered = Vec2 {
            x: (v.x + div_t(input.x * step, ONE as int)) as i64,
            y: (v.z + div_t(input.y * step, ONE as int)) as i64,
        };
        let clamped = spec_clamp_len2(steered, player.max_speed);
        Vec3 { x: clamped.x, y: v.y, z: clamped.y }
    } else {
        v
    }
}

/// Steers an airborne body: the input direction accelerates the
/// horizontal velocity at the airborne rate, and the result is clamped to
/// the maximum speed, exactly as [`spec_airborne_movement`] states; no
/// input leaves the velocity untouched (no air friction).
pub fn airborne_movement(player: &Player, velocity: &mut Velocity, input: Vec2, dt: i64)
    requires
        player.wf(),
        bounded3(old(velocity).0, VEL_LIMIT as int),
        bounded2(input, ONE as int),
        0 < dt <= ONE,
    ensures
        final(velocity).0 == spec_airborne_movement(*player, old(velocity).0, input, dt),
        bounded3(final(velocity).0, VEL_LIMIT as int),
{
    proof {
        crate::fixed::lemma_mag_mul_bound(input.x as int, input.x as int, ONE as int, ONE as int);
        crate::fixed::lemma_mag_mul_bound(input.y as int, input.y as int, ONE as int, ONE as int);
        assert(input.x * input.x >= 0 && input.y * input.y >= 0) by (nonlinear_arith);
    }
    let has_input = input.x * input.x + input.y * input.y > 0;
    if has_input {
        let step = fx_mul(player.airborne_acceleration, dt);
        proof {
            lemma_scale_unit_component(input.x as int, step as int);
            lemma_scale_unit_component(input.y as int, step as int);
        }
        let steered = Vec2 {
            x: velocity.0.x + mul_div(input.x, step, ONE),
            y: velocity.0.z + mul_div(input.y, step, ONE),
        };
        let clamped = clamp_length_max(steered, player.max_speed);
        velocity.0.x = clamped.x;
        velocity.0.z = clamped.y;
    }
}

/// The body [`step`] leaves behind: moved by the solver under the desired
/// velocity, then classified by the downward probe at the new position,
/// with the vertical velocity zeroed when grounded.
pub open spec fn spec_step(
    planes: Seq<Plane>,
    body: Body,
    desired_velocity: Vec3,
    dt: i64,
    max_iterations: usize,
) -> Body {
    let solved = spec_solve(
        planes,
        body.collider,
        body.position,
        desired_velocity,
        dt,
        max_iterations,
    );
    let cls = spec_classify(
        planes,
        body.collider,
        solved.position,
        body.params.grounded_max_distance,
        body.params.max_slope_cos_sq,
    );
    Body {
        params: body.params,
        collider: body.collider,
        position: solved.position,
        velocity: Velocity(
            Vec3 {
                x: desired_velocity.x,
                y: if cls.0 {
                    0
                } else {
                    desired_velocity.y
                },
                z: desired_velocity.z,
            },
        ),
        grounded: cls.0,
    }
}

/// One per-tick entry point for a single body: adopts the desired
/// velocity, resolves it against terrain with the solver, then classifies
/// the body at its new position and zeroes its vertical velocity when it
/// stands on walkable ground — exactly as [`spec_step`] states.  Returns
/// the new pose translation and the grounded flag.
pub fn step(
    world: &World,
    body: &mut Body,
    desired_velocity: Vec3,
    dt: i64,
    max_iterations: usize,
) -> (r: (Vec3, bool))
    requires
        world.wf(),
        old(body).wf(),
        bounded3(desired_velocity, VEL_LIMIT as int),
        0 < dt <= ONE,
        max_iterations <= MAX_ITERATIONS_LIMIT,
    ensures
        *final(body) == spec_step(world.planes@, *old(body), desired_velocity, dt, max_iterations),
        r.0 == final(body).position,
        r.1 == final(body).grounded,
        bounded3(final(body).position, SOLVE_POS_BOUND as int),
{
    let solved = solve(world, &body.collider, body.position, desired_velocity, dt, max_iterations);
    body.position = solved.position;
    let (grounded, _normal) = classify(
        world,
        &body.collider,
        body.position,
        body.params.grounded_max_distance,
        body.params.max_slope_cos_sq,
    );
    body.velocity = Velocity(
        Vec3 {
            x: desired_velocity.x,
            y: if grounded {
                0
            } else {
                desired_velocity.y
            },
            z: desired_velocity.z,
        },
    );
    body.grounded = grounded;
    (body.position, grounded)
}

/// The body [`collide_and_slide`] leaves behind: moved to where the solver
/// put it, everything else untouched.
pub open spec fn spec_body_after_solve(
    planes: Seq<Plane>,
    b: Body,
    dt: i64,
    max_iterations: usize,
) -> Body {
    Body {
        params: b.params,
        collider: b.collider,
        position: spec_solve(planes, b.collider, b.position, b.velocity.0, dt, max_iterations)
            .position,
        velocity: b.velocity,
        grounded: b.grounded,
    }
}

/// Moves every body by one collide-and-slide step under its own velocity.
/// Bodies are independent: body `k` of the result depends on nothing but
/// body `k` of the input and the read-only world, so the iteration could
/// as well run bodies in parallel.
pub fn collide_and_slide(
    world: &World,
    bodies: &mut Vec<Body>,
    max_iterations: &CollideAndSlideMaxIterations,
    dt: i64,
)
    requires
        world.wf(),
        forall|k: int| 0 <= k < old(bodies)@.len() ==> (#[trigger] old(bodies)@[k]).wf(),
        0 < dt <= ONE,
        max_iterations.0 <= MAX_ITERATIONS_LIMIT,
    ensures
        final(bodies)@.len() == old(bodies)@.len(),
        forall|k: int|
            0 <= k < old(bodies)@.len() ==> #[trigger] final(bodies)@[k] == spec_body_after_solve(
                world.planes@,
                old(bodies)@[k],
                dt,
                max_iterations.0,
            ),
{
    let n = bodies.len();
    let mut k: usize = 0;
    while k < n
        invariant
            world.wf(),
            0 < dt <= ONE,
            max_iterations.0 <= MAX_ITERATIONS_LIMIT,
            n == bodies@.len(),
            bodies@.len() == old(bodies)@.len(),
            0 <= k <= n,
            forall|j: int| k <= j < n ==> #[trigger] bodies@[j] == old(bodies)@[j],
            forall|j: int| 0 <= j < old(bodies)@.len() ==> (#[trigger] old(bodies)@[j]).wf(),
            forall|j: int|
                0 <= j < k ==> #[trigger] bodies@[j] == spec_body_after_solve(
                    world.planes@,
                    old(bodies)@[j],
                    dt,
                    max_iterations.0,
                ),
        decreases n - k,
    {
        let b = bodies[k];
        let solved = solve(world, &b.collider, b.position, b.velocity.0, dt, max_iterations.0);
        bodies[k] = Body {
            params: b.params,
            collider: b.collider,
            position: solved.position,
            velocity: b.velocity,
            grounded: b.grounded,
        };
        k = k + 1;
    }
}

/// A body the downward probe accepts: valid configuration, a collider
/// thicker than the skin margin, and a position within the coordinate
/// range (looser than [`Body::wf`], since the solver may leave a body
/// beyond [`POS_LIMIT`]).
pub open spec fn probe_wf(b: Body) -> bool {
    &&& b.params.wf()
    &&& b.collider.wf()
    &&& crate::collider::radius_of(b.collider) > EPSILON
    &&& bounded3(b.position, MAX_FIX as int)
}

/// The body [`respond_to_ground`] leaves behind: classified by the
/// downward probe at its current position, grounded flag set accordingly,
/// and the vertical velocity zeroed exactly when grounded.
pub open spec fn spec_body_after_ground(planes: Seq<Plane>, b: Body) -> Body {
    let cls = spec_classify(
        planes,
        b.collider,
        b.position,
        b.params.grounded_max_distance,
        b.params.max_slope_cos_sq,
    );
    Body {
        params: b.params,
        collider: b.collider,
        position: b.position,
        velocity: Velocity(
            Vec3 {
                x: b.velocity.0.x,
                y: if cls.0 {
                    0
                } else {
                    b.velocity.0.y
                },
                z: b.velocity.0.z,
            },
        ),
        grounded: cls.0,
    }
}

/// Classifies every body against the ground beneath it and zeroes the
/// vertical velocity of each grounded body, so gravity cannot accumulate
/// downward speed while a body rests on walkable terrain.  Runs after
/// [`collide_and_slide`] within a tick, reading the solver's output
/// positions.
pub fn respond_to_ground(world: &World, bodies: &mut Vec<Body>)
    requires
        world.wf(),
        forall|k: int| 0 <= k < old(bodies)@.len() ==> probe_wf(#[trigger] old(bodies)@[k]),
    ensures
        final(bodies)@.len() == old(bodies)@.len(),
        forall|k: int|
            0 <= k < old(bodies)@.len() ==> #[trigger] final(bodies)@[k] == spec_body_after_ground(
                world.planes@,
                old(bodies)@[k],
            ),
{
    let n = bodies.len();
    let mut k: usize = 0;
    while k < n
        invariant
            world.wf(),
            n == bodies@.len(),
            bodies@.len() == old(bodies)@.len(),
            0 <= k <= n,
            forall|j: int| k <= j < n ==> #[trigger] bodies@[j] == old(bodies)@[j],
            forall|j: int| 0 <= j < old(bodies)@.len() ==> probe_wf(#[trigger] old(bodies)@[j]),
            forall|j: int|
                0 <= j < k ==> #[trigger] bodies@[j] == spec_body_after_ground(
                    world.planes@,
                    old(bodies)@[j],
                ),
        decreases n - k,
    {
        let b = bodies[k];
        let (grounded, _normal) = classify(
            world,
            &b.collider,
            b.position,
            b.params.grounded_max_distance,
            b.params.max_slope_cos_sq,
        );
        bodies[k] = Body {
            params: b.params,
            collider: b.collider,
            position: b.position,
            velocity: Velocity(
                Vec3 {
                    x: b.velocity.0.x,
                    y: if grounded {
                        0
                    } else {
                        b.velocity.0.y
                    },
                    z: b.velocity.0.z,
                },
            ),
            grounded,
        };
        k = k + 1;
    }
}

} // verus!
