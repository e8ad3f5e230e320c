//! The collide-and-slide movement solver.
//!
//! [`solve`] consumes a body's position, velocity and collider and resolves
//! one step of motion against static terrain: it repeatedly casts the
//! collider (shrunk by the skin margin) along the remaining velocity, stops
//! at the first obstruction, restores the skin gap along the contact
//! normal, redirects the remainder tangent to the surface by vector
//! rejection, and repeats until the motion is spent, the path is free, the
//! redirected motion degenerates to zero, or the iteration budget runs out.
//!
//! Two policy choices this solver fixes (where designs of this algorithm
//! differ): a contact's raw surface normal is used for the rejection, with
//! no flattening of steep normals, and the final free move spends the whole
//! remaining motion without re-adding the skin gap.

use vstd::prelude::*;
use crate::collider::{Collider, inflated_collider, radius_of};
use crate::fixed::{mag, ONE, MAX_FIX};
use crate::vec3::{
    Vec3,
    bounded3,
    max_mag3,
    spec_add3,
    spec_len3,
    spec_reject,
    spec_scale_div,
    spec_sub3,
    lemma_len3_bound,
};
use crate::world::{
    CollisionLayer,
    spec_hit_t,
    Plane,
    World,
    cast_shape,
    layer_mask,
    spec_cast,
    spec_layer_mask,
};

verus! {

/// Skin margin in micro-units: the gap the solver keeps between a body's
/// collider and terrain so that consecutive frames never start in
/// penetration.
pub const EPSILON: i64 = 100;

/// Largest coordinate magnitude a body position may have when handed to
/// the solver: three hundred world units from the origin.
pub const POS_LIMIT: i64 = 300_000_000;

/// Largest velocity component magnitude the solver accepts: fifty world
/// units per second.
pub const VEL_LIMIT: i64 = 50_000_000;

/// Every position the solver returns stays within this coordinate bound.
pub const SOLVE_POS_BOUND: i64 = 901_000_000;

/// Upper bound on the slide loop's iteration budget.
pub const MAX_ITERATIONS_LIMIT: usize = 64;

/// Iteration budget for the slide loop, fixed at configuration time.
#[derive(Clone, Copy, Debug, PartialEq, Eq, Structural)]
pub struct CollideAndSlideMaxIterations(pub usize);

/// How one solver step ended.
#[derive(Clone, Copy, Debug, PartialEq, Eq, Structural)]
pub enum SolveOutcome {
    /// The motion was spent through one or more contact redirections
    /// (or no motion was requested at all).
    Sliding,
    /// The last cast found the remaining path free and the whole remaining
    /// motion was applied.
    FreeMove,
    /// The iteration budget ran out with distance still remaining; the
    /// body simply stops where it is.  An accepted approximation, not an
    /// error.
    OutOfBudget,
    /// A redirection produced a zero motion vector, so no further movement
    /// was possible this step.
    Degenerate,
}

/// What one solver step produced: the body's new position, how the step
/// ended, and how many shape casts it spent (observable for tuning).
#[derive(Clone, Copy, Debug, PartialEq, Eq, Structural)]
pub struct SolveResult {
    pub position: Vec3,
    pub outcome: SolveOutcome,
    pub casts: usize,
}

/// One slide loop, stated exactly: from a position, a remaining motion
/// vector `rv`, and a remaining distance `rem`, either finish (distance
/// spent, budget out, or degenerate motion), or cast along `rv` for its
/// length plus the skin margin (the length equals the remaining distance
/// in exact arithmetic); a free path applies the whole remainder, and a
/// contact advances to the hit, restores the skin gap along the contact
/// normal, rescales the motion to the distance still unspent and rejects
/// it from the normal (clamping the redirected motion to the unspent
/// distance, which in exact arithmetic it never exceeds).
pub open spec fn spec_slide(
    planes: Seq<Plane>,
    shape: Collider,
    pos: Vec3,
    rv: Vec3,
    rem: i64,
    budget: usize,
    casts: usize,
    mask: u32,
) -> SolveResult
    decreases budget,
{
    if rem <= 0 {
        SolveResult { position: pos, outcome: SolveOutcome::Sliding, casts }
    } else if budget == 0 {
        SolveResult { position: pos, outcome: SolveOutcome::OutOfBudget, casts }
    } else if spec_len3(rv) == 0 {
        SolveResult { position: pos, outcome: SolveOutcome::Degenerate, casts }
    } else {
        let len = spec_len3(rv);
        match spec_cast(planes, shape, pos, rv, len + EPSILON, mask) {
            Option::None => SolveResult {
                position: spec_add3(pos, rv),
                outcome: SolveOutcome::FreeMove,
                casts: (casts + 1) as usize,
            },
            Option::Some(b) => {
                let normal = planes[b.1].normal;
                let moved = spec_scale_div(rv, b.0, len);
                let contact = spec_add3(pos, moved);
                let nudged = spec_add3(
                    contact,
                    spec_scale_div(normal, EPSILON as int, ONE as int),
                );
                let traveled = spec_len3(spec_sub3(nudged, pos));
                let rem2 = (rem - traveled) as i64;
                let rescaled = spec_scale_div(rv, rem2 as int, len);
                let rv2 = crate::vec3::spec_clamp_len3(
                    spec_reject(rescaled, normal),
                    if rem2 > 0 {
                        rem2
                    } else {
                        0
                    },
                );
                spec_slide(
                    planes,
                    shape,
                    nudged,
                    rv2,
                    rem2,
                    (budget - 1) as usize,
                    (casts + 1) as usize,
                    mask,
                )
            },
        }
    }
}

/// What [`solve`] returns: the slide loop run on the velocity scaled by
/// the timestep, with the collider shrunk by the skin margin, filtered to
/// terrain surfaces.
pub open spec fn spec_solve(
    planes: Seq<Plane>,
    collider: Collider,
    position: Vec3,
    velocity: Vec3,
    dt: i64,
    max_iterations: usize,
) -> SolveResult {
    let rv = spec_scale_div(velocity, dt as int, ONE as int);
    let rem = spec_len3(rv) as i64;
    spec_slide(
        planes,
        collider.spec_inflate(-EPSILON as int),
        position,
        rv,
        rem,
        max_iterations,
        0,
        spec_layer_mask(CollisionLayer::Terrain),
    )
}

/// No-obstruction law: whenever the cast provider reports no hit for the
/// entire requested path of the first cast, the solver moves the body by
/// exactly the velocity scaled by the timestep, in one free move, with a
/// single cast spent.
pub proof fn lemma_solve_no_obstruction(
    planes: Seq<Plane>,
    collider: Collider,
    position: Vec3,
    velocity: Vec3,
    dt: i64,
    max_iterations: usize,
)
    requires
        bounded3(velocity, VEL_LIMIT as int),
        0 < dt <= ONE,
        1 <= max_iterations,
        spec_len3(spec_scale_div(velocity, dt as int, ONE as int)) > 0,
        spec_cast(
            planes,
            collider.spec_inflate(-EPSILON as int),
            position,
            spec_scale_div(velocity, dt as int, ONE as int),
            spec_len3(spec_scale_div(velocity, dt as int, ONE as int)) + EPSILON,
            spec_layer_mask(CollisionLayer::Terrain),
        ) is None,
    ensures
        spec_solve(planes, collider, position, velocity, dt, max_iterations) == (SolveResult {
            position: spec_add3(position, spec_scale_div(velocity, dt as int, ONE as int)),
            outcome: SolveOutcome::FreeMove,
            casts: 1,
        }),
{
    let rv = spec_scale_div(velocity, dt as int, ONE as int);
    crate::vec3::lemma_scale_fx_bounded(velocity, dt as int, VEL_LIMIT as int);
    lemma_len3_bound(rv, VEL_LIMIT as int);
    let rem = spec_len3(rv) as i64;
    assert(rem == spec_len3(rv));
    assert(spec_slide(
        planes,
        collider.spec_inflate(-EPSILON as int),
        position,
        rv,
        rem,
        max_iterations,
        0,
        spec_layer_mask(CollisionLayer::Terrain),
    ) == (SolveResult {
        position: spec_add3(position, rv),
        outcome: SolveOutcome::FreeMove,
        casts: 1,
    }));
}

/// Clearance a slide step may lose against any one plane, in the squared
/// micro-units of [`crate::world::Plane::spec_clearance`]: the advance
/// truncates each coordinate to the grid (up to `3 * ONE`), and the skin
/// nudge along another plane's normal can approach this plane (up to
/// `3 * ONE * EPSILON`).  Relative to a unit normal this is about three
/// times the skin margin.
pub const SLIDE_STEP_SLACK: i64 = 303_000_000;

/// The clearance a rescaled advance keeps: scaling a motion `v` of length
/// `len` down to parameter `t` changes the clearance along any roughly
/// unit normal by `t/len` of the motion's own clearance change, up to one
/// grid cell per coordinate.
proof fn lemma_scale_div_dot(n: Vec3, v: Vec3, t: int, len: int)
    requires
        len > 0,
        bounded3(n, ONE as int),
        bounded3(v, len),
        0 <= t <= MAX_FIX,
    ensures
        len * crate::vec3::spec_dot(n, spec_scale_div(v, t, len)) >= t * crate::vec3::spec_dot(
            n,
            v,
        ) - 3 * ONE * len,
        len * crate::vec3::spec_dot(n, spec_scale_div(v, t, len)) <= t * crate::vec3::spec_dot(
            n,
            v,
        ) + 3 * ONE * len,
{
    crate::vec3::lemma_scale_div_bounds(v, t, len);
    let w = spec_scale_div(v, t, len);
    let qx = crate::fixed::div_t(v.x * t, len);
    let qy = crate::fixed::div_t(v.y * t, len);
    let qz = crate::fixed::div_t(v.z * t, len);
    crate::fixed::lemma_div_t(v.x * t, len);
    crate::fixed::lemma_div_t(v.y * t, len);
    crate::fixed::lemma_div_t(v.z * t, len);
    let rx = v.x * t - qx * len;
    let ry = v.y * t - qy * len;
    let rz = v.z * t - qz * len;
    assert(w.x == qx && w.y == qy && w.z == qz);
    assert(len * (n.x * qx) == n.x * (v.x * t) - n.x * rx) by (nonlinear_arith)
        requires
            rx == v.x * t - qx * len,
    ;
    assert(len * (n.y * qy) == n.y * (v.y * t) - n.y * ry) by (nonlinear_arith)
        requires
            ry == v.y * t - qy * len,
    ;
    assert(len * (n.z * qz) == n.z * (v.z * t) - n.z * rz) by (nonlinear_arith)
        requires
            rz == v.z * t - qz * len,
    ;
    assert(len * crate::vec3::spec_dot(n, w) == len * (n.x * qx) + len * (n.y * qy) + len * (n.z
        * qz)) by (nonlinear_arith)
        requires
            crate::vec3::spec_dot(n, w) == n.x * qx + n.y * qy + n.z * qz,
    ;
    assert(n.x * (v.x * t) == t * (n.x * v.x)) by (nonlinear_arith);
    assert(n.y * (v.y * t) == t * (n.y * v.y)) by (nonlinear_arith);
    assert(n.z * (v.z * t) == t * (n.z * v.z)) by (nonlinear_arith);
    assert(t * (n.x * v.x + n.y * v.y + n.z * v.z) == t * (n.x * v.x) + t * (n.y * v.y) + t * (n.z
        * v.z)) by (nonlinear_arith);
    crate::fixed::lemma_mag_mul_bound(n.x as int, rx, ONE as int, len);
    crate::fixed::lemma_mag_mul_bound(n.y as int, ry, ONE as int, len);
    crate::fixed::lemma_mag_mul_bound(n.z as int, rz, ONE as int, len);
    assert(len * crate::vec3::spec_dot(n, w) == t * crate::vec3::spec_dot(n, v) - (n.x * rx + n.y
        * ry + n.z * rz));
    assert(n.x * rx <= (ONE as int) * len && n.x * rx >= -((ONE as int) * len));
    assert(n.y * ry <= (ONE as int) * len && n.y * ry >= -((ONE as int) * len));
    assert(n.z * rz <= (ONE as int) * len && n.z * rz >= -((ONE as int) * len));
    assert(len * crate::vec3::spec_dot(n, w) >= t * crate::vec3::spec_dot(n, v) - 3 * ((
    ONE as int) * len));
    assert(3 * ((ONE as int) * len) == 3 * ONE * len) by (nonlinear_arith);
}

/// The clearance change of any roughly unit normal against a bounded
/// displacement is itself bounded.
proof fn lemma_dot_mag_bound(n: Vec3, q: Vec3, bq: int)
    requires
        bounded3(n, ONE as int),
        bounded3(q, bq),
        bq >= 0,
    ensures
        mag(crate::vec3::spec_dot(n, q)) <= 3 * ((ONE as int) * bq),
{
    crate::fixed::lemma_mag_mul_bound(n.x as int, q.x as int, ONE as int, bq);
    crate::fixed::lemma_mag_mul_bound(n.y as int, q.y as int, ONE as int, bq);
    crate::fixed::lemma_mag_mul_bound(n.z as int, q.z as int, ONE as int, bq);
}

/// Velocity-rejection orthogonality for a whole solver redirection: after
/// a contact, the remaining velocity is rescaled, rejected from the hit
/// normal, and clamped to the unspent distance; the component of that
/// final vector along the hit normal is zero up to a few micro-units —
/// the sum of the normal's component magnitudes plus three grid cells —
/// far below the skin margin.
pub proof fn lemma_redirect_orthogonal(v: Vec3, n: Vec3, m: i64)
    requires
        bounded3(v, 135_000_000),
        bounded3(n, ONE as int),
        crate::vec3::spec_dot(n, n) >= crate::vec3::NORMAL_SQ_MIN,
        0 <= m <= MAX_FIX,
    ensures
        mag(
            crate::vec3::spec_dot(
                crate::vec3::spec_clamp_len3(spec_reject(v, n), m),
                n,
            ),
        ) < mag(n.x as int) + mag(n.y as int) + mag(n.z as int) + 3 * ONE,
{
    let r = spec_reject(v, n);
    let nsum = mag(n.x as int) + mag(n.y as int) + mag(n.z as int);
    crate::vec3::lemma_reject_orthogonal(v, n);
    crate::vec3::lemma_reject_bounds(v, n);
    assert(bounded3(r, MAX_FIX as int)) by {
        assert(crate::vec3::max_mag3(v) <= 135_000_000);
    }
    let len = spec_len3(r);
    crate::vec3::lemma_dot_self_range(r, MAX_FIX as int);
    crate::fixed::lemma_isqrt_nonneg(crate::vec3::spec_dot(r, r));
    if len <= m {
    } else {
        crate::vec3::lemma_len_dominates_components(r);
        lemma_scale_div_dot(n, r, m as int, len);
        let w = spec_scale_div(r, m as int, len);
        let dr = crate::vec3::spec_dot(n, r);
        let dw = crate::vec3::spec_dot(n, w);
        assert(dr == crate::vec3::spec_dot(r, n)) by (nonlinear_arith)
            requires
                dr == n.x * r.x + n.y * r.y + n.z * r.z,
                crate::vec3::spec_dot(r, n) == r.x * n.x + r.y * n.y + r.z * n.z,
        ;
        assert(dw == crate::vec3::spec_dot(w, n)) by (nonlinear_arith)
            requires
                dw == n.x * w.x + n.y * w.y + n.z * w.z,
                crate::vec3::spec_dot(w, n) == w.x * n.x + w.y * n.y + w.z * n.z,
        ;
        assert(mag(dw) < nsum + 3 * ONE) by (nonlinear_arith)
            requires
                len * dw >= m * dr - 3 * ONE * len,
                len * dw <= m * dr + 3 * ONE * len,
                mag(dr) < nsum,
                0 <= m < len,
                nsum >= 0,
        ;
    }
}

/// Containment along the whole slide: against every terrain plane, the
/// solver's final position keeps the clearance the inflated collider
/// needs, up to [`SLIDE_STEP_SLACK`] for each cast spent — no slide step
/// pushes the body through or meaningfully into a surface, whether or not
/// that surface is the one it collided with.
#[verifier::rlimit(100)]
proof fn lemma_slide_containment(
    planes: Seq<Plane>,
    shape: Collider,
    pos: Vec3,
    rv: Vec3,
    rem: i64,
    budget: usize,
    casts: usize,
    mask: u32,
    rem0: int,
    j: int,
)
    requires
        forall|i: int| 0 <= i < planes.len() ==> #[trigger] planes[i].wf(),
        0 <= j < planes.len(),
        crate::world::layer_in_mask(planes[j].layer, mask),
        0 <= rem0 <= 2 * VEL_LIMIT,
        rem <= rem0,
        rem > 0 ==> spec_len3(rv) <= rem && bounded3(rv, rem as int),
        bounded3(pos, POS_LIMIT + rem0 - rem),
        casts + budget <= MAX_ITERATIONS_LIMIT,
    ensures
        ({
            let res = spec_slide(planes, shape, pos, rv, rem, budget, casts, mask);
            let sup = shape.spec_support(planes[j].normal, planes[j].normal_len as int);
            let before = planes[j].spec_clearance(pos);
            &&& casts <= res.casts <= casts + budget
            &&& planes[j].spec_clearance(res.position) >= vstd::math::min(before, sup) - (
            res.casts - casts) * SLIDE_STEP_SLACK
        }),
    decreases budget,
{
    let res = spec_slide(planes, shape, pos, rv, rem, budget, casts, mask);
    assert(planes[j].wf());
    let n = planes[j].normal;
    let sup = shape.spec_support(n, planes[j].normal_len as int);
    let before = planes[j].spec_clearance(pos);
    let floor = vstd::math::min(before, sup);
    if rem <= 0 || budget == 0 || spec_len3(rv) == 0 {
        assert((res.casts - casts) * SLIDE_STEP_SLACK == 0) by (nonlinear_arith)
            requires
                res.casts == casts,
        ;
    } else {
        let len = spec_len3(rv);
        crate::fixed::lemma_isqrt_nonneg(crate::vec3::spec_dot(rv, rv));
        assert(len > 0);
        crate::world::lemma_cast_props(planes, shape, pos, rv, len + EPSILON, mask);
        let dd = crate::vec3::spec_dot(n, rv);
        match spec_cast(planes, shape, pos, rv, len + EPSILON, mask) {
            Option::None => {
                assert(res.position == spec_add3(pos, rv));
                crate::vec3::lemma_dot_add3(n, pos, rv);
                assert(planes[j].spec_clearance(res.position) == before + dd);
                if dd < 0 {
                    let gap = before - sup;
                    let tj = crate::world::spec_hit_t(planes[j], shape, pos, rv, len);
                    assert(tj is Some);
                    let t_j = tj->Some_0;
                    assert(t_j > len + EPSILON);
                    assert(gap > 0) by {
                        if gap <= 0 {
                            assert(spec_hit_t(planes[j], shape, pos, rv, len) == Option::Some(
                                0int,
                            ));
                        }
                    }
                    vstd::arithmetic::div_mod::lemma_fundamental_div_mod(gap * len, -dd);
                    vstd::arithmetic::div_mod::lemma_mod_bound(gap * len, -dd);
                    assert(gap * len >= t_j * (-dd)) by (nonlinear_arith)
                        requires
                            gap * len == (-dd) * t_j + (gap * len) % (-dd),
                            (gap * len) % (-dd) >= 0,
                    ;
                    assert(gap > -dd) by (nonlinear_arith)
                        requires
                            gap * len >= t_j * (-dd),
                            t_j > len + EPSILON,
                            len > 0,
                            EPSILON > 0,
                            dd < 0,
                            gap > 0,
                    ;
                }
                assert((res.casts - casts) * SLIDE_STEP_SLACK >= 0) by (nonlinear_arith)
                    requires
                        res.casts == casts + 1,
                        SLIDE_STEP_SLACK > 0,
                ;
            },
            Option::Some(b) => {
                let t = b.0;
                let h = b.1;
                assert(planes[h].wf());
                let nh = planes[h].normal;
                let moved = spec_scale_div(rv, t, len);
                let contact = spec_add3(pos, moved);
                let q = spec_scale_div(nh, EPSILON as int, ONE as int);
                let nudged = spec_add3(contact, q);
                let traveled = spec_len3(spec_sub3(nudged, pos));
                let rem2 = (rem - traveled) as i64;
                let rescaled = spec_scale_div(rv, rem2 as int, len);
                let rejected = spec_reject(rescaled, nh);
                let cap: i64 = if rem2 > 0 {
                    rem2
                } else {
                    0
                };
                let rv2 = crate::vec3::spec_clamp_len3(rejected, cap);
                // Bounds for exact casts and the recursive state.
                crate::vec3::lemma_len_dominates_components(rv);
                crate::vec3::lemma_scale_div_bounds(rv, t, len);
                assert(bounded3(moved, t));
                crate::vec3::lemma_scale_div_bounds(nh, EPSILON as int, ONE as int);
                assert(bounded3(q, EPSILON as int));
                assert(bounded3(contact, POS_LIMIT + rem0 - rem + t));
                assert(bounded3(nudged, POS_LIMIT + rem0 - rem + t + EPSILON));
                let delta = spec_sub3(nudged, pos);
                assert(bounded3(delta, t + EPSILON));
                crate::vec3::lemma_len3_bound(delta, t + EPSILON);
                crate::vec3::lemma_len_dominates_components(delta);
                assert(0 <= traveled <= 2 * (t + EPSILON));
                assert(rem2 == rem - traveled);
                assert(rem2 <= rem);
                assert(bounded3(nudged, POS_LIMIT + rem0 - rem2)) by {
                    assert(mag(nudged.x as int) <= mag(pos.x as int) + mag(delta.x as int));
                    assert(mag(nudged.y as int) <= mag(pos.y as int) + mag(delta.y as int));
                    assert(mag(nudged.z as int) <= mag(pos.z as int) + mag(delta.z as int));
                }
                crate::vec3::lemma_scale_div_bounds(rv, rem2 as int, len);
                crate::vec3::lemma_reject_bounds(rescaled, nh);
                assert(bounded3(rejected, 5 * crate::vec3::max_mag3(rescaled)));
                assert(bounded3(rejected, MAX_FIX as int)) by {
                    assert(crate::vec3::max_mag3(rescaled) <= mag(rem2 as int));
                    assert(mag(rem2 as int) <= rem0 + 5 * EPSILON);
                }
                crate::vec3::lemma_clamp_len3_short(rejected, cap);
                crate::vec3::lemma_len_dominates_components(rv2);
                crate::vec3::lemma_dot_self_range(rv2, MAX_FIX as int);
                crate::fixed::lemma_isqrt_nonneg(crate::vec3::spec_dot(rv2, rv2));
                // Clearance kept at the contact.
                lemma_scale_div_dot(n, rv, t, len);
                let dmv = crate::vec3::spec_dot(n, moved);
                if dd >= 0 {
                    assert(dmv >= -3 * ONE) by (nonlinear_arith)
                        requires
                            len * dmv >= t * dd - 3 * ONE * len,
                            t >= 0,
                            dd >= 0,
                            len > 0,
                    ;
                } else {
                    let gap = before - sup;
                    let tj = crate::world::spec_hit_t(planes[j], shape, pos, rv, len);
                    assert(tj is Some);
                    let t_j = tj->Some_0;
                    assert(t <= t_j);
                    if gap <= 0 {
                        assert(t_j == 0);
                        assert(t == 0);
                        assert(dmv >= -3 * ONE) by (nonlinear_arith)
                            requires
                                len * dmv >= t * dd - 3 * ONE * len,
                                t == 0,
                                len > 0,
                        ;
                    } else {
                        vstd::arithmetic::div_mod::lemma_fundamental_div_mod(gap * len, -dd);
                        vstd::arithmetic::div_mod::lemma_mod_bound(gap * len, -dd);
                        assert(gap * len >= t_j * (-dd)) by (nonlinear_arith)
                            requires
                                gap * len == (-dd) * t_j + (gap * len) % (-dd),
                                (gap * len) % (-dd) >= 0,
                        ;
                        assert(dmv >= -gap - 3 * ONE) by (nonlinear_arith)
                            requires
                                len * dmv >= t * dd - 3 * ONE * len,
                                gap * len >= t_j * (-dd),
                                0 <= t <= t_j,
                                len > 0,
                                dd < 0,
                                gap > 0,
                        ;
                    }
                }
                crate::vec3::lemma_dot_add3(n, pos, moved);
                assert(planes[j].spec_clearance(contact) == before + dmv);
                lemma_dot_mag_bound(n, q, EPSILON as int);
                crate::vec3::lemma_dot_add3(n, contact, q);
                assert(planes[j].spec_clearance(nudged) == planes[j].spec_clearance(contact)
                    + crate::vec3::spec_dot(n, q));
                assert(planes[j].spec_clearance(nudged) >= floor - SLIDE_STEP_SLACK);
                // Recurse on the rest of the slide.
                lemma_slide_containment(
                    planes,
                    shape,
                    nudged,
                    rv2,
                    rem2,
                    (budget - 1) as usize,
                    (casts + 1) as usize,
                    mask,
                    rem0,
                    j,
                );
                let floor2 = vstd::math::min(planes[j].spec_clearance(nudged), sup);
                assert(floor2 >= floor - SLIDE_STEP_SLACK);
                assert(planes[j].spec_clearance(res.position) >= floor2 - (res.casts - casts - 1)
                    * SLIDE_STEP_SLACK);
                assert(floor2 - (res.casts - casts - 1) * SLIDE_STEP_SLACK >= floor - (res.casts
                    - casts) * SLIDE_STEP_SLACK) by (nonlinear_arith)
                    requires
                        floor2 >= floor - SLIDE_STEP_SLACK,
                        res.casts >= casts + 1,
                ;
            },
        }
    }
}

/// Containment law: if a body's uninflated collider starts no deeper than
/// the skin margin into any terrain plane, then after a whole solver step
/// it still overlaps no terrain plane by more than the skin margin, up to
/// a per-cast rounding slack: against every terrain plane the returned
/// position keeps a clearance of at least the collider's support reach
/// minus the skin margin and minus [`SLIDE_STEP_SLACK`] per cast spent
/// (all scaled by the normal's length).
pub proof fn lemma_solve_containment(
    planes: Seq<Plane>,
    collider: Collider,
    position: Vec3,
    velocity: Vec3,
    dt: i64,
    max_iterations: usize,
    j: int,
)
    requires
        forall|i: int| 0 <= i < planes.len() ==> #[trigger] planes[i].wf(),
        0 <= j < planes.len(),
        crate::world::layer_in_mask(planes[j].layer, spec_layer_mask(CollisionLayer::Terrain)),
        collider.wf(),
        radius_of(collider) > EPSILON,
        bounded3(position, POS_LIMIT as int),
        bounded3(velocity, VEL_LIMIT as int),
        0 < dt <= ONE,
        max_iterations <= MAX_ITERATIONS_LIMIT,
        planes[j].spec_clearance(position) >= collider.spec_support(
            planes[j].normal,
            planes[j].normal_len as int,
        ) - EPSILON * planes[j].normal_len,
    ensures
        ({
            let res = spec_solve(planes, collider, position, velocity, dt, max_iterations);
            planes[j].spec_clearance(res.position) >= collider.spec_support(
                planes[j].normal,
                planes[j].normal_len as int,
            ) - EPSILON * planes[j].normal_len - res.casts * SLIDE_STEP_SLACK
        }),
{
    let rv = spec_scale_div(velocity, dt as int, ONE as int);
    crate::vec3::lemma_scale_fx_bounded(velocity, dt as int, VEL_LIMIT as int);
    lemma_len3_bound(rv, VEL_LIMIT as int);
    let rem = spec_len3(rv) as i64;
    let inflated = collider.spec_inflate(-EPSILON as int);
    crate::collider::lemma_inflate_support(
        collider,
        -EPSILON as int,
        planes[j].normal,
        planes[j].normal_len as int,
    );
    crate::vec3::lemma_len_dominates_components(rv);
    lemma_slide_containment(
        planes,
        inflated,
        position,
        rv,
        rem,
        max_iterations,
        0,
        spec_layer_mask(CollisionLayer::Terrain),
        rem as int,
        j,
    );
    let res = spec_solve(planes, collider, position, velocity, dt, max_iterations);
    let sup_inflated = inflated.spec_support(planes[j].normal, planes[j].normal_len as int);
    assert(planes[j].spec_clearance(res.position) >= vstd::math::min(
        planes[j].spec_clearance(position),
        sup_inflated,
    ) - res.casts * SLIDE_STEP_SLACK);
}

/// Resolves one step of a body's motion against the terrain by collide
/// and slide, exactly as [`spec_solve`] states it.  Always returns within
/// `max_iterations` shape casts, for any velocity, including a zero one.
#[verifier::rlimit(60)]
pub fn solve(
    world: &World,
    collider: &Collider,
    position: Vec3,
    velocity: Vec3,
    dt: i64,
    max_iterations: usize,
) -> (r: SolveResult)
    requires
        world.wf(),
        collider.wf(),
        radius_of(*collider) > EPSILON,
        bounded3(position, POS_LIMIT as int),
        bounded3(velocity, VEL_LIMIT as int),
        0 < dt <= ONE,
        max_iterations <= MAX_ITERATIONS_LIMIT,
    ensures
        r == spec_solve(world.planes@, *collider, position, velocity, dt, max_iterations),
        r.casts <= max_iterations,
        bounded3(r.position, SOLVE_POS_BOUND as int),
{
    let mask = layer_mask(CollisionLayer::Terrain);
    let rv0 = velocity.scale_fx(dt);
    let mut rem = rv0.length();
    proof {
        lemma_len3_bound(rv0, VEL_LIMIT as int);
    }
    let ghost rem0 = rem as int;
    let inflated = inflated_collider(collider, -EPSILON);
    let mut pos = position;
    let mut rv = rv0;
    let mut casts: usize = 0;
    let mut i: usize = 0;
    let mut done: bool = false;
    let mut outcome = SolveOutcome::Sliding;
    while i < max_iterations && rem > 0 && !done
        invariant
            world.wf(),
            inflated == collider.spec_inflate(-EPSILON as int),
            inflated.wf(),
            mask == spec_layer_mask(CollisionLayer::Terrain),
            0 <= rem0 <= 2 * VEL_LIMIT,
            i <= max_iterations,
            max_iterations <= MAX_ITERATIONS_LIMIT,
            rem <= rem0,
            -(rem0 + 5 * EPSILON) <= rem,
            rem > 0 ==> spec_len3(rv) <= rem,
            rem > 0 ==> bounded3(rv, rem as int),
            !done ==> casts == i,
            done ==> casts <= max_iterations,
            !done ==> bounded3(pos, POS_LIMIT + rem0 - rem),
            done ==> bounded3(pos, SOLVE_POS_BOUND as int),
            !done ==> spec_slide(
                world.planes@,
                inflated,
                position,
                rv0,
                rem0 as i64,
                max_iterations,
                0,
                mask,
            ) == spec_slide(
                world.planes@,
                inflated,
                pos,
                rv,
                rem,
                (max_iterations - i) as usize,
                casts,
                mask,
            ),
            done ==> spec_slide(
                world.planes@,
                inflated,
                position,
                rv0,
                rem0 as i64,
                max_iterations,
                0,
                mask,
            ) == (SolveResult { position: pos, outcome, casts }),
            rv0 == spec_scale_div(velocity, dt as int, ONE as int),
            rem0 == spec_len3(rv0),
        decreases max_iterations - i, (if done { 0int } else { 1int }),
    {
        let len = rv.length();
        if len == 0 {
            outcome = SolveOutcome::Degenerate;
            done = true;
        } else {
            let cast = cast_shape(world, &inflated, pos, rv, len + EPSILON, mask);
            casts = casts + 1;
            match cast {
                Option::None => {
                    pos = pos.plus(rv);
                    outcome = SolveOutcome::FreeMove;
                    done = true;
                },
                Option::Some(hit) => {
                    proof {
                        crate::world::lemma_cast_props(
                            world.planes@,
                            inflated,
                            pos,
                            rv,
                            len + EPSILON,
                            mask,
                        );
                        let sc = spec_cast(
                            world.planes@,
                            inflated,
                            pos,
                            rv,
                            len + EPSILON,
                            mask,
                        );
                        let b = sc->Some_0;
                        assert(world.planes@[b.1].wf());
                        assert(hit.normal == world.planes@[b.1].normal);
                    }
                    let moved = rv.scale_div(hit.distance, len);
                    let contact = pos.plus(moved);
                    let nudge = hit.normal.scale_fx(EPSILON);
                    let new_pos = contact.plus(nudge);
                    let delta = new_pos.minus(pos);
                    let traveled = delta.length();
                    proof {
                        lemma_len3_bound(delta, rem + 2 * EPSILON);
                    }
                    rem = rem - traveled;
                    let rescaled = rv.scale_div(rem, len);
                    let rejected = rescaled.reject_from(hit.normal);
                    let cap = if rem > 0 {
                        rem
                    } else {
                        0
                    };
                    rv = rejected.clamp_length(cap);
                    proof {
                        crate::vec3::lemma_len_dominates_components(rv);
                    }
                    pos = new_pos;
                    i = i + 1;
                },
            }
        }
    }
    if done {
        SolveResult { position: pos, outcome, casts }
    } else if rem <= 0 {
        SolveResult { position: pos, outcome: SolveOutcome::Sliding, casts }
    } else {
        SolveResult { position: pos, outcome: SolveOutcome::OutOfBudget, casts }
    }
}

} // verus!
