//! The static collision world and the shape cast over it.
//!
//! Terrain is a set of planar surfaces.  A plane holds a roughly unit
//! normal (micro-scaled), the offset of its surface along that normal, and
//! the collision layer it belongs to.  A shape cast sweeps a collider from
//! an origin along a motion vector and reports the nearest surface the
//! collider would touch: the contact parameter is measured in micro-units
//! along the motion's direction, exactly as [`spec_cast`] defines it.

use vstd::prelude::*;
use crate::collider::Collider;
use crate::fixed::{mag, spec_isqrt, ONE, MAX_FIX};
use crate::fixed::{lemma_isqrt_mono, lemma_isqrt_unique, lemma_mag_mul_bound};
use crate::vec3::{Vec3, bounded3, spec_dot, spec_len3, NORMAL_SQ_MIN};

verus! {

/// Largest plane offset accepted, in squared micro-units: the product of
/// a coordinate bound and a normal length fits well below it.
pub const OFFSET_MAX: i64 = 4_000_000_000_000_000;

/// Partition of world geometry into collision categories.  Casts made by
/// the movement solver are filtered to the terrain category, so bodies
/// never collide with themselves or with other dynamic agents.
#[derive(Clone, Copy, Debug, PartialEq, Eq, Structural)]
pub enum CollisionLayer {
    Default,
    Player,
    Terrain,
}

/// The bit a collision layer occupies in a filter mask.
pub open spec fn spec_layer_mask(layer: CollisionLayer) -> u32 {
    match layer {
        CollisionLayer::Default => 1u32,
        CollisionLayer::Player => 2u32,
        CollisionLayer::Terrain => 4u32,
    }
}

/// The bit a collision layer occupies in a filter mask.
pub fn layer_mask(layer: CollisionLayer) -> (r: u32)
    ensures
        r == spec_layer_mask(layer),
{
    match layer {
        CollisionLayer::Default => 1u32,
        CollisionLayer::Player => 2u32,
        CollisionLayer::Terrain => 4u32,
    }
}

/// Whether a layer passes a filter mask.
pub open spec fn layer_in_mask(layer: CollisionLayer, mask: u32) -> bool {
    spec_layer_mask(layer) & mask != 0
}

/// A planar terrain surface: the points `x` with `dot(normal, x) == offset`,
/// solid on the side the normal points away from.
#[derive(Clone, Copy, Debug, PartialEq, Eq, Structural)]
pub struct Plane {
    /// Surface normal, pointing into free space; roughly unit length.
    pub normal: Vec3,
    /// Position of the surface along the normal, in squared micro-units.
    pub offset: i64,
    /// Cached length of `normal`, kept equal to `spec_len3(normal)`.
    pub normal_len: i64,
    /// Collision category of this surface.
    pub layer: CollisionLayer,
}

impl Plane {
    /// A plane is well formed when its normal is within ten percent of
    /// unit length, the cached length is the normal's true rounded length,
    /// and the offset is in range.
    pub open spec fn wf(self) -> bool {
        &&& bounded3(self.normal, ONE as int)
        &&& spec_dot(self.normal, self.normal) >= NORMAL_SQ_MIN
        &&& self.normal_len == spec_len3(self.normal)
        &&& mag(self.offset as int) <= OFFSET_MAX
    }

    /// Builds a plane from a normal, an offset and a layer, caching the
    /// normal's length.
    pub fn new(normal: Vec3, offset: i64, layer: CollisionLayer) -> (r: Plane)
        requires
            bounded3(normal, ONE as int),
            spec_dot(normal, normal) >= NORMAL_SQ_MIN,
            mag(offset as int) <= OFFSET_MAX,
        ensures
            r.wf(),
            r.normal == normal,
            r.offset == offset,
            r.layer == layer,
    {
        let normal_len = normal.length();
        Plane { normal, offset, normal_len, layer }
    }

    /// Signed clearance of a point from the plane, in squared micro-units:
    /// positive on the free side, scaled by the normal's length.
    pub open spec fn spec_clearance(self, p: Vec3) -> int {
        spec_dot(self.normal, p) - self.offset
    }
}

/// The static collision world: a set of planar surfaces.
pub struct World {
    pub planes: Vec<Plane>,
}

impl World {
    /// Every plane of the world is well formed.
    pub open spec fn wf(self) -> bool {
        forall|i: int| 0 <= i < self.planes@.len() ==> #[trigger] self.planes@[i].wf()
    }

    /// An empty world with no terrain.
    pub fn new() -> (r: World)
        ensures
            r.wf(),
            r.planes@.len() == 0,
    {
        World { planes: Vec::new() }
    }

    /// Adds a terrain surface to the world.
    pub fn push_plane(&mut self, plane: Plane)
        requires
            old(self).wf(),
            plane.wf(),
        ensures
            final(self).wf(),
            final(self).planes@ == old(self).planes@.push(plane),
    {
        self.planes.push(plane);
    }
}

/// The nearest contact a shape cast found: how far the collider traveled
/// along the cast direction before touching, in micro-units, and the
/// contact surface's normal, pointing away from the surface.
#[derive(Clone, Copy, Debug, PartialEq, Eq, Structural)]
pub struct CastHit {
    pub distance: i64,
    pub normal: Vec3,
}

/// Contact parameter of one plane for a collider swept from `origin`
/// along `motion` (of length `len_m`): `None` when the motion points away
/// from or parallel to the surface; zero when the collider already
/// touches or penetrates it; otherwise the rounded-down travel distance,
/// in micro-units along the motion's direction, at which the collider
/// first touches the surface.
pub open spec fn spec_hit_t(
    plane: Plane,
    shape: Collider,
    origin: Vec3,
    motion: Vec3,
    len_m: int,
) -> Option<int> {
    let dd = spec_dot(plane.normal, motion);
    if dd >= 0 {
        None
    } else {
        let gap = plane.spec_clearance(origin) - shape.spec_support(plane.normal, plane.normal_len as int);
        if gap <= 0 {
            Some(0)
        } else {
            Some(gap * len_m / (-dd))
        }
    }
}

/// Walks the planes from index `i`, keeping the earliest nearest contact
/// seen so far in `acc` as a pair of contact parameter and plane index.
pub open spec fn spec_cast_loop(
    planes: Seq<Plane>,
    shape: Collider,
    origin: Vec3,
    motion: Vec3,
    len_m: int,
    mask: u32,
    i: int,
    acc: Option<(int, int)>,
) -> Option<(int, int)>
    decreases planes.len() - i,
{
    if i < 0 || i >= planes.len() {
        acc
    } else {
        let step = if layer_in_mask(planes[i].layer, mask) {
            match spec_hit_t(planes[i], shape, origin, motion, len_m) {
                Option::None => acc,
                Option::Some(t) => match acc {
                    Option::None => Option::Some((t, i)),
                    Option::Some(b) => if t < b.0 {
                        Option::Some((t, i))
                    } else {
                        acc
                    },
                },
            }
        } else {
            acc
        };
        spec_cast_loop(planes, shape, origin, motion, len_m, mask, i + 1, step)
    }
}

/// The nearest contact of a shape cast, if it lies within `max_distance`:
/// the first plane, in world order, whose contact parameter is minimal.
pub open spec fn spec_cast(
    planes: Seq<Plane>,
    shape: Collider,
    origin: Vec3,
    motion: Vec3,
    max_distance: int,
    mask: u32,
) -> Option<(int, int)> {
    let len_m = spec_len3(motion);
    match spec_cast_loop(planes, shape, origin, motion, len_m, mask, 0, Option::None) {
        Option::None => Option::None,
        Option::Some(b) => if b.0 <= max_distance {
            Option::Some(b)
        } else {
            Option::None
        },
    }
}

/// A contact parameter is never negative.
pub proof fn lemma_hit_t_nonneg(plane: Plane, shape: Collider, origin: Vec3, motion: Vec3, len_m: int)
    requires
        len_m >= 0,
    ensures
        spec_hit_t(plane, shape, origin, motion, len_m) matches Option::Some(t) ==> t >= 0,
{
    let dd = spec_dot(plane.normal, motion);
    if dd < 0 {
        let gap = plane.spec_clearance(origin) - shape.spec_support(
            plane.normal,
            plane.normal_len as int,
        );
        if gap > 0 {
            assert(gap * len_m >= 0) by (nonlinear_arith)
                requires
                    gap > 0,
                    len_m >= 0,
            ;
            vstd::arithmetic::div_mod::lemma_div_pos_is_pos(gap * len_m, -dd);
        }
    }
}

/// What the running minimum of [`spec_cast_loop`] guarantees: its result
/// is the accumulator or an actual contact at or past index `i`, and it is
/// at most every contact at or past `i` as well as the accumulator.
pub proof fn lemma_cast_loop_props(
    planes: Seq<Plane>,
    shape: Collider,
    origin: Vec3,
    motion: Vec3,
    len_m: int,
    mask: u32,
    i: int,
    acc: Option<(int, int)>,
)
    requires
        0 <= i <= planes.len(),
    ensures
        ({
            let r = spec_cast_loop(planes, shape, origin, motion, len_m, mask, i, acc);
            &&& (r is None ==> acc is None)
            &&& (r is None ==> forall|j: int|
                i <= j < planes.len() && layer_in_mask(#[trigger] planes[j].layer, mask)
                    ==> spec_hit_t(planes[j], shape, origin, motion, len_m) is None)
            &&& (r matches Option::Some(b) ==> acc == Option::Some(b) || (i <= b.1
                < planes.len() && layer_in_mask(planes[b.1].layer, mask) && spec_hit_t(
                planes[b.1],
                shape,
                origin,
                motion,
                len_m,
            ) == Option::Some(b.0)))
            &&& (r matches Option::Some(b) ==> forall|j: int|
                i <= j < planes.len() && layer_in_mask(#[trigger] planes[j].layer, mask)
                    && spec_hit_t(planes[j], shape, origin, motion, len_m) is Some ==> b.0
                    <= spec_hit_t(planes[j], shape, origin, motion, len_m)->Some_0)
            &&& (acc matches Option::Some(a) ==> r matches Option::Some(b) && b.0 <= a.0)
        }),
    decreases planes.len() - i,
{
    if i < planes.len() {
        let step = if layer_in_mask(planes[i].layer, mask) {
            match spec_hit_t(planes[i], shape, origin, motion, len_m) {
                Option::None => acc,
                Option::Some(t) => match acc {
                    Option::None => Option::Some((t, i)),
                    Option::Some(b) => if t < b.0 {
                        Option::Some((t, i))
                    } else {
                        acc
                    },
                },
            }
        } else {
            acc
        };
        lemma_cast_loop_props(planes, shape, origin, motion, len_m, mask, i + 1, step);
    }
}

/// What a whole cast guarantees: a reported contact really is the contact
/// of a filtered plane, lies within the requested distance, and no
/// filtered plane has an earlier contact; an empty answer means every
/// filtered contact lies beyond the requested distance.
pub proof fn lemma_cast_props(
    planes: Seq<Plane>,
    shape: Collider,
    origin: Vec3,
    motion: Vec3,
    max_distance: int,
    mask: u32,
)
    ensures
        ({
            let len_m = spec_len3(motion);
            let r = spec_cast(planes, shape, origin, motion, max_distance, mask);
            &&& (r matches Option::Some(b) ==> {
                &&& 0 <= b.1 < planes.len()
                &&& layer_in_mask(planes[b.1].layer, mask)
                &&& spec_hit_t(planes[b.1], shape, origin, motion, len_m) == Option::Some(b.0)
                &&& 0 <= b.0 <= max_distance
                &&& forall|j: int|
                    0 <= j < planes.len() && layer_in_mask(#[trigger] planes[j].layer, mask)
                        && spec_hit_t(planes[j], shape, origin, motion, len_m) is Some ==> b.0
                        <= spec_hit_t(planes[j], shape, origin, motion, len_m)->Some_0
            })
            &&& (r is None ==> forall|j: int|
                0 <= j < planes.len() && layer_in_mask(#[trigger] planes[j].layer, mask)
                    && spec_hit_t(planes[j], shape, origin, motion, len_m) is Some
                    ==> spec_hit_t(planes[j], shape, origin, motion, len_m)->Some_0
                    > max_distance)
        }),
{
    let len_m = spec_len3(motion);
    crate::fixed::lemma_isqrt_nonneg(spec_dot(motion, motion));
    lemma_cast_loop_props(planes, shape, origin, motion, len_m, mask, 0, Option::None);
    let lr = spec_cast_loop(planes, shape, origin, motion, len_m, mask, 0, Option::None);
    if lr is Some {
        let b = lr->Some_0;
        lemma_hit_t_nonneg(planes[b.1], shape, origin, motion, len_m);
    }
}

/// Widening the requested distance never hides a contact: a cast that
/// reports a hit keeps reporting the same hit for any larger distance.
pub proof fn lemma_cast_monotone(
    planes: Seq<Plane>,
    shape: Collider,
    origin: Vec3,
    motion: Vec3,
    d1: int,
    d2: int,
    mask: u32,
)
    requires
        d1 <= d2,
    ensures
        spec_cast(planes, shape, origin, motion, d1, mask) is Some ==> spec_cast(
            planes,
            shape,
            origin,
            motion,
            d2,
            mask,
        ) == spec_cast(planes, shape, origin, motion, d1, mask),
{
}

/// A roughly unit normal's rounded length stays within the root of three
/// times the squared unit scale.
pub proof fn lemma_normal_len_bound(n: Vec3)
    requires
        bounded3(n, ONE as int),
    ensures
        0 <= spec_len3(n) <= 1_732_051,
{
    assert(0 <= n.x * n.x <= 1_000_000_000_000 && 0 <= n.y * n.y <= 1_000_000_000_000 && 0 <= n.z
        * n.z <= 1_000_000_000_000) by (nonlinear_arith)
        requires
            mag(n.x as int) <= 1_000_000,
            mag(n.y as int) <= 1_000_000,
            mag(n.z as int) <= 1_000_000,
    ;
    crate::fixed::lemma_isqrt_bounds(spec_dot(n, n));
    lemma_isqrt_mono(spec_dot(n, n), 3_000_000_000_000);
    assert(spec_isqrt(3_000_000_000_000) == 1_732_050) by {
        assert(1_732_050 * 1_732_050 <= 3_000_000_000_000 < 1_732_051 * 1_732_051)
            by (nonlinear_arith);
        lemma_isqrt_unique(3_000_000_000_000, 1_732_050);
    }
}

/// Support reach of a collider toward a plane normal, as
/// [`Collider::spec_support`] defines it.
pub fn support_cast(shape: &Collider, n: Vec3, len_n: i64) -> (r: i64)
    requires
        shape.wf(),
        bounded3(n, ONE as int),
        0 <= len_n <= 1_732_051,
    ensures
        r == shape.spec_support(n, len_n as int),
        0 <= r <= 300_000_000_000_000,
{
    match shape {
        Collider::Sphere { radius } => {
            proof {
                lemma_mag_mul_bound(*radius as int, len_n as int, crate::collider::SHAPE_MAX as int, 1_732_051);
                assert((*radius) * len_n >= 0) by (nonlinear_arith)
                    requires
                        *radius >= 0,
                        len_n >= 0,
                ;
            }
            radius * len_n
        },
        Collider::Capsule { radius, height } => {
            proof {
                lemma_mag_mul_bound(*radius as int, len_n as int, crate::collider::SHAPE_MAX as int, 1_732_051);
                assert((*radius) * len_n >= 0) by (nonlinear_arith)
                    requires
                        *radius >= 0,
                        len_n >= 0,
                ;
                lemma_mag_mul_bound((*height as int) / 2, mag(n.y as int), crate::collider::SHAPE_MAX as int, ONE as int);
                assert(((*height / 2) as int) * (if n.y < 0 { -(n.y as int) } else { n.y as int }) == ((*height as int) / 2) * mag(n.y as int));
                assert(((*height as int) / 2) * mag(n.y as int) >= 0) by (nonlinear_arith)
                    requires
                        (*height as int) / 2 >= 0,
                        mag(n.y as int) >= 0,
                ;
            }
            let half = height / 2;
            let ny_mag = if n.y < 0 {
                -n.y
            } else {
                n.y
            };
            radius * len_n + half * ny_mag
        },
    }
}

/// Sweeps `shape` from `origin` along `motion` for at most `max_distance`
/// micro-units and returns the nearest contact with a surface whose layer
/// passes `mask`, exactly as [`spec_cast`] determines it.  `None` means
/// the whole requested path is free of obstruction.
pub fn cast_shape(
    world: &World,
    shape: &Collider,
    origin: Vec3,
    motion: Vec3,
    max_distance: i64,
    mask: u32,
) -> (r: Option<CastHit>)
    requires
        world.wf(),
        shape.wf(),
        bounded3(origin, MAX_FIX as int),
        bounded3(motion, MAX_FIX as int),
        0 <= max_distance <= 2 * MAX_FIX,
    ensures
        ({
            let sc = spec_cast(
                world.planes@,
                *shape,
                origin,
                motion,
                max_distance as int,
                mask,
            );
            &&& (r is None <==> sc is None)
            &&& (sc matches Option::Some(b) ==> {
                &&& 0 <= b.1 < world.planes@.len()
                &&& 0 <= b.0 <= max_distance
                &&& r == Option::Some(
                    (CastHit { distance: b.0 as i64, normal: world.planes@[b.1].normal }),
                )
            })
        }),
{
    let ghost planes = world.planes@;
    let len_m = motion.length();
    let mut i: usize = 0;
    let mut have: bool = false;
    let mut best_t: i128 = 0;
    let mut best_idx: usize = 0;
    let n = world.planes.len();
    while i < n
        invariant
            world.wf(),
            shape.wf(),
            bounded3(origin, MAX_FIX as int),
            bounded3(motion, MAX_FIX as int),
            planes == world.planes@,
            n == planes.len(),
            0 <= i <= n,
            len_m == spec_len3(motion),
            0 <= len_m <= 2 * MAX_FIX,
            have ==> 0 <= best_t && (best_idx as int) < i,
            spec_cast_loop(planes, *shape, origin, motion, len_m as int, mask, 0, Option::None)
                == spec_cast_loop(
                planes,
                *shape,
                origin,
                motion,
                len_m as int,
                mask,
                i as int,
                if have {
                    Option::Some((best_t as int, best_idx as int))
                } else {
                    Option::None
                },
            ),
        decreases n - i,
    {
        let plane = world.planes[i];
        assert(plane.wf());
        if layer_mask(plane.layer) & mask != 0 {
            let dd = plane.normal.dot(motion);
            if dd < 0 {
                let c0 = plane.normal.dot(origin);
                proof {
                    lemma_normal_len_bound(plane.normal);
                }
                let support = support_cast(shape, plane.normal, plane.normal_len);
                let gap = c0 - plane.offset - support;
                let t: i128 = if gap <= 0 {
                    0
                } else {
                    proof {
                        vstd::arithmetic::div_mod::lemma_div_pos_is_pos(
                            (gap as int) * (len_m as int),
                            -(dd as int),
                        );
                        assert((gap as int) * (len_m as int) >= 0) by (nonlinear_arith)
                            requires
                                gap >= 0,
                                len_m >= 0,
                        ;
                        assert((gap as i128) * (len_m as i128) <= 0x7fff_ffff_ffff_ffff_ffff_ffff_ffff_ffff)
                            by (nonlinear_arith)
                            requires
                                0 <= gap <= i64::MAX,
                                0 <= len_m <= i64::MAX,
                        ;
                    }
                    (gap as i128) * (len_m as i128) / (-(dd as i128))
                };
                proof {
                    assert(spec_hit_t(plane, *shape, origin, motion, len_m as int) == Option::Some(
                        t as int,
                    ));
                }
                if !have || t < best_t {
                    have = true;
                    best_t = t;
                    best_idx = i;
                }
            }
        }
        i = i + 1;
    }
    if have && best_t <= max_distance as i128 {
        Some(CastHit { distance: best_t as i64, normal: world.planes[best_idx].normal })
    } else {
        None
    }
}

} // verus!
