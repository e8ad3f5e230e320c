use character_controller::collider::Collider;
use character_controller::fixed::ONE;
use character_controller::ground::{classify, snap_to_floor, walkable};
use character_controller::solver::{solve, SolveOutcome};
use character_controller::vec3::Vec3;
use character_controller::world::{CollisionLayer, Plane, World};

const DT: i64 = 16_667;
const COS_SQ_45: i64 = 500_000;

fn terrain(normal: Vec3, offset: i64) -> Plane {
    Plane::new(normal, offset, CollisionLayer::Terrain)
}

fn flat_floor() -> World {
    let mut world = World::new();
    world.push_plane(terrain(Vec3 { x: 0, y: ONE, z: 0 }, 0));
    world
}

fn body() -> Collider {
    Collider::Sphere { radius: 200_000 }
}

#[test]
fn resting_on_floor_stays_and_grounds() {
    // A body resting on a flat floor, pressed down by gravity-scale
    // velocity for one tick: the solver leaves it exactly at floor height
    // and the classifier grounds it.
    let world = flat_floor();
    let position = Vec3 { x: 0, y: 200_000, z: 0 };
    let velocity = Vec3 { x: 0, y: -5_000_000, z: 0 };
    let r = solve(&world, &body(), position, velocity, DT, 8);
    assert_eq!(r.position, Vec3 { x: 0, y: 200_000, z: 0 });
    assert_eq!(r.outcome, SolveOutcome::Degenerate);
    assert_eq!(r.casts, 1);
    let (grounded, normal) = classify(&world, &body(), r.position, 100_000, COS_SQ_45);
    assert!(grounded);
    assert_eq!(normal, Some(Vec3 { x: 0, y: ONE, z: 0 }));
}

#[test]
fn wall_stops_head_on_motion() {
    // A body approaching a wall head on stops at the wall surface minus
    // the skin gap and its motion is fully rejected, not passed through.
    let mut world = World::new();
    world.push_plane(terrain(Vec3 { x: ONE, y: 0, z: 0 }, 0));
    let position = Vec3 { x: 250_000, y: 0, z: 0 };
    let velocity = Vec3 { x: -5_000_000, y: 0, z: 0 };
    let r = solve(&world, &body(), position, velocity, DT, 8);
    assert_eq!(r.position, Vec3 { x: 200_000, y: 0, z: 0 });
    assert_eq!(r.outcome, SolveOutcome::Degenerate);
    assert_eq!(r.casts, 1);
}

#[test]
fn steep_slope_contact_is_not_grounded() {
    // A body in probe range of a sixty-degree slope: contact is found but
    // the surface is steeper than the forty-five degree limit, so the
    // classifier refuses to ground the body.
    let mut world = World::new();
    world.push_plane(terrain(Vec3 { x: 866_025, y: 500_000, z: 0 }, 0));
    let position = Vec3 { x: 0, y: 450_000, z: 0 };
    let (grounded, normal) = classify(&world, &body(), position, 100_000, COS_SQ_45);
    assert!(!grounded);
    assert_eq!(normal, Some(Vec3 { x: 866_025, y: 500_000, z: 0 }));
}

#[test]
fn corner_stops_diagonal_motion_in_two_casts() {
    // A body moving diagonally into a corner of two perpendicular walls:
    // the first contact cancels one axis, the second the other, and the
    // body stops at the corner with the skin gap on both walls.
    let mut world = World::new();
    world.push_plane(terrain(Vec3 { x: ONE, y: 0, z: 0 }, 0));
    world.push_plane(terrain(Vec3 { x: 0, y: 0, z: ONE }, 0));
    let position = Vec3 { x: 250_000, y: 0, z: 250_000 };
    let velocity = Vec3 { x: -5_000_000, y: 0, z: -5_000_000 };
    let r = solve(&world, &body(), position, velocity, DT, 8);
    assert_eq!(r.position, Vec3 { x: 200_001, y: 0, z: 200_000 });
    assert_eq!(r.outcome, SolveOutcome::Degenerate);
    assert_eq!(r.casts, 2);
}

#[test]
fn free_path_moves_by_exact_velocity_step() {
    // No obstruction within the step: the solver advances by exactly the
    // velocity scaled by the timestep, in one cast.
    let world = flat_floor();
    let position = Vec3 { x: 0, y: 5_000_000, z: 0 };
    let velocity = Vec3 { x: 3_000_000, y: -2_000_000, z: 1_000_000 };
    let r = solve(&world, &body(), position, velocity, DT, 8);
    assert_eq!(r.position, Vec3 { x: 50_001, y: 4_966_666, z: 16_667 });
    assert_eq!(r.outcome, SolveOutcome::FreeMove);
    assert_eq!(r.casts, 1);
}

#[test]
fn zero_velocity_is_a_no_op() {
    let world = flat_floor();
    let position = Vec3 { x: 123, y: 456_789, z: -321 };
    let velocity = Vec3 { x: 0, y: 0, z: 0 };
    let r = solve(&world, &body(), position, velocity, DT, 8);
    assert_eq!(r.position, position);
    assert_eq!(r.casts, 0);
}

#[test]
fn exhausted_budget_stops_where_it_is() {
    let world = flat_floor();
    let position = Vec3 { x: 0, y: 5_000_000, z: 0 };
    let velocity = Vec3 { x: 1_000_000, y: 0, z: 0 };
    let r = solve(&world, &body(), position, velocity, DT, 0);
    assert_eq!(r.position, position);
    assert_eq!(r.outcome, SolveOutcome::OutOfBudget);
    assert_eq!(r.casts, 0);
}

#[test]
fn solver_never_exceeds_cast_budget() {
    // A wedge of surfaces with motion into it: whatever happens inside,
    // the number of casts stays within the budget.
    let mut world = World::new();
    world.push_plane(terrain(Vec3 { x: ONE, y: 0, z: 0 }, 0));
    world.push_plane(terrain(Vec3 { x: 0, y: ONE, z: 0 }, 0));
    world.push_plane(terrain(Vec3 { x: 0, y: 0, z: ONE }, 0));
    let position = Vec3 { x: 250_000, y: 250_000, z: 250_000 };
    let velocity = Vec3 { x: -4_000_000, y: -4_000_000, z: -4_000_000 };
    for budget in 0..5usize {
        let r = solve(&world, &body(), position, velocity, DT, budget);
        assert!(r.casts <= budget);
    }
}

#[test]
fn widening_probe_only_turns_grounded_on() {
    // The body hangs 0.2 above the floor surface: a short probe misses,
    // a longer probe grounds it, never the other way around.
    let world = flat_floor();
    let position = Vec3 { x: 0, y: 400_000, z: 0 };
    let (short, none) = classify(&world, &body(), position, 50_000, COS_SQ_45);
    assert!(!short);
    assert_eq!(none, None);
    let (long, normal) = classify(&world, &body(), position, 300_000, COS_SQ_45);
    assert!(long);
    assert_eq!(normal, Some(Vec3 { x: 0, y: ONE, z: 0 }));
}

#[test]
fn walkable_threshold_is_exact() {
    // A 3-4-5 normal leaning 36.87 degrees is walkable under a 45 degree
    // limit; leaning 53.13 degrees it is not; a ceiling never is.
    assert!(walkable(Vec3 { x: 600_000, y: 800_000, z: 0 }, COS_SQ_45));
    assert!(!walkable(Vec3 { x: 800_000, y: 600_000, z: 0 }, COS_SQ_45));
    assert!(walkable(Vec3 { x: 0, y: ONE, z: 0 }, COS_SQ_45));
    assert!(!walkable(Vec3 { x: 0, y: -ONE, z: 0 }, COS_SQ_45));
}

#[test]
fn snap_pulls_body_down_onto_floor() {
    let world = flat_floor();
    let position = Vec3 { x: 0, y: 250_000, z: 0 };
    let snapped = snap_to_floor(&world, &body(), position, 0, true, 100_000, COS_SQ_45);
    assert_eq!(snapped, Vec3 { x: 0, y: 200_000, z: 0 });
}

#[test]
fn snap_refuses_steep_ground_and_upward_motion() {
    let mut steep = World::new();
    steep.push_plane(terrain(Vec3 { x: 866_025, y: 500_000, z: 0 }, 0));
    let position = Vec3 { x: 0, y: 450_000, z: 0 };
    let unchanged = snap_to_floor(&steep, &body(), position, 0, true, 100_000, COS_SQ_45);
    assert_eq!(unchanged, position);
    let flat = flat_floor();
    let hover = Vec3 { x: 0, y: 250_000, z: 0 };
    let rising = snap_to_floor(&flat, &body(), hover, 1_000, true, 100_000, COS_SQ_45);
    assert_eq!(rising, hover);
    let disabled = snap_to_floor(&flat, &body(), hover, 0, false, 100_000, COS_SQ_45);
    assert_eq!(disabled, hover);
}

#[test]
fn containment_holds_after_a_slide_across_the_floor() {
    // Sliding along the floor while pressed into it: wherever the solver
    // puts the body, the uninflated collider overlaps the floor by no
    // more than the skin margin (checked via a zero-distance probe of the
    // uninflated collider placed at the result).
    let world = flat_floor();
    let position = Vec3 { x: 0, y: 200_000, z: 0 };
    let velocity = Vec3 { x: 4_000_000, y: -3_000_000, z: 0 };
    let r = solve(&world, &body(), position, velocity, DT, 8);
    // The floor plane has a unit normal, so clearance is measured in
    // micro-units times ONE: the center stays no deeper than the radius
    // minus the skin margin and a per-cast rounding slack.
    let clearance = (ONE as i128) * (r.position.y as i128);
    let radius_reach = (200_000i128) * (ONE as i128);
    let slack = (100i128) * (ONE as i128) + (r.casts as i128) * 303_000_000;
    assert!(clearance >= radius_reach - slack);
    assert!(r.position.x > 0);
    // Re-cast a zero-distance overlap query with a collider shrunk by
    // twice the skin margin: no overlap is found, so the body penetrates
    // the floor by well under the skin margin.
    let shrunk = character_controller::collider::inflated_collider(&body(), -200);
    let down = Vec3 { x: 0, y: -ONE, z: 0 };
    let overlap =
        character_controller::world::cast_shape(&world, &shrunk, r.position, down, 0, 4);
    assert!(overlap.is_none());
}
