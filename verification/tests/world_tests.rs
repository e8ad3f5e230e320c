use character_controller::collider::{distance_from_center_to_hull, inflated_collider, Collider};
use character_controller::fixed::ONE;
use character_controller::vec3::Vec3;
use character_controller::world::{
    cast_shape, layer_mask, support_cast, CollisionLayer, Plane, World,
};

fn terrain_plane(normal: Vec3, offset: i64) -> Plane {
    Plane::new(normal, offset, CollisionLayer::Terrain)
}

fn flat_floor() -> World {
    let mut world = World::new();
    world.push_plane(terrain_plane(Vec3 { x: 0, y: ONE, z: 0 }, 0));
    world
}

#[test]
fn layer_masks_are_distinct_bits() {
    assert_eq!(layer_mask(CollisionLayer::Default), 1);
    assert_eq!(layer_mask(CollisionLayer::Player), 2);
    assert_eq!(layer_mask(CollisionLayer::Terrain), 4);
}

#[test]
fn inflate_sphere_changes_radius() {
    let c = Collider::Sphere { radius: 200_000 };
    assert_eq!(inflated_collider(&c, -100), Collider::Sphere { radius: 199_900 });
    assert_eq!(inflated_collider(&c, 50_000), Collider::Sphere { radius: 250_000 });
}

#[test]
fn inflate_capsule_keeps_segment_and_grows_extent() {
    // A capsule of radius 0.3 and segment 1.3: the inclusive end-to-end
    // extent is 1.9; inflation moves the radius and the extent together,
    // which leaves the segment height itself unchanged.
    let c = Collider::Capsule { radius: 300_000, height: 1_300_000 };
    let shrunk = inflated_collider(&c, -100);
    assert_eq!(shrunk, Collider::Capsule { radius: 299_900, height: 1_300_000 });
    let grown = inflated_collider(&c, 10_000);
    assert_eq!(grown, Collider::Capsule { radius: 310_000, height: 1_300_000 });
}

#[test]
fn support_reach_of_sphere_and_capsule() {
    let up = Vec3 { x: 0, y: ONE, z: 0 };
    let side = Vec3 { x: ONE, y: 0, z: 0 };
    let sphere = Collider::Sphere { radius: 200_000 };
    assert_eq!(support_cast(&sphere, up, ONE), 200_000 * ONE);
    let capsule = Collider::Capsule { radius: 300_000, height: 1_300_000 };
    // Toward a floor the capsule reaches radius plus half its segment.
    assert_eq!(support_cast(&capsule, up, ONE), 300_000 * ONE + 650_000 * ONE);
    // Toward a wall only the radius counts.
    assert_eq!(support_cast(&capsule, side, ONE), 300_000 * ONE);
}

#[test]
fn hull_distance_of_sphere_is_its_radius() {
    let sphere = Collider::Sphere { radius: 200_000 };
    let dir = Vec3 { x: 123, y: 456, z: 789 };
    assert_eq!(distance_from_center_to_hull(&sphere, dir), 200_000);
}

#[test]
fn hull_distance_of_capsule_by_direction() {
    let capsule = Collider::Capsule { radius: 300_000, height: 1_300_000 };
    // Straight up: half the segment plus the radius.
    assert_eq!(distance_from_center_to_hull(&capsule, Vec3 { x: 0, y: ONE, z: 0 }), 950_000);
    // Sideways: just the radius.
    assert_eq!(distance_from_center_to_hull(&capsule, Vec3 { x: ONE, y: 0, z: 0 }), 300_000);
    // At forty-five degrees the ray leaves through the cylindrical side.
    assert_eq!(
        distance_from_center_to_hull(&capsule, Vec3 { x: 707_107, y: 707_107, z: 0 }),
        424_263
    );
    // A shallow diagonal still leaves through the cylindrical side.
    assert_eq!(
        distance_from_center_to_hull(&capsule, Vec3 { x: ONE, y: ONE, z: ONE }),
        367_423
    );
    // A steep diagonal leaves through an end cap, downward the same way.
    assert_eq!(
        distance_from_center_to_hull(&capsule, Vec3 { x: 100_000, y: ONE, z: 100_000 }),
        929_455
    );
    assert_eq!(
        distance_from_center_to_hull(&capsule, Vec3 { x: 100_000, y: -ONE, z: 100_000 }),
        929_455
    );
}

#[test]
fn cast_hits_floor_at_exact_distance() {
    let world = flat_floor();
    let shape = Collider::Sphere { radius: 199_900 };
    let origin = Vec3 { x: 0, y: 450_000, z: 0 };
    let down = Vec3 { x: 0, y: -ONE, z: 0 };
    let hit = cast_shape(&world, &shape, origin, down, 300_000, 4).unwrap();
    // Center travels until it stands one shrunk radius above the floor.
    assert_eq!(hit.distance, 250_100);
    assert_eq!(hit.normal, Vec3 { x: 0, y: ONE, z: 0 });
}

#[test]
fn cast_misses_beyond_max_distance() {
    let world = flat_floor();
    let shape = Collider::Sphere { radius: 199_900 };
    let origin = Vec3 { x: 0, y: 450_000, z: 0 };
    let down = Vec3 { x: 0, y: -ONE, z: 0 };
    assert!(cast_shape(&world, &shape, origin, down, 250_099, 4).is_none());
}

#[test]
fn cast_reports_zero_when_already_touching() {
    let world = flat_floor();
    let shape = Collider::Sphere { radius: 199_900 };
    let origin = Vec3 { x: 0, y: 100_000, z: 0 };
    let down = Vec3 { x: 0, y: -ONE, z: 0 };
    let hit = cast_shape(&world, &shape, origin, down, 1_000, 4).unwrap();
    assert_eq!(hit.distance, 0);
}

#[test]
fn cast_ignores_surfaces_moving_away_from() {
    let world = flat_floor();
    let shape = Collider::Sphere { radius: 199_900 };
    let origin = Vec3 { x: 0, y: 100_000, z: 0 };
    let upward = Vec3 { x: 0, y: ONE, z: 0 };
    assert!(cast_shape(&world, &shape, origin, upward, 1_000_000, 4).is_none());
}

#[test]
fn cast_respects_layer_filter() {
    let mut world = World::new();
    world.push_plane(Plane::new(Vec3 { x: 0, y: ONE, z: 0 }, 0, CollisionLayer::Default));
    let shape = Collider::Sphere { radius: 199_900 };
    let origin = Vec3 { x: 0, y: 450_000, z: 0 };
    let down = Vec3 { x: 0, y: -ONE, z: 0 };
    // The only surface below is not terrain, so a terrain-filtered cast
    // passes through it.
    assert!(cast_shape(&world, &shape, origin, down, 300_000, 4).is_none());
    assert!(cast_shape(&world, &shape, origin, down, 300_000, 1).is_some());
}

#[test]
fn cast_returns_nearest_of_two_surfaces() {
    let mut world = World::new();
    // A floor at height zero and another a unit lower.
    world.push_plane(terrain_plane(Vec3 { x: 0, y: ONE, z: 0 }, -(ONE as i64) * ONE));
    world.push_plane(terrain_plane(Vec3 { x: 0, y: ONE, z: 0 }, 0));
    let shape = Collider::Sphere { radius: 199_900 };
    let origin = Vec3 { x: 0, y: 450_000, z: 0 };
    let down = Vec3 { x: 0, y: -ONE, z: 0 };
    let hit = cast_shape(&world, &shape, origin, down, 2_000_000, 4).unwrap();
    assert_eq!(hit.distance, 250_100);
}
