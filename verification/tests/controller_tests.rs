use character_controller::collider::Collider;
use character_controller::controller::{
    airborne_movement, apply_gravity, clamp_length_max, collide_and_slide, grounded_movement,
    jump, length2, respond_to_ground, rotate_yaw, step, Body, KinematicCharacterBody, Player,
    Velocity,
};
use character_controller::fixed::ONE;
use character_controller::solver::CollideAndSlideMaxIterations;
use character_controller::vec3::{Vec2, Vec3};
use character_controller::world::{CollisionLayer, Plane, World};

const DT: i64 = 16_667;

fn flat_floor() -> World {
    let mut world = World::new();
    world.push_plane(Plane::new(Vec3 { x: 0, y: ONE, z: 0 }, 0, CollisionLayer::Terrain));
    world
}

fn resting_body() -> Body {
    Body {
        params: KinematicCharacterBody::default(),
        collider: Collider::Sphere { radius: 200_000 },
        position: Vec3 { x: 0, y: 200_000, z: 0 },
        velocity: Velocity(Vec3 { x: 0, y: -5_000_000, z: 0 }),
        grounded: false,
    }
}

#[test]
fn default_body_configuration() {
    let p = KinematicCharacterBody::default();
    assert_eq!(p.grounded_max_distance, 50_000);
    assert_eq!(p.max_slope_cos_sq, 500_000);
    assert!(p.snap_to_floor);
    assert_eq!(p.snap_to_floor_max_distance, 100_000);
}

#[test]
fn default_player_tuning() {
    let p = Player::default();
    assert_eq!(p.gravity, 9_810_000);
    assert_eq!(p.acceleration, 30_000_000);
    assert_eq!(p.max_speed, 7_500_000);
    assert_eq!(p.sprint_acceleration, 40_000_000);
    assert_eq!(p.sprint_max_speed, 10_000_000);
    assert_eq!(p.grounded_deceleration, 30_000_000);
    assert_eq!(p.jump_impulse, 10_000_000);
    assert_eq!(p.airborne_acceleration, 15_000_000);
}

#[test]
fn gravity_integrates_exactly() {
    let player = Player::default();
    let mut v = Velocity(Vec3 { x: 7, y: 0, z: -7 });
    apply_gravity(&player, &mut v, DT);
    assert_eq!(v.0, Vec3 { x: 7, y: -163_503, z: -7 });
}

#[test]
fn jump_only_fires_when_grounded() {
    let player = Player::default();
    let mut v = Velocity(Vec3 { x: 0, y: -100, z: 0 });
    jump(&player, &mut v, false);
    assert_eq!(v.0.y, -100);
    jump(&player, &mut v, true);
    assert_eq!(v.0.y, 9_999_900);
}

#[test]
fn grounded_input_accelerates_along_direction() {
    let player = Player::default();
    let mut v = Velocity(Vec3 { x: 0, y: 0, z: 0 });
    grounded_movement(&player, &mut v, Vec2 { x: ONE, y: 0 }, false, DT);
    assert_eq!(v.0, Vec3 { x: 500_010, y: 0, z: 0 });
}

#[test]
fn grounded_speed_clamps_at_max() {
    let player = Player::default();
    let mut v = Velocity(Vec3 { x: 7_400_000, y: -5, z: 0 });
    grounded_movement(&player, &mut v, Vec2 { x: ONE, y: 0 }, false, DT);
    assert_eq!(v.0, Vec3 { x: 7_500_000, y: -5, z: 0 });
    let mut s = Velocity(Vec3 { x: 9_900_000, y: 0, z: 0 });
    grounded_movement(&player, &mut s, Vec2 { x: ONE, y: 0 }, true, DT);
    assert_eq!(s.0, Vec3 { x: 10_000_000, y: 0, z: 0 });
}

#[test]
fn ground_friction_decelerates_toward_stop() {
    let player = Player::default();
    let mut v = Velocity(Vec3 { x: 3_000_000, y: 42, z: 4_000_000 });
    grounded_movement(&player, &mut v, Vec2 { x: 0, y: 0 }, false, DT);
    assert_eq!(v.0, Vec3 { x: 2_699_994, y: 42, z: 3_599_992 });
    let mut slow = Velocity(Vec3 { x: 100, y: 0, z: 0 });
    grounded_movement(&player, &mut slow, Vec2 { x: 0, y: 0 }, false, DT);
    assert_eq!(slow.0, Vec3 { x: 0, y: 0, z: 0 });
}

#[test]
fn airborne_steering_accelerates_and_keeps_vertical() {
    let player = Player::default();
    let mut v = Velocity(Vec3 { x: 0, y: -2_000_000, z: 0 });
    airborne_movement(&player, &mut v, Vec2 { x: 0, y: ONE }, DT);
    assert_eq!(v.0, Vec3 { x: 0, y: -2_000_000, z: 250_005 });
    let mut idle = Velocity(Vec3 { x: 123, y: -456, z: 789 });
    airborne_movement(&player, &mut idle, Vec2 { x: 0, y: 0 }, DT);
    assert_eq!(idle.0, Vec3 { x: 123, y: -456, z: 789 });
}

#[test]
fn yaw_rotation_is_exact_on_axes() {
    // A quarter turn maps forward input onto the side axis.
    let r = rotate_yaw(Vec2 { x: ONE, y: 0 }, 0, ONE);
    assert_eq!(r, Vec2 { x: 0, y: ONE });
    let back = rotate_yaw(Vec2 { x: ONE, y: 0 }, -ONE, 0);
    assert_eq!(back, Vec2 { x: -ONE, y: 0 });
}

#[test]
fn planar_length_and_clamp() {
    assert_eq!(length2(Vec2 { x: 3_000_000, y: 4_000_000 }), 5_000_000);
    let c = clamp_length_max(Vec2 { x: 3_000_000, y: 4_000_000 }, 2_500_000);
    assert_eq!(c, Vec2 { x: 1_500_000, y: 2_000_000 });
}

#[test]
fn step_moves_classifies_and_zeroes_vertical_velocity() {
    let world = flat_floor();
    let mut body = resting_body();
    let desired = Vec3 { x: 0, y: -5_000_000, z: 0 };
    let (pose, grounded) = step(&world, &mut body, desired, DT, 8);
    assert_eq!(pose, Vec3 { x: 0, y: 200_000, z: 0 });
    assert!(grounded);
    assert!(body.grounded);
    assert_eq!(body.velocity.0, Vec3 { x: 0, y: 0, z: 0 });
}

#[test]
fn solver_system_moves_each_body_independently() {
    let world = flat_floor();
    let mut bodies = vec![
        resting_body(),
        Body {
            params: KinematicCharacterBody::default(),
            collider: Collider::Sphere { radius: 200_000 },
            position: Vec3 { x: 0, y: 5_000_000, z: 0 },
            velocity: Velocity(Vec3 { x: 3_000_000, y: -2_000_000, z: 1_000_000 }),
            grounded: false,
        },
    ];
    let max_iterations = CollideAndSlideMaxIterations(8);
    collide_and_slide(&world, &mut bodies, &max_iterations, DT);
    assert_eq!(bodies[0].position, Vec3 { x: 0, y: 200_000, z: 0 });
    assert_eq!(bodies[1].position, Vec3 { x: 50_001, y: 4_966_666, z: 16_667 });
    // Velocities are untouched by the solver pass.
    assert_eq!(bodies[0].velocity.0, Vec3 { x: 0, y: -5_000_000, z: 0 });
}

#[test]
fn ground_response_grounds_and_zeroes_only_resting_bodies() {
    let world = flat_floor();
    let mut bodies = vec![
        resting_body(),
        Body {
            params: KinematicCharacterBody::default(),
            collider: Collider::Sphere { radius: 200_000 },
            position: Vec3 { x: 0, y: 5_000_000, z: 0 },
            velocity: Velocity(Vec3 { x: 1, y: -2, z: 3 }),
            grounded: false,
        },
    ];
    respond_to_ground(&world, &mut bodies);
    assert!(bodies[0].grounded);
    assert_eq!(bodies[0].velocity.0, Vec3 { x: 0, y: 0, z: 0 });
    assert!(!bodies[1].grounded);
    assert_eq!(bodies[1].velocity.0, Vec3 { x: 1, y: -2, z: 3 });
}
