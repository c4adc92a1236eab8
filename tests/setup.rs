use ants::geometry::{Vec2, SCALE};
use ants::population::{initialize, SpawnDraw, SPEED_HIGH, SPEED_LOW};
use ants::render::{ant_triangle, backdrop, collider_circle, sensing_rays, Backdrop};
use ants::settings::{clamp_simulation_speed, delta_time, steering_angle, wander_angle, Settings};
use ants::steering::{Agent, Boundary};

const S: i64 = SCALE;

#[test]
fn speed_is_clamped() {
    assert_eq!(clamp_simulation_speed(50), 100);
    assert_eq!(clamp_simulation_speed(1500), 1500);
    assert_eq!(clamp_simulation_speed(9000), 3000);
    let mut s = Settings::new();
    s.set_simulation_speed(0);
    assert_eq!(s.simulation_speed, 100);
}

#[test]
fn delta_time_dilates_and_caps() {
    let mut s = Settings::new();
    assert_eq!(delta_time(16_667, &s), 16_667);
    s.set_simulation_speed(3000);
    assert_eq!(delta_time(16_667, &s), 50_001);
    assert_eq!(delta_time(5_000_000, &s), 1_000_000);
}

#[test]
fn steering_angles() {
    assert_eq!(steering_angle(1, 1_000_000), 2_159_850);
    assert_eq!(steering_angle(-2, 1_000_000), -4_319_700);
    assert_eq!(steering_angle(5, 1_000_000), 10_000_000);
    assert_eq!(steering_angle(-5, 500_000), -5_000_000);
    assert_eq!(steering_angle(0, 16_667), 0);
}

#[test]
fn wander_angles() {
    assert_eq!(wander_angle(-500_000, 16_000), -8_000);
    assert_eq!(wander_angle(1_000_000, 1_000_000), 1_000_000);
}

#[test]
fn initial_population() {
    let b = Boundary { x_min: -100 * S, x_max: 100 * S, y_min: -50 * S, y_max: 50 * S };
    let draws = vec![
        SpawnDraw { fx: 1 << 31, fy: 1 << 31, heading: Vec2 { x: 0, y: 3 }, fs: 0 },
        SpawnDraw { fx: 0, fy: 0, heading: Vec2 { x: -2, y: 0 }, fs: 1 << 31 },
        SpawnDraw { fx: u32::MAX, fy: u32::MAX, heading: Vec2 { x: 0, y: 0 }, fs: u32::MAX },
    ];
    let agents = initialize(b, &draws);
    assert_eq!(agents.len(), 3);
    assert_eq!(agents[0], Agent { id: 0, position: Vec2 { x: 0, y: 0 }, direction: Vec2 { x: 0, y: S }, speed: SPEED_LOW });
    assert_eq!(agents[1].id, 1);
    assert_eq!(agents[1].position, Vec2 { x: -100 * S, y: -50 * S });
    assert_eq!(agents[1].direction, Vec2 { x: -S, y: 0 });
    assert_eq!(agents[1].speed, (SPEED_LOW + SPEED_HIGH) / 2);
    assert_eq!(agents[2].id, 2);
    assert!(agents[2].position.x < 100 * S && agents[2].position.y < 50 * S);
    assert_eq!(agents[2].direction, Vec2 { x: S, y: 0 });
    assert!(agents[2].speed < SPEED_HIGH);
}

#[test]
fn triangle_and_debug_shapes() {
    let a = Agent { id: 0, position: Vec2 { x: 10 * S, y: 0 }, direction: Vec2 { x: 0, y: S }, speed: 0 };
    let t = ant_triangle(&a);
    assert_eq!(t.tip, Vec2 { x: 10 * S, y: 6 * S });
    assert_eq!(t.left, Vec2 { x: 8 * S, y: -3 * S });
    assert_eq!(t.right, Vec2 { x: 12 * S, y: -3 * S });
    let rays = sensing_rays(&a);
    assert_eq!(rays.len(), 21);
    assert_eq!(rays[0].start, a.position);
    assert_eq!(rays[0].end, Vec2 { x: 10 * S, y: 50 * S });
    assert!(rays[1].end.x > 10 * S);
    assert!(rays[2].end.x < 10 * S);
    assert_eq!(collider_circle(&a).radius, 2 * S);
}

#[test]
fn backdrop_policy() {
    assert_eq!(backdrop(true, true), Backdrop::Opaque);
    assert_eq!(backdrop(false, false), Backdrop::Opaque);
    assert_eq!(backdrop(false, true), Backdrop::Fade);
}
