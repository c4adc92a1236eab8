use ants::geometry::{Turn, Vec2, SCALE};
use ants::settings::steering_angle;
use ants::steering::{
    avoid, contain, first_hit, next_population, tick, update_in_order, Agent, Boundary, Env,
    RAY_LENGTH, STEPS,
};

const S: i64 = SCALE;

fn world(x: f64, y: f64) -> Vec2 {
    Vec2 { x: (x * S as f64).round() as i64, y: (y * S as f64).round() as i64 }
}

fn turn_of(angle_urad: i64) -> Turn {
    let a = angle_urad as f64 / 1e6;
    Turn { cos: (a.cos() * S as f64).round() as i64, sin: (a.sin() * S as f64).round() as i64 }
}

fn big_boundary() -> Boundary {
    Boundary { x_min: -10_000 * S, x_max: 10_000 * S, y_min: -10_000 * S, y_max: 10_000 * S }
}

fn env_for(n: usize, dt: i64, boundary: Boundary) -> Env {
    let steer = (-STEPS..=STEPS).map(|k| turn_of(steering_angle(k, dt))).collect();
    Env {
        pointer: world(5_000.0, 5_000.0),
        boundary,
        dt,
        wander: vec![Turn { cos: S, sin: 0 }; n],
        steer,
    }
}

fn agent(id: u64, x: f64, y: f64, dx: f64, dy: f64, speed: f64) -> Agent {
    Agent { id, position: world(x, y), direction: world(dx, dy), speed: (speed * S as f64) as i64 }
}

fn length(v: Vec2) -> f64 {
    ((v.x as f64).powi(2) + (v.y as f64).powi(2)).sqrt() / S as f64
}

#[test]
fn head_on_pair_senses_straight_ahead() {
    let agents = vec![agent(0, -10.0, 0.0, 1.0, 0.0, 50.0), agent(1, 10.0, 0.0, -1.0, 0.0, 50.0)];
    assert!(RAY_LENGTH == 50);
    assert_eq!(first_hit(&agents, 0, agents[0].position, agents[0].direction), Some(0));
    assert_eq!(first_hit(&agents, 1, agents[1].position, agents[1].direction), Some(0));
    let env = env_for(2, 16_667, big_boundary());
    let mut live = agents.clone();
    tick(&mut live, &env);
    // The straight-ahead ray has offset zero, so its steering angle is zero.
    assert_eq!(steering_angle(0, 16_667), 0);
    assert_eq!(live[0].direction, Vec2 { x: S, y: 0 });
    assert_eq!(live[1].direction, Vec2 { x: -S, y: 0 });
    assert!(live[0].position.x > agents[0].position.x);
    assert!(live[1].position.x < agents[1].position.x);
}

#[test]
fn only_offset_two_is_selected() {
    let cone = std::f64::consts::PI / 80.0;
    let a = 2.0 * cone;
    // On ray +2 at distance 45, moved 1.5 units further from ray +1.
    let (x, y) = (45.0 * a.cos() - 1.5 * a.sin(), 45.0 * a.sin() + 1.5 * a.cos());
    let agents = vec![agent(0, 0.0, 0.0, 1.0, 0.0, 50.0), agent(1, x, y, 1.0, 0.0, 50.0)];
    assert_eq!(first_hit(&agents, 0, agents[0].position, agents[0].direction), Some(2));
}

#[test]
fn lone_agent_never_senses_itself() {
    let mut agents = vec![agent(7, 0.0, 0.0, 1.0, 0.0, 80.0)];
    for _ in 0..20 {
        assert_eq!(first_hit(&agents, 7, agents[0].position, agents[0].direction), None);
        let env = env_for(1, 16_667, big_boundary());
        tick(&mut agents, &env);
    }
}

#[test]
fn processing_order_does_not_matter() {
    let agents = vec![
        agent(0, -10.0, 0.0, 1.0, 0.0, 50.0),
        agent(1, 10.0, 0.0, -1.0, 0.0, 60.0),
        agent(2, 0.0, 20.0, 0.0, -1.0, 70.0),
        agent(3, 3.0, -4.0, 0.6, 0.8, 30.0),
    ];
    let env = env_for(4, 20_000, big_boundary());
    let expected = next_population(&agents, &env);
    let mut forward = agents.clone();
    update_in_order(&agents, &mut forward, &vec![0, 1, 2, 3], &env);
    let mut shuffled = agents.clone();
    update_in_order(&agents, &mut shuffled, &vec![2, 0, 3, 1], &env);
    assert_eq!(forward, expected);
    assert_eq!(shuffled, expected);
}

#[test]
fn headings_stay_unit_length() {
    let mut agents: Vec<Agent> = (0..12)
        .map(|i| {
            let a = i as f64 * 0.5;
            agent(i, (i as f64) * 3.0 - 18.0, (i % 3) as f64 * 4.0, a.cos(), a.sin(), 40.0 + i as f64)
        })
        .collect();
    for t in 0..60 {
        let mut env = env_for(agents.len(), 16_667, big_boundary());
        env.pointer = world(0.0, 0.0);
        env.wander = (0..agents.len()).map(|i| turn_of(((t * 7 + i as i64 * 13) % 40 - 20) * 1000)).collect();
        tick(&mut agents, &env);
        for a in &agents {
            assert!((length(a.direction) - 1.0).abs() < 1e-4);
        }
    }
}

#[test]
fn containment_turns_agent_back_gradually() {
    let b = Boundary { x_min: -100 * S, x_max: 100 * S, y_min: -100 * S, y_max: 100 * S };
    let mut agents = vec![agent(0, 101.0, 3.0, 1.0, 0.0, 50.0)];
    let mut turned_back = false;
    for _ in 0..500 {
        let before = agents[0];
        tick(&mut agents, &env_for(1, 16_667, b));
        let after = agents[0];
        // One tick moves at most speed * dt.
        assert!(length(Vec2 { x: after.position.x - before.position.x, y: after.position.y - before.position.y }) < 0.9);
        if after.direction.x < 0 {
            turned_back = true;
            break;
        }
    }
    assert!(turned_back);
}

#[test]
fn shrinking_boundary_starts_containment() {
    let d = Vec2 { x: S, y: 0 };
    let pos = world(90.0, 0.0);
    let old_b = Boundary { x_min: -100 * S, x_max: 100 * S, y_min: -100 * S, y_max: 100 * S };
    let new_b = Boundary { x_min: -80 * S, x_max: 80 * S, y_min: -80 * S, y_max: 80 * S };
    assert_eq!(contain(d, pos, old_b), d);
    let turned = contain(d, Vec2 { x: pos.x, y: pos.y + S }, new_b);
    assert_ne!(turned, d);
    assert!(turned.x < S);
    let nudged = contain(Vec2 { x: 0, y: S }, pos, new_b);
    assert!(nudged.x < 0);
}

#[test]
fn pointer_pushes_heading_away() {
    let d = Vec2 { x: 0, y: S };
    let r = avoid(d, world(50.0, 0.0), world(0.0, 0.0));
    assert!(r.x > 0);
    assert_eq!(avoid(d, world(150.0, 0.0), world(0.0, 0.0)), d);
    // Linear in the distance: at 50 units the added term is half a unit vector.
    assert_eq!(r, ants::geometry::normalize(Vec2 { x: 50 * S, y: 100 * S }, d));
}
