//! The per-tick steering engine: wander, pointer avoidance, boundary
//! containment, ray sensing against a snapshot of the population, and
//! integration of position.
use vstd::prelude::*;
use crate::geometry::{
    abs, bounded, dist2, distance_squared, in_world, normalize, normalize_spec, rotate_raw,
    rotate_raw_spec, sgn, turn_ok, unit_like, within_segment, within_segment_spec, Turn, Vec2,
    POS_MAX, SCALE, UNIT_SLACK,
};

verus! {

/// Length of a sensing ray, in world units.
pub const RAY_LENGTH: i64 = 50;

/// Radius within which another agent meets a ray, in world units.
pub const ANT_COLLIDER_RADIUS: i64 = 2;

/// Distance from the pointer within which agents turn away from it, in world units.
pub const AVOIDANCE_RADIUS: i64 = 100;

/// The containment nudge is a unit vector toward the origin divided by this.
pub const CONTAINMENT_DIVISOR: i64 = 10;

/// Rays on each side of straight ahead.
pub const STEPS: i64 = 10;

/// Number of rays in the fan: `2 * STEPS + 1`.
pub const RAY_COUNT: i64 = 21;

/// Largest agent speed, in fixed-point units per second (1000 world units per second).
pub const SPEED_MAX: i64 = 65_536_000;

/// Microseconds per second: the unit of `Env::dt`.
pub const MICROS: i64 = 1_000_000;

/// Largest time step of one tick, in microseconds.
pub const DT_MAX: i64 = 1_000_000;

/// One simulated agent.
#[derive(Clone, Copy, Debug, PartialEq, Eq, Structural)]
pub struct Agent {
    pub id: u64,
    pub position: Vec2,
    pub direction: Vec2,
    /// Fixed-point units per second.
    pub speed: i64,
}

/// An axis-aligned rectangle in fixed-point units.
#[derive(Clone, Copy, Debug, PartialEq, Eq, Structural)]
pub struct Boundary {
    pub x_min: i64,
    pub x_max: i64,
    pub y_min: i64,
    pub y_max: i64,
}

/// What one tick reads besides the agents.
#[derive(Debug)]
pub struct Env {
    pub pointer: Vec2,
    pub boundary: Boundary,
    /// Time step of this tick, in microseconds.
    pub dt: i64,
    /// Wander rotation of each agent, by index.
    pub wander: Vec<Turn>,
    /// Steering rotation for each ray offset `k`, at index `k + STEPS`.
    pub steer: Vec<Turn>,
}

pub open spec fn agent_ok(a: Agent) -> bool {
    &&& in_world(a.position)
    &&& unit_like(a.direction)
    &&& 0 <= a.speed <= SPEED_MAX
}

pub open spec fn boundary_ok(b: Boundary) -> bool {
    &&& -POS_MAX <= b.x_min <= b.x_max <= POS_MAX
    &&& -POS_MAX <= b.y_min <= b.y_max <= POS_MAX
}

pub open spec fn population_ok(s: Seq<Agent>) -> bool {
    forall|i: int| 0 <= i < s.len() ==> #[trigger] agent_ok(s[i])
}

pub open spec fn env_ok(env: Env, n: nat) -> bool {
    &&& in_world(env.pointer)
    &&& boundary_ok(env.boundary)
    &&& 0 <= env.dt <= DT_MAX
    &&& env.wander@.len() == n
    &&& env.steer@.len() == RAY_COUNT
    &&& forall|i: int| 0 <= i < env.wander@.len() ==> #[trigger] turn_ok(env.wander@[i])
    &&& forall|i: int| 0 <= i < env.steer@.len() ==> #[trigger] turn_ok(env.steer@[i])
}

pub open spec fn outside_spec(p: Vec2, b: Boundary) -> bool {
    p.x < b.x_min || p.x > b.x_max || p.y < b.y_min || p.y > b.y_max
}

pub open spec fn scale_vec(v: Vec2, k: int) -> Vec2 {
    Vec2 { x: (v.x * k) as i64, y: (v.y * k) as i64 }
}

pub open spec fn add_vec(a: Vec2, b: Vec2) -> Vec2 {
    Vec2 { x: (a.x + b.x) as i64, y: (a.y + b.y) as i64 }
}

pub open spec fn sub_vec(a: Vec2, b: Vec2) -> Vec2 {
    Vec2 { x: (a.x - b.x) as i64, y: (a.y - b.y) as i64 }
}

/// Heading after the wander rotation.
pub open spec fn wander_spec(d: Vec2, t: Turn) -> Vec2 {
    normalize_spec(rotate_raw_spec(d, t), d)
}

/// Heading after pointer avoidance: within `AVOIDANCE_RADIUS` of the pointer the
/// heading gains `(position - pointer) / AVOIDANCE_RADIUS`, which grows with the
/// distance, and is renormalised.
pub open spec fn avoid_spec(d: Vec2, pos: Vec2, pointer: Vec2) -> Vec2 {
    if dist2(pos, pointer) < (AVOIDANCE_RADIUS * SCALE) * (AVOIDANCE_RADIUS * SCALE) {
        normalize_spec(add_vec(scale_vec(d, AVOIDANCE_RADIUS as int), sub_vec(pos, pointer)), d)
    } else {
        d
    }
}

/// The unit vector from `pos` toward the origin (zero at the origin).
pub open spec fn homeward_spec(pos: Vec2) -> Vec2 {
    normalize_spec(Vec2 { x: -pos.x as i64, y: -pos.y as i64 }, Vec2 { x: 0, y: 0 })
}

/// Heading after containment: outside the boundary the heading gains a unit
/// vector toward the origin divided by `CONTAINMENT_DIVISOR`, and is renormalised.
pub open spec fn contain_spec(d: Vec2, pos: Vec2, b: Boundary) -> Vec2 {
    if outside_spec(pos, b) {
        normalize_spec(add_vec(scale_vec(d, CONTAINMENT_DIVISOR as int), homeward_spec(pos)), d)
    } else {
        d
    }
}

/// Each coordinate of a vector is at most its length.
proof fn lemma_square_bound(x: int, y: int, m: int)
    requires
        x * x + y * y <= m * m,
        m >= 0,
    ensures
        -m <= x <= m,
        -m <= y <= m,
{
    assert(-m <= x <= m && -m <= y <= m) by (nonlinear_arith)
        requires
            x * x + y * y <= m * m,
            m >= 0,
    ;
}

/// Rotates the heading by the wander turn and renormalises.
pub fn wander(d: Vec2, t: Turn) -> (r: Vec2)
    requires
        unit_like(d),
        turn_ok(t),
    ensures
        r == wander_spec(d, t),
        unit_like(r),
{
    let raw = rotate_raw(d, t);
    normalize(raw, d)
}

/// Turns the heading away from the pointer when the agent is near it.
pub fn avoid(d: Vec2, pos: Vec2, pointer: Vec2) -> (r: Vec2)
    requires
        unit_like(d),
        in_world(pos),
        in_world(pointer),
    ensures
        r == avoid_spec(d, pos, pointer),
        unit_like(r),
{
    let r2 = distance_squared(pos, pointer);
    let reach: i128 = (AVOIDANCE_RADIUS * SCALE) as i128;
    if r2 < reach * reach {
        proof {
            lemma_square_bound(pos.x - pointer.x, pos.y - pointer.y, AVOIDANCE_RADIUS * SCALE);
        }
        let raw = Vec2 {
            x: d.x * AVOIDANCE_RADIUS + (pos.x - pointer.x),
            y: d.y * AVOIDANCE_RADIUS + (pos.y - pointer.y),
        };
        normalize(raw, d)
    } else {
        d
    }
}

/// Whether `p` lies outside the boundary.
pub fn outside(p: Vec2, b: Boundary) -> (r: bool)
    ensures
        r == outside_spec(p, b),
{
    p.x < b.x_min || p.x > b.x_max || p.y < b.y_min || p.y > b.y_max
}

/// Nudges the heading toward the origin when the agent is outside the boundary.
pub fn contain(d: Vec2, pos: Vec2, b: Boundary) -> (r: Vec2)
    requires
        unit_like(d),
        in_world(pos),
    ensures
        r == contain_spec(d, pos, b),
        unit_like(r),
{
    if outside(pos, b) {
        let home = normalize(Vec2 { x: -pos.x, y: -pos.y }, Vec2 { x: 0, y: 0 });
        let raw = Vec2 {
            x: d.x * CONTAINMENT_DIVISOR + home.x,
            y: d.y * CONTAINMENT_DIVISOR + home.y,
        };
        normalize(raw, d)
    } else {
        d
    }
}


/// Cosine of `m` cone steps (`m * PI / 80` radians), scaled by `SCALE`; `0 <= m <= STEPS`.
pub open spec fn cone_cos(m: int) -> int {
    if m == 0 {
        65536
    } else if m == 1 {
        65485
    } else if m == 2 {
        65334
    } else if m == 3 {
        65082
    } else if m == 4 {
        64729
    } else if m == 5 {
        64277
    } else if m == 6 {
        63725
    } else if m == 7 {
        63075
    } else if m == 8 {
        62328
    } else if m == 9 {
        61485
    } else {
        60547
    }
}

/// Sine of `m` cone steps (`m * PI / 80` radians), scaled by `SCALE`; `0 <= m <= STEPS`.
pub open spec fn cone_sin(m: int) -> int {
    if m == 0 {
        0
    } else if m == 1 {
        2573
    } else if m == 2 {
        5142
    } else if m == 3 {
        7703
    } else if m == 4 {
        10252
    } else if m == 5 {
        12785
    } else if m == 6 {
        15299
    } else if m == 7 {
        17789
    } else if m == 8 {
        20252
    } else if m == 9 {
        22683
    } else {
        25080
    }
}

/// The rotation from the heading to the ray at offset `k` (angle `k * PI / 80`).
pub open spec fn ray_turn_spec(k: int) -> Turn {
    Turn {
        cos: cone_cos(abs(k)) as i64,
        sin: (if k < 0 { -cone_sin(abs(k)) } else { cone_sin(abs(k)) }) as i64,
    }
}

/// The rotation from the heading to the ray at offset `k`.
pub fn ray_turn(k: i64) -> (t: Turn)
    requires
        -STEPS <= k <= STEPS,
    ensures
        t == ray_turn_spec(k as int),
        turn_ok(t),
{
    let m: i64 = if k < 0 { -k } else { k };
    let c: i64 = if m == 0 {
        65536
    } else if m == 1 {
        65485
    } else if m == 2 {
        65334
    } else if m == 3 {
        65082
    } else if m == 4 {
        64729
    } else if m == 5 {
        64277
    } else if m == 6 {
        63725
    } else if m == 7 {
        63075
    } else if m == 8 {
        62328
    } else if m == 9 {
        61485
    } else {
        60547
    };
    let s: i64 = if m == 0 {
        0
    } else if m == 1 {
        2573
    } else if m == 2 {
        5142
    } else if m == 3 {
        7703
    } else if m == 4 {
        10252
    } else if m == 5 {
        12785
    } else if m == 6 {
        15299
    } else if m == 7 {
        17789
    } else if m == 8 {
        20252
    } else if m == 9 {
        22683
    } else {
        25080
    };
    Turn { cos: c, sin: if k < 0 { -s } else { s } }
}

/// The ray offset tested at position `m` of the scan: `0, -1, 1, -2, 2, ...`.
pub open spec fn ray_offset(m: int) -> int {
    if m % 2 == 1 { -((m + 1) / 2) } else { m / 2 }
}

/// The position of offset `k` in the scan order; inverse of `ray_offset`.
pub open spec fn ray_rank(k: int) -> int {
    if k < 0 { -2 * k - 1 } else { 2 * k }
}

/// The far end of the ray at offset `k` from an agent at `pos` heading `d`.
pub open spec fn ray_end_spec(pos: Vec2, d: Vec2, k: int) -> Vec2 {
    add_vec(pos, scale_vec(normalize_spec(rotate_raw_spec(d, ray_turn_spec(k)), d), RAY_LENGTH as int))
}

/// Whether agent `j` of the snapshot meets the ray from `pos` to `end` cast by the
/// agent with id `id`: another agent, within `RAY_LENGTH` of `pos`, and within
/// `ANT_COLLIDER_RADIUS` of the segment.
pub open spec fn sensed_spec(snap: Seq<Agent>, id: u64, pos: Vec2, end: Vec2, j: int) -> bool {
    &&& snap[j].id != id
    &&& dist2(snap[j].position, pos) <= (RAY_LENGTH * SCALE) * (RAY_LENGTH * SCALE)
    &&& within_segment_spec(pos, end, snap[j].position, ANT_COLLIDER_RADIUS * SCALE)
}

/// Whether the ray at offset `k` meets any other agent of the snapshot.
pub open spec fn ray_hits(snap: Seq<Agent>, id: u64, pos: Vec2, d: Vec2, k: int) -> bool {
    exists|j: int| 0 <= j < snap.len() && sensed_spec(snap, id, pos, ray_end_spec(pos, d, k), j)
}

/// The offset of the first ray, from scan position `m` on, that meets another agent.
pub open spec fn scan_from(snap: Seq<Agent>, id: u64, pos: Vec2, d: Vec2, m: int) -> Option<int>
    decreases RAY_COUNT - m,
{
    if m >= RAY_COUNT || m < 0 {
        None
    } else if ray_hits(snap, id, pos, d, ray_offset(m)) {
        Some(ray_offset(m))
    } else {
        scan_from(snap, id, pos, d, m + 1)
    }
}

/// The offset of the first ray in scan order that meets another agent, if any.
pub open spec fn first_hit_spec(snap: Seq<Agent>, id: u64, pos: Vec2, d: Vec2) -> Option<int> {
    scan_from(snap, id, pos, d, 0)
}

proof fn lemma_scan_range(snap: Seq<Agent>, id: u64, pos: Vec2, d: Vec2, m: int)
    ensures
        scan_from(snap, id, pos, d, m) matches Some(k) ==> -STEPS <= k <= STEPS,
    decreases RAY_COUNT - m,
{
    if 0 <= m < RAY_COUNT && !ray_hits(snap, id, pos, d, ray_offset(m)) {
        lemma_scan_range(snap, id, pos, d, m + 1);
    }
}

/// The far end of the ray at offset `k`.
pub fn ray_end(pos: Vec2, d: Vec2, k: i64) -> (r: Vec2)
    requires
        in_world(pos),
        unit_like(d),
        -STEPS <= k <= STEPS,
    ensures
        r == ray_end_spec(pos, d, k as int),
        bounded(r, 2 * POS_MAX),
        bounded(sub_vec(r, pos), RAY_LENGTH * SCALE),
{
    let u = normalize(rotate_raw(d, ray_turn(k)), d);
    Vec2 { x: pos.x + u.x * RAY_LENGTH, y: pos.y + u.y * RAY_LENGTH }
}

/// Whether agent `j` of the snapshot meets the ray from `pos` to `end`.
fn sensed(snap: &Vec<Agent>, id: u64, pos: Vec2, end: Vec2, j: usize) -> (r: bool)
    requires
        population_ok(snap@),
        j < snap@.len(),
        in_world(pos),
        bounded(end, 2 * POS_MAX),
        bounded(sub_vec(end, pos), RAY_LENGTH * SCALE),
    ensures
        r == sensed_spec(snap@, id, pos, end, j as int),
{
    let q = snap[j];
    if q.id == id {
        return false;
    }
    let reach: i128 = 3_276_800;
    assert(agent_ok(snap@[j as int]));
    if distance_squared(q.position, pos) > reach * reach {
        return false;
    }
    proof {
        lemma_square_bound(q.position.x - pos.x, q.position.y - pos.y, RAY_LENGTH * SCALE);
    }
    within_segment(pos, end, q.position, ANT_COLLIDER_RADIUS * SCALE)
}

/// The offset of the first ray, in the order `0, -1, 1, -2, 2, ...`, that meets
/// another agent of the snapshot; `None` where no ray does.
pub fn first_hit(snap: &Vec<Agent>, id: u64, pos: Vec2, d: Vec2) -> (r: Option<i64>)
    requires
        population_ok(snap@),
        in_world(pos),
        unit_like(d),
    ensures
        r == (match first_hit_spec(snap@, id, pos, d) {
            Some(k) => Some(k as i64),
            None => None,
        }),
        r.is_some() ==> -STEPS <= r.unwrap() <= STEPS,
{
    let mut m: i64 = 0;
    while m < RAY_COUNT
        invariant
            0 <= m <= RAY_COUNT,
            population_ok(snap@),
            in_world(pos),
            unit_like(d),
            first_hit_spec(snap@, id, pos, d) == scan_from(snap@, id, pos, d, m as int),
        decreases RAY_COUNT - m,
    {
        let k: i64 = if m % 2 == 1 { -((m + 1) / 2) } else { m / 2 };
        assert(k as int == ray_offset(m as int));
        let end = ray_end(pos, d, k);
        let mut j: usize = 0;
        while j < snap.len()
            invariant
                0 <= j <= snap@.len(),
                population_ok(snap@),
                in_world(pos),
                bounded(end, 2 * POS_MAX),
                bounded(sub_vec(end, pos), RAY_LENGTH * SCALE),
                end == ray_end_spec(pos, d, k as int),
                0 <= m < RAY_COUNT,
                k as int == ray_offset(m as int),
                first_hit_spec(snap@, id, pos, d) == scan_from(snap@, id, pos, d, m as int),
                forall|jj: int| 0 <= jj < j ==> !sensed_spec(snap@, id, pos, end, jj),
            decreases snap@.len() - j,
        {
            if sensed(snap, id, pos, end, j) {
                proof {
                    assert(k as int == ray_offset(m as int));
                    assert(ray_hits(snap@, id, pos, d, k as int));
                }
                return Some(k);
            }
            j = j + 1;
        }
        proof {
            assert(k as int == ray_offset(m as int));
            assert(!ray_hits(snap@, id, pos, d, k as int));
        }
        m = m + 1;
    }
    None
}


/// Heading after steering: where ray `k` was the first hit, the heading is
/// rotated by the steering turn of offset `k` and renormalised.
pub open spec fn steer_spec(d: Vec2, hit: Option<int>, steer: Seq<Turn>) -> Vec2 {
    match hit {
        Some(k) => normalize_spec(rotate_raw_spec(d, steer[k + STEPS]), d),
        None => d,
    }
}

/// Distance moved along one axis: heading component times speed times time
/// step, rounded toward zero.
pub open spec fn displacement(c: int, speed: int, dt: int) -> int {
    sgn(c) * ((abs(c) * speed * dt) / (SCALE * MICROS))
}

/// A coordinate held inside the representable world.
pub open spec fn clamp_world(v: int) -> int {
    if v < -POS_MAX { -POS_MAX as int } else if v > POS_MAX { POS_MAX as int } else { v }
}

/// Position after moving along heading `d` at `speed` for `dt` microseconds.
pub open spec fn advance_spec(pos: Vec2, d: Vec2, speed: int, dt: int) -> Vec2 {
    Vec2 {
        x: clamp_world(pos.x + displacement(d.x as int, speed, dt)) as i64,
        y: clamp_world(pos.y + displacement(d.y as int, speed, dt)) as i64,
    }
}

/// Heading of agent `i` after wander, avoidance and containment, before sensing.
pub open spec fn sensing_heading(snap: Seq<Agent>, i: int, env: Env) -> Vec2 {
    let a = snap[i];
    contain_spec(
        avoid_spec(wander_spec(a.direction, env.wander@[i]), a.position, env.pointer),
        a.position,
        env.boundary,
    )
}

/// Agent `i` after one tick, computed from the snapshot `snap` alone.
pub open spec fn step_spec(snap: Seq<Agent>, i: int, env: Env) -> Agent {
    let a = snap[i];
    let d3 = sensing_heading(snap, i, env);
    let d4 = steer_spec(d3, first_hit_spec(snap, a.id, a.position, d3), env.steer@);
    let d5 = normalize_spec(d4, d4);
    Agent {
        id: a.id,
        position: advance_spec(a.position, d5, a.speed as int, env.dt as int),
        direction: d5,
        speed: a.speed,
    }
}

/// The whole population after one tick.
pub open spec fn tick_spec(snap: Seq<Agent>, env: Env) -> Seq<Agent> {
    Seq::new(snap.len(), |i: int| step_spec(snap, i, env))
}

/// Rotates the heading by the steering turn of the first hit ray, if any.
pub fn steer(d: Vec2, hit: Option<i64>, turns: &Vec<Turn>) -> (r: Vec2)
    requires
        unit_like(d),
        turns@.len() == RAY_COUNT,
        forall|i: int| 0 <= i < turns@.len() ==> #[trigger] turn_ok(turns@[i]),
        hit.is_some() ==> -STEPS <= hit.unwrap() <= STEPS,
    ensures
        r == steer_spec(d, match hit { Some(k) => Some(k as int), None => None }, turns@),
        unit_like(r),
{
    match hit {
        Some(k) => {
            let t = turns[(k + STEPS) as usize];
            normalize(rotate_raw(d, t), d)
        },
        None => d,
    }
}

proof fn lemma_mul_le(a: int, b: int, x: int, y: int)
    requires
        0 <= a <= x,
        0 <= b <= y,
    ensures
        0 <= a * b <= x * y,
{
    assert(0 <= a * b <= x * y) by (nonlinear_arith)
        requires
            0 <= a <= x,
            0 <= b <= y,
    ;
}

fn axis_move(p: i64, c: i64, speed: i64, dt: i64) -> (r: i64)
    requires
        -POS_MAX <= p <= POS_MAX,
        -SCALE <= c <= SCALE,
        0 <= speed <= SPEED_MAX,
        0 <= dt <= DT_MAX,
    ensures
        r == clamp_world(p + displacement(c as int, speed as int, dt as int)),
{
    let m: i128 = if c < 0 { -(c as i128) } else { c as i128 };
    proof {
        lemma_mul_le(m as int, speed as int, SCALE as int, SPEED_MAX as int);
        lemma_mul_le((m * speed) as int, dt as int, (SCALE * SPEED_MAX) as int, DT_MAX as int);
    }
    let q: i128 = (m * speed as i128 * dt as i128) / 65_536_000_000;
    let moved: i128 = if c < 0 { p as i128 - q } else { p as i128 + q };
    assert(m as int == abs(c as int));
    assert(q == (abs(c as int) * speed * dt) / (SCALE * MICROS));
    if c == 0 {
        assert(m * speed == 0);
    }
    assert(moved == p + displacement(c as int, speed as int, dt as int));
    if moved < -(POS_MAX as i128) {
        -POS_MAX
    } else if moved > POS_MAX as i128 {
        POS_MAX
    } else {
        moved as i64
    }
}

/// Moves `pos` along heading `d` at `speed` for `dt` microseconds.
pub fn advance(pos: Vec2, d: Vec2, speed: i64, dt: i64) -> (r: Vec2)
    requires
        in_world(pos),
        unit_like(d),
        0 <= speed <= SPEED_MAX,
        0 <= dt <= DT_MAX,
    ensures
        r == advance_spec(pos, d, speed as int, dt as int),
        in_world(r),
{
    Vec2 { x: axis_move(pos.x, d.x, speed, dt), y: axis_move(pos.y, d.y, speed, dt) }
}

/// Agent `i` after one tick, reading only the snapshot.
pub fn step_agent(snap: &Vec<Agent>, i: usize, env: &Env) -> (r: Agent)
    requires
        i < snap@.len(),
        population_ok(snap@),
        env_ok(*env, snap@.len()),
    ensures
        r == step_spec(snap@, i as int, *env),
        agent_ok(r),
{
    let a = snap[i];
    assert(agent_ok(snap@[i as int]));
    assert(turn_ok(env.wander@[i as int]));
    let d1 = wander(a.direction, env.wander[i]);
    let d2 = avoid(d1, a.position, env.pointer);
    let d3 = contain(d2, a.position, env.boundary);
    let hit = first_hit(snap, a.id, a.position, d3);
    assert(d3 == sensing_heading(snap@, i as int, *env));
    proof {
        lemma_scan_range(snap@, a.id, a.position, d3, 0);
    }
    assert(hit == (match first_hit_spec(snap@, a.id, a.position, d3) {
        Some(k) => Some(k as i64),
        None => None,
    }));
    let d4 = steer(d3, hit, &env.steer);
    assert(d4 == steer_spec(d3, first_hit_spec(snap@, a.id, a.position, d3), env.steer@));
    let d5 = normalize(d4, d4);
    Agent { id: a.id, position: advance(a.position, d5, a.speed, env.dt), direction: d5, speed: a.speed }
}

/// The population after one tick; every agent reads the unchanged input.
pub fn next_population(snap: &Vec<Agent>, env: &Env) -> (r: Vec<Agent>)
    requires
        population_ok(snap@),
        env_ok(*env, snap@.len()),
    ensures
        r@ == tick_spec(snap@, *env),
        population_ok(r@),
{
    let mut next: Vec<Agent> = Vec::with_capacity(snap.len());
    let mut i: usize = 0;
    while i < snap.len()
        invariant
            i <= snap@.len(),
            population_ok(snap@),
            env_ok(*env, snap@.len()),
            next@.len() == i,
            population_ok(next@),
            forall|j: int| 0 <= j < i ==> next@[j] == step_spec(snap@, j, *env),
        decreases snap@.len() - i,
    {
        let a = step_agent(snap, i, env);
        next.push(a);
        i = i + 1;
    }
    assert(next@ =~= tick_spec(snap@, *env));
    next
}

/// Advances the whole population by one tick, in place.
pub fn tick(agents: &mut Vec<Agent>, env: &Env)
    requires
        population_ok(old(agents)@),
        env_ok(*env, old(agents)@.len()),
    ensures
        final(agents)@ == tick_spec(old(agents)@, *env),
        population_ok(final(agents)@),
{
    let next = next_population(agents, env);
    *agents = next;
}


/// The live population after agents `order[0], order[1], ...` are each replaced,
/// one after another, by their step computed from the snapshot `snap`.
pub open spec fn apply_in_order(snap: Seq<Agent>, live: Seq<Agent>, order: Seq<usize>, env: Env) -> Seq<Agent>
    decreases order.len(),
{
    if order.len() == 0 {
        live
    } else {
        let i = order.last() as int;
        apply_in_order(snap, live, order.drop_last(), env).update(i, step_spec(snap, i, env))
    }
}

/// Index `j` occurs in `order`.
pub open spec fn visits(order: Seq<usize>, j: int) -> bool {
    exists|k: int| 0 <= k < order.len() && order[k] as int == j
}

/// `order` lists every index below `n` and no other.
pub open spec fn is_ordering(order: Seq<usize>, n: nat) -> bool {
    &&& order.len() == n
    &&& forall|k: int| 0 <= k < order.len() ==> #[trigger] order[k] < n
    &&& forall|j: int| 0 <= j < n ==> #[trigger] visits(order, j)
}

/// Replaces the agents of `live` one at a time, in the order given, by their
/// step computed from the snapshot `snap`.
pub fn update_in_order(snap: &Vec<Agent>, live: &mut Vec<Agent>, order: &Vec<usize>, env: &Env)
    requires
        population_ok(snap@),
        env_ok(*env, snap@.len()),
        old(live)@.len() == snap@.len(),
        forall|k: int| 0 <= k < order@.len() ==> #[trigger] order@[k] < snap@.len(),
    ensures
        final(live)@ == apply_in_order(snap@, old(live)@, order@, *env),
{
    let mut k: usize = 0;
    while k < order.len()
        invariant
            k <= order@.len(),
            population_ok(snap@),
            env_ok(*env, snap@.len()),
            live@.len() == snap@.len(),
            forall|kk: int| 0 <= kk < order@.len() ==> #[trigger] order@[kk] < snap@.len(),
            live@ == apply_in_order(snap@, old(live)@, order@.subrange(0, k as int), *env),
        decreases order@.len() - k,
    {
        let i = order[k];
        assert(i < snap@.len());
        let a = step_agent(snap, i, env);
        live.set(i, a);
        proof {
            let pre = order@.subrange(0, k as int + 1);
            assert(pre.drop_last() =~= order@.subrange(0, k as int));
            assert(pre.last() == i);
        }
        k = k + 1;
    }
    assert(order@.subrange(0, order@.len() as int) =~= order@);
}

proof fn lemma_apply_in_order_at(snap: Seq<Agent>, live: Seq<Agent>, order: Seq<usize>, env: Env)
    requires
        live.len() == snap.len(),
        forall|k: int| 0 <= k < order.len() ==> #[trigger] order[k] < snap.len(),
    ensures
        apply_in_order(snap, live, order, env).len() == live.len(),
        forall|j: int| 0 <= j < live.len() ==> #[trigger] apply_in_order(snap, live, order, env)[j]
            == if visits(order, j) { step_spec(snap, j, env) } else { live[j] },
    decreases order.len(),
{
    if order.len() > 0 {
        let rest = order.drop_last();
        let last = order.last() as int;
        assert forall|k: int| 0 <= k < rest.len() implies #[trigger] rest[k] < snap.len() by {
            assert(rest[k] == order[k]);
        }
        lemma_apply_in_order_at(snap, live, rest, env);
        assert forall|j: int| 0 <= j < live.len() implies #[trigger] apply_in_order(snap, live, order, env)[j]
            == if visits(order, j) { step_spec(snap, j, env) } else { live[j] } by {
            if j == last {
                assert(order[order.len() - 1] as int == j);
                assert(visits(order, j));
            } else {
                if visits(order, j) {
                    let k = choose|k: int| 0 <= k < order.len() && order[k] as int == j;
                    assert(k < order.len() - 1);
                    assert(rest[k] == order[k]);
                    assert(visits(rest, j));
                }
                if visits(rest, j) {
                    let k = choose|k: int| 0 <= k < rest.len() && rest[k] as int == j;
                    assert(rest[k] == order[k]);
                    assert(visits(order, j));
                }
            }
        }
    }
}

/// Order independence: because every step reads only the snapshot, replacing the
/// agents one at a time in any order that visits each of them once gives the
/// same population as `tick`.
pub proof fn lemma_order_independent(snap: Seq<Agent>, order: Seq<usize>, env: Env)
    requires
        is_ordering(order, snap.len()),
    ensures
        apply_in_order(snap, snap, order, env) == tick_spec(snap, env),
{
    lemma_apply_in_order_at(snap, snap, order, env);
    let r = apply_in_order(snap, snap, order, env);
    assert forall|j: int| 0 <= j < snap.len() implies r[j] == tick_spec(snap, env)[j] by {
        assert(visits(order, j));
    }
    assert(r =~= tick_spec(snap, env));
}

proof fn lemma_rank_offset(m: int)
    requires
        0 <= m,
    ensures
        ray_rank(ray_offset(m)) == m,
{
}

proof fn lemma_offset_rank(k: int)
    ensures
        ray_offset(ray_rank(k)) == k,
{
}

proof fn lemma_scan_priority(snap: Seq<Agent>, id: u64, pos: Vec2, d: Vec2, m: int)
    requires
        0 <= m,
    ensures
        scan_from(snap, id, pos, d, m) matches Some(k) ==> {
            &&& -STEPS <= k <= STEPS
            &&& m <= ray_rank(k)
            &&& ray_hits(snap, id, pos, d, k)
            &&& forall|k2: int| m <= #[trigger] ray_rank(k2) < ray_rank(k) ==> !ray_hits(snap, id, pos, d, k2)
        },
        scan_from(snap, id, pos, d, m) is None ==> forall|k2: int|
            -STEPS <= k2 <= STEPS && m <= #[trigger] ray_rank(k2) ==> !ray_hits(snap, id, pos, d, k2),
    decreases RAY_COUNT - m,
{
    lemma_rank_offset(m);
    if m < RAY_COUNT {
        if !ray_hits(snap, id, pos, d, ray_offset(m)) {
            lemma_scan_priority(snap, id, pos, d, m + 1);
            assert forall|k2: int| ray_rank(k2) == m implies !ray_hits(snap, id, pos, d, k2) by {
                lemma_offset_rank(k2);
            }
        }
    }
}

/// Ray priority: the selected ray meets another agent, and no ray that comes
/// before it in the order `0, -1, 1, -2, 2, ...` does; where none is selected,
/// no ray of the fan meets another agent.
pub proof fn lemma_first_hit_priority(snap: Seq<Agent>, id: u64, pos: Vec2, d: Vec2)
    ensures
        first_hit_spec(snap, id, pos, d) matches Some(k) ==> {
            &&& -STEPS <= k <= STEPS
            &&& ray_hits(snap, id, pos, d, k)
            &&& forall|k2: int| #[trigger] ray_rank(k2) < ray_rank(k) ==> !ray_hits(snap, id, pos, d, k2)
        },
        first_hit_spec(snap, id, pos, d) is None ==> forall|k2: int|
            -STEPS <= k2 <= STEPS ==> !#[trigger] ray_hits(snap, id, pos, d, k2),
{
    lemma_scan_priority(snap, id, pos, d, 0);
    assert forall|k2: int| -STEPS <= k2 <= STEPS implies 0 <= #[trigger] ray_rank(k2) by {}
    if first_hit_spec(snap, id, pos, d) is None {
        assert forall|k2: int| -STEPS <= k2 <= STEPS implies !#[trigger] ray_hits(snap, id, pos, d, k2) by {
            assert(0 <= ray_rank(k2));
        }
    }
    if let Some(k) = first_hit_spec(snap, id, pos, d) {
        assert forall|k2: int| #[trigger] ray_rank(k2) < ray_rank(k) implies !ray_hits(snap, id, pos, d, k2) by {
            if ray_rank(k2) < 0 {
                assert(false);
            }
        }
    }
}

/// Self-exclusion: an agent alone in the snapshot meets none of its own rays.
pub proof fn lemma_lone_agent_senses_nothing(a: Agent, d: Vec2)
    ensures
        first_hit_spec(seq![a], a.id, a.position, d) is None,
{
    let snap = seq![a];
    assert forall|k: int| !#[trigger] ray_hits(snap, a.id, a.position, d, k) by {
        assert forall|j: int| 0 <= j < snap.len() implies !sensed_spec(snap, a.id, a.position, ray_end_spec(a.position, d, k), j) by {
            assert(snap[j] == a);
        }
    }
    lemma_scan_priority(snap, a.id, a.position, d, 0);
}

/// Containment pressure: outside the boundary the nudge added to the heading
/// points toward the origin (it has a positive component along `-pos`), and the
/// heading is not replaced: the result is the renormalised sum.
pub proof fn lemma_containment_points_inward(d: Vec2, pos: Vec2, b: Boundary)
    requires
        outside_spec(pos, b),
        in_world(pos),
        !(pos.x == 0 && pos.y == 0),
    ensures
        homeward_spec(pos).x * (-pos.x) + homeward_spec(pos).y * (-pos.y) > 0,
        contain_spec(d, pos, b) == normalize_spec(
            add_vec(scale_vec(d, CONTAINMENT_DIVISOR as int), homeward_spec(pos)),
            d,
        ),
{
    let v = Vec2 { x: -pos.x as i64, y: -pos.y as i64 };
    let h = homeward_spec(pos);
    let len = crate::geometry::int_sqrt((crate::geometry::norm2(v) * SCALE * SCALE) as nat) as int;
    crate::geometry::lemma_normalize_unit(v, Vec2 { x: 0, y: 0 });
    let qx = (abs(v.x as int) * SCALE * SCALE) / len;
    let qy = (abs(v.y as int) * SCALE * SCALE) / len;
    assert(qx >= 0 && qy >= 0) by (nonlinear_arith)
        requires
            qx == (abs(v.x as int) * SCALE * SCALE) / len,
            qy == (abs(v.y as int) * SCALE * SCALE) / len,
            abs(v.x as int) >= 0,
            abs(v.y as int) >= 0,
            len > 0,
    ;
    assert(h.x == sgn(v.x as int) * qx && h.y == sgn(v.y as int) * qy);
    assert(h.x != 0 || h.y != 0) by (nonlinear_arith)
        requires
            h.x * h.x + h.y * h.y >= SCALE * SCALE - UNIT_SLACK * SCALE,
    ;
    assert(h.x * v.x + h.y * v.y > 0) by (nonlinear_arith)
        requires
            h.x == sgn(v.x as int) * qx,
            h.y == sgn(v.y as int) * qy,
            qx >= 0,
            qy >= 0,
            h.x != 0 || h.y != 0,
            v.x < 0 ==> sgn(v.x as int) == -1,
            v.x == 0 ==> sgn(v.x as int) == 0,
            v.x > 0 ==> sgn(v.x as int) == 1,
            v.y < 0 ==> sgn(v.y as int) == -1,
            v.y == 0 ==> sgn(v.y as int) == 0,
            v.y > 0 ==> sgn(v.y as int) == 1,
    ;
}

/// Boundary resize: an agent inside the old boundary and outside the new one gets
/// no containment nudge under the old boundary and gets it under the new one.
pub proof fn lemma_resize_starts_containment(d: Vec2, pos: Vec2, old_b: Boundary, new_b: Boundary)
    requires
        !outside_spec(pos, old_b),
        outside_spec(pos, new_b),
    ensures
        contain_spec(d, pos, old_b) == d,
        contain_spec(d, pos, new_b) == normalize_spec(
            add_vec(scale_vec(d, CONTAINMENT_DIVISOR as int), homeward_spec(pos)),
            d,
        ),
{
}

} // verus!
