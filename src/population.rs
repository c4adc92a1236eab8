//! Creation of the population from random draws made by the caller.
use vstd::prelude::*;
use crate::geometry::{bounded, normalize, normalize_spec, unit_like, Vec2, RAW_MAX, SCALE};
use crate::steering::{agent_ok, population_ok, Agent, Boundary, boundary_ok};

verus! {

/// Slowest agent, in fixed-point units per second (20 world units per second).
pub const SPEED_LOW: i64 = 1_310_720;

/// Fastest agent is below this, in fixed-point units per second (100 world units per second).
pub const SPEED_HIGH: i64 = 6_553_600;

/// One agent's random draws: fractions of the boundary's width and height and
/// of the speed range, each out of `2^32`, and a heading vector of any length.
#[derive(Clone, Copy, Debug, PartialEq, Eq, Structural)]
pub struct SpawnDraw {
    pub fx: u32,
    pub fy: u32,
    pub heading: Vec2,
    pub fs: u32,
}

/// `lo + (hi - lo) * f / 2^32`, a point of `[lo, hi)` (of `[lo, hi]` where `lo == hi`).
pub open spec fn lerp(lo: int, hi: int, f: int) -> int {
    lo + ((hi - lo) * f) / 0x1_0000_0000
}

/// The agent with id `id` made from `draw` inside `b`.
pub open spec fn spawn_spec(id: u64, b: Boundary, draw: SpawnDraw) -> Agent {
    Agent {
        id,
        position: Vec2 {
            x: lerp(b.x_min as int, b.x_max as int, draw.fx as int) as i64,
            y: lerp(b.y_min as int, b.y_max as int, draw.fy as int) as i64,
        },
        direction: normalize_spec(draw.heading, Vec2 { x: SCALE, y: 0 }),
        speed: lerp(SPEED_LOW as int, SPEED_HIGH as int, draw.fs as int) as i64,
    }
}

pub open spec fn draw_ok(draw: SpawnDraw) -> bool {
    bounded(draw.heading, RAW_MAX as int)
}

fn lerp_exec(lo: i64, hi: i64, f: u32) -> (r: i64)
    requires
        -0x100_0000_0000 <= lo <= hi <= 0x100_0000_0000,
    ensures
        r == lerp(lo as int, hi as int, f as int),
        lo <= r <= hi,
{
    let w: i128 = hi as i128 - lo as i128;
    assert(0 <= w * f <= 0x200_0000_0000 * 0x1_0000_0000) by (nonlinear_arith)
        requires
            0 <= w <= 0x200_0000_0000,
            0 <= f < 0x1_0000_0000,
    ;
    let q: i128 = (w * f as i128) / 0x1_0000_0000;
    assert(q <= w) by (nonlinear_arith)
        requires
            q == (w * f) / 0x1_0000_0000,
            0 <= w,
            0 <= f < 0x1_0000_0000,
    ;
    (lo as i128 + q) as i64
}

/// The agent with id `id` made from `draw` inside `b`.
pub fn spawn(id: u64, b: Boundary, draw: SpawnDraw) -> (r: Agent)
    requires
        boundary_ok(b),
        draw_ok(draw),
    ensures
        r == spawn_spec(id, b, draw),
        agent_ok(r),
{
    let x = lerp_exec(b.x_min, b.x_max, draw.fx);
    let y = lerp_exec(b.y_min, b.y_max, draw.fy);
    let d = normalize(draw.heading, Vec2 { x: SCALE, y: 0 });
    assert(unit_like(Vec2 { x: SCALE, y: 0 }));
    let speed = lerp_exec(SPEED_LOW, SPEED_HIGH, draw.fs);
    Agent { id, position: Vec2 { x, y }, direction: d, speed }
}

/// The initial population: agent `i` is made from `draws[i]`, with id `i`.
pub fn initialize(b: Boundary, draws: &Vec<SpawnDraw>) -> (r: Vec<Agent>)
    requires
        boundary_ok(b),
        forall|i: int| 0 <= i < draws@.len() ==> #[trigger] draw_ok(draws@[i]),
    ensures
        r@.len() == draws@.len(),
        forall|i: int| 0 <= i < r@.len() ==> #[trigger] r@[i] == spawn_spec(i as u64, b, draws@[i]),
        population_ok(r@),
{
    let mut agents: Vec<Agent> = Vec::with_capacity(draws.len());
    let mut i: usize = 0;
    while i < draws.len()
        invariant
            i <= draws@.len(),
            boundary_ok(b),
            forall|j: int| 0 <= j < draws@.len() ==> #[trigger] draw_ok(draws@[j]),
            agents@.len() == i,
            forall|j: int| 0 <= j < i ==> #[trigger] agents@[j] == spawn_spec(j as u64, b, draws@[j]),
            population_ok(agents@),
        decreases draws@.len() - i,
    {
        let a = spawn(i as u64, b, draws[i]);
        agents.push(a);
        i = i + 1;
    }
    agents
}

} // verus!
