//! Render projection: the shapes drawn for each agent, in fixed-point world
//! coordinates.
use vstd::prelude::*;
use crate::geometry::{bounded, in_world, unit_like, Vec2, POS_MAX, SCALE};
use crate::steering::{
    agent_ok, ray_end, ray_end_spec, ray_offset, Agent, ANT_COLLIDER_RADIUS, RAY_COUNT, STEPS,
};

verus! {

/// Distance from the centre to the tip of an agent's triangle, in world units.
pub const SHAPE_TIP: i64 = 6;

/// Distance from the centre back to the base of the triangle, in world units.
pub const SHAPE_BACK: i64 = 3;

/// Half the width of the triangle's base, in world units.
pub const SHAPE_HALF_WIDTH: i64 = 2;

/// A filled triangle.
#[derive(Clone, Copy, Debug, PartialEq, Eq, Structural)]
pub struct Triangle {
    pub tip: Vec2,
    pub left: Vec2,
    pub right: Vec2,
}

/// A line segment.
#[derive(Clone, Copy, Debug, PartialEq, Eq, Structural)]
pub struct Segment {
    pub start: Vec2,
    pub end: Vec2,
}

/// A circle outline.
#[derive(Clone, Copy, Debug, PartialEq, Eq, Structural)]
pub struct Circle {
    pub center: Vec2,
    pub radius: i64,
}

/// How the frame's background is drawn.
#[derive(Clone, Copy, Debug, PartialEq, Eq, Structural)]
pub enum Backdrop {
    /// Cover the previous frame completely.
    Opaque,
    /// Draw a near-transparent layer over the previous frame, leaving trails.
    Fade,
}

/// The point at local offset `(lx, ly)` world units from `pos`, in the frame
/// whose first axis is the heading `d`.
pub open spec fn place(pos: Vec2, d: Vec2, lx: int, ly: int) -> Vec2 {
    Vec2 { x: (pos.x + lx * d.x - ly * d.y) as i64, y: (pos.y + lx * d.y + ly * d.x) as i64 }
}

pub open spec fn triangle_spec(a: Agent) -> Triangle {
    Triangle {
        tip: place(a.position, a.direction, SHAPE_TIP as int, 0),
        left: place(a.position, a.direction, -SHAPE_BACK as int, SHAPE_HALF_WIDTH as int),
        right: place(a.position, a.direction, -SHAPE_BACK as int, -SHAPE_HALF_WIDTH as int),
    }
}

fn place_exec(pos: Vec2, d: Vec2, lx: i64, ly: i64) -> (r: Vec2)
    requires
        in_world(pos),
        bounded(d, SCALE as int),
        -8 <= lx <= 8,
        -8 <= ly <= 8,
    ensures
        r == place(pos, d, lx as int, ly as int),
{
    assert(-8 * SCALE <= lx * d.x <= 8 * SCALE && -8 * SCALE <= ly * d.y <= 8 * SCALE
        && -8 * SCALE <= lx * d.y <= 8 * SCALE && -8 * SCALE <= ly * d.x <= 8 * SCALE)
        by (nonlinear_arith)
        requires
            -8 <= lx <= 8,
            -8 <= ly <= 8,
            bounded(d, SCALE as int),
    ;
    Vec2 { x: pos.x + lx * d.x - ly * d.y, y: pos.y + lx * d.y + ly * d.x }
}

/// The agent's triangle: tip ahead along the heading, base behind.
pub fn ant_triangle(a: &Agent) -> (r: Triangle)
    requires
        agent_ok(*a),
    ensures
        r == triangle_spec(*a),
{
    Triangle {
        tip: place_exec(a.position, a.direction, SHAPE_TIP, 0),
        left: place_exec(a.position, a.direction, -SHAPE_BACK, SHAPE_HALF_WIDTH),
        right: place_exec(a.position, a.direction, -SHAPE_BACK, -SHAPE_HALF_WIDTH),
    }
}

/// The agent's sensing rays, in scan order: entry `m` is the ray at offset
/// `ray_offset(m)`.
pub fn sensing_rays(a: &Agent) -> (r: Vec<Segment>)
    requires
        agent_ok(*a),
    ensures
        r@.len() == RAY_COUNT,
        forall|m: int| 0 <= m < RAY_COUNT ==> #[trigger] r@[m] == (Segment {
            start: a.position,
            end: ray_end_spec(a.position, a.direction, ray_offset(m)),
        }),
{
    let mut rays: Vec<Segment> = Vec::with_capacity(RAY_COUNT as usize);
    let mut m: i64 = 0;
    while m < RAY_COUNT
        invariant
            0 <= m <= RAY_COUNT,
            agent_ok(*a),
            rays@.len() == m,
            forall|j: int| 0 <= j < m ==> #[trigger] rays@[j] == (Segment {
                start: a.position,
                end: ray_end_spec(a.position, a.direction, ray_offset(j)),
            }),
        decreases RAY_COUNT - m,
    {
        let k: i64 = if m % 2 == 1 { -((m + 1) / 2) } else { m / 2 };
        assert(k as int == ray_offset(m as int));
        let end = ray_end(a.position, a.direction, k);
        rays.push(Segment { start: a.position, end });
        m = m + 1;
    }
    rays
}

/// The agent's collider outline.
pub fn collider_circle(a: &Agent) -> (r: Circle)
    ensures
        r == (Circle { center: a.position, radius: (ANT_COLLIDER_RADIUS * SCALE) as i64 }),
{
    Circle { center: a.position, radius: ANT_COLLIDER_RADIUS * SCALE }
}

/// The background is opaque on the first frame and whenever trails are off.
pub fn backdrop(first_frame: bool, enable_trails: bool) -> (r: Backdrop)
    ensures
        r == (if first_frame || !enable_trails { Backdrop::Opaque } else { Backdrop::Fade }),
{
    if first_frame || !enable_trails {
        Backdrop::Opaque
    } else {
        Backdrop::Fade
    }
}

} // verus!
