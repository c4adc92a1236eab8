//! Fixed-point 2D vectors, square roots, normalisation and segment distance.
//!
//! One world unit is `SCALE` fixed-point units, and a unit vector has length
//! `SCALE` (within `UNIT_SLACK`).
use vstd::prelude::*;
use vstd::arithmetic::div_mod::{lemma_fundamental_div_mod, lemma_mod_pos_bound};

verus! {

/// Fixed-point units per world unit; also the length of a unit vector.
pub const SCALE: i64 = 65536;

/// Largest magnitude of a coordinate of a position (2^40 fixed-point units).
pub const POS_MAX: i64 = 1_099_511_627_776;

/// Largest magnitude of a component of a vector handed to `normalize`.
pub const RAW_MAX: i64 = 1_099_511_627_776;

/// Largest magnitude of a component of a segment or an offset in `within_segment`.
pub const SPAN_MAX: i64 = 1_073_741_824;

/// Allowed deviation of `|v|^2` from `SCALE^2` for a unit vector, in multiples of `SCALE`.
pub const UNIT_SLACK: i64 = 8;

/// A 2D vector or point in fixed-point units.
#[derive(Clone, Copy, Debug, PartialEq, Eq, Structural)]
pub struct Vec2 {
    pub x: i64,
    pub y: i64,
}

/// A rotation given by its cosine and sine, both scaled by `SCALE`.
#[derive(Clone, Copy, Debug, PartialEq, Eq, Structural)]
pub struct Turn {
    pub cos: i64,
    pub sin: i64,
}

pub open spec fn abs(a: int) -> int {
    if a < 0 { -a } else { a }
}

pub open spec fn sgn(a: int) -> int {
    if a < 0 { -1 } else if a == 0 { 0 } else { 1 }
}

pub open spec fn norm2(v: Vec2) -> int {
    v.x * v.x + v.y * v.y
}

pub open spec fn dist2(a: Vec2, b: Vec2) -> int {
    (a.x - b.x) * (a.x - b.x) + (a.y - b.y) * (a.y - b.y)
}

pub open spec fn bounded(v: Vec2, m: int) -> bool {
    -m <= v.x <= m && -m <= v.y <= m
}

/// A position inside the representable world.
pub open spec fn in_world(p: Vec2) -> bool {
    bounded(p, POS_MAX as int)
}

/// A unit vector up to rounding: `|v|^2` within `UNIT_SLACK * SCALE` of `SCALE^2`.
pub open spec fn unit_like(v: Vec2) -> bool {
    &&& SCALE * SCALE - UNIT_SLACK * SCALE <= norm2(v) <= SCALE * SCALE + UNIT_SLACK * SCALE
    &&& bounded(v, SCALE as int)
}

pub open spec fn turn_ok(t: Turn) -> bool {
    -SCALE <= t.cos <= SCALE && -SCALE <= t.sin <= SCALE
}

/// `n` has integer square root `r`.
pub open spec fn is_root(n: int, r: int) -> bool {
    0 <= r && r * r <= n < (r + 1) * (r + 1)
}

/// The integer square root (floor of the real square root).
pub open spec fn int_sqrt(n: nat) -> nat
    decreases n,
{
    if n == 0 {
        0
    } else {
        let r = 2 * int_sqrt(n / 4);
        if (r + 1) * (r + 1) <= n { (r + 1) as nat } else { r }
    }
}

/// `|x * y| <= m * m` where `|x|, |y| <= m`.
pub proof fn lemma_product_bound(x: int, y: int, m: int)
    requires
        -m <= x <= m,
        -m <= y <= m,
    ensures
        -(m * m) <= x * y <= m * m,
{
    assert(-(m * m) <= x * y <= m * m) by (nonlinear_arith)
        requires
            -m <= x <= m,
            -m <= y <= m,
    ;
}

/// `v` rotated by `t`, before division by `SCALE` (its length is `SCALE` times too large).
pub open spec fn rotate_raw_spec(v: Vec2, t: Turn) -> Vec2 {
    Vec2 { x: (v.x * t.cos - v.y * t.sin) as i64, y: (v.x * t.sin + v.y * t.cos) as i64 }
}

/// One component of the unit vector along `v`, where `len` is the integer
/// square root of `|v * SCALE|^2`; rounded toward zero.
pub open spec fn unit_component(c: int, len: int) -> int {
    sgn(c) * ((abs(c) * SCALE * SCALE) / len)
}

/// The unit vector along `v` (scaled by `SCALE`), or `fallback` where `v` is zero.
pub open spec fn normalize_spec(v: Vec2, fallback: Vec2) -> Vec2 {
    if v.x == 0 && v.y == 0 {
        fallback
    } else {
        let len = int_sqrt((norm2(v) * SCALE * SCALE) as nat) as int;
        Vec2 { x: unit_component(v.x as int, len) as i64, y: unit_component(v.y as int, len) as i64 }
    }
}

/// Whether `p` lies within distance `r` of the segment from `a` to `b`,
/// by the closed form of the squared distance from a point to a segment.
pub open spec fn within_segment_spec(a: Vec2, b: Vec2, p: Vec2, r: int) -> bool {
    let dx = b.x - a.x;
    let dy = b.y - a.y;
    let wx = p.x - a.x;
    let wy = p.y - a.y;
    let dd = dx * dx + dy * dy;
    let t = wx * dx + wy * dy;
    let cross = wx * dy - wy * dx;
    if dd == 0 || t <= 0 {
        wx * wx + wy * wy <= r * r
    } else if t >= dd {
        dist2(p, b) <= r * r
    } else {
        cross * cross <= r * r * dd
    }
}

proof fn lemma_int_sqrt_is_root(n: nat)
    ensures
        is_root(n as int, int_sqrt(n) as int),
    decreases n,
{
    if n > 0 {
        let q = n / 4;
        lemma_int_sqrt_is_root(q);
        let r0 = int_sqrt(q) as int;
        let r = 2 * r0;
        assert(r * r <= n && n < (r + 2) * (r + 2)) by (nonlinear_arith)
            requires
                r0 * r0 <= q,
                q < (r0 + 1) * (r0 + 1),
                r == 2 * r0,
                q == n / 4,
                n >= 0,
        ;
        assert(r >= 0);
    }
}

proof fn lemma_root_unique(n: int, a: int, b: int)
    requires
        is_root(n, a),
        is_root(n, b),
    ensures
        a == b,
{
    if a < b {
        assert((a + 1) * (a + 1) <= b * b) by (nonlinear_arith)
            requires
                0 <= a + 1 <= b,
        ;
    } else if b < a {
        assert((b + 1) * (b + 1) <= a * a) by (nonlinear_arith)
            requires
                0 <= b + 1 <= a,
        ;
    }
}

/// Integer square root by bisection.
pub fn isqrt(n: u128) -> (r: u128)
    ensures
        r == int_sqrt(n as nat),
{
    let mut lo: u128 = 0;
    let mut hi: u128 = 0x1_0000_0000_0000_0000;
    assert(n < hi * hi) by (nonlinear_arith)
        requires
            hi == 0x1_0000_0000_0000_0000u128,
    ;
    while hi - lo > 1
        invariant
            lo < hi <= 0x1_0000_0000_0000_0000,
            lo * lo <= n,
            n < hi * hi,
        decreases hi - lo,
    {
        let mid: u128 = lo + (hi - lo) / 2;
        assert(mid * mid < 0x1_0000_0000_0000_0000 * 0x1_0000_0000_0000_0000) by (nonlinear_arith)
            requires
                mid < 0x1_0000_0000_0000_0000u128,
        ;
        if mid * mid <= n {
            lo = mid;
        } else {
            hi = mid;
        }
    }
    proof {
        assert(hi == lo + 1);
        lemma_int_sqrt_is_root(n as nat);
        lemma_root_unique(n as int, lo as int, int_sqrt(n as nat) as int);
    }
    lo
}


/// Squared bounds that hold for one component: `a = x * s / len` with `x <= len`.
proof fn lemma_component(x: int, s: int, len: int, a: int)
    requires
        0 <= x <= len,
        0 < len,
        0 < s,
        a == (x * s) / len,
    ensures
        0 <= a <= s,
        a * a * (len * len) <= x * x * (s * s),
        x * x * (s * s) < (a + 1) * (a + 1) * (len * len),
{
    lemma_fundamental_div_mod(x * s, len);
    lemma_mod_pos_bound(x * s, len);
    let m = (x * s) % len;
    assert(x * s >= 0) by (nonlinear_arith)
        requires
            x >= 0,
            s > 0,
    ;
    assert(0 <= a <= s && a * len <= x * s < (a + 1) * len) by (nonlinear_arith)
        requires
            x * s == len * a + m,
            0 <= m < len,
            x * s >= 0,
            x <= len,
            len > 0,
            s > 0,
    ;
    assert(a * a * (len * len) <= x * x * (s * s) && x * x * (s * s) < (a + 1) * (a + 1) * (len * len))
        by (nonlinear_arith)
        requires
            0 <= a * len <= x * s,
            x * s < (a + 1) * len,
            a >= 0,
            len > 0,
    ;
}

/// Rounding toward zero keeps the squared length of a normalised vector
/// within `UNIT_SLACK * SCALE` of `SCALE^2`.
proof fn lemma_unit_bounds(x: int, y: int, len: int, a: int, b: int)
    requires
        x >= 0,
        y >= 0,
        x * x + y * y >= SCALE * SCALE,
        is_root(x * x + y * y, len),
        a == (x * SCALE) / len,
        b == (y * SCALE) / len,
    ensures
        len >= SCALE,
        0 <= a <= SCALE,
        0 <= b <= SCALE,
        SCALE * SCALE - UNIT_SLACK * SCALE <= a * a + b * b <= SCALE * SCALE + UNIT_SLACK * SCALE,
{
    let s = SCALE as int;
    let n = x * x + y * y;
    assert(len >= s) by (nonlinear_arith)
        requires
            n >= s * s,
            n < (len + 1) * (len + 1),
            len >= 0,
            s > 0,
    ;
    assert(x <= len && y <= len) by (nonlinear_arith)
        requires
            n == x * x + y * y,
            n < (len + 1) * (len + 1),
            x >= 0,
            y >= 0,
            len >= 0,
    ;
    lemma_component(x, s, len, a);
    lemma_component(y, s, len, b);
    let l2 = len * len;
    let s2 = s * s;
    assert(n * s2 <= (l2 + 2 * len) * s2) by (nonlinear_arith)
        requires
            n < (len + 1) * (len + 1),
            l2 == len * len,
            s2 >= 0,
    ;
    assert(s * l2 >= len * s2) by (nonlinear_arith)
        requires
            len >= s,
            s > 0,
            l2 == len * len,
            s2 == s * s,
    ;
    let q = a * a + b * b;
    assert(l2 > 0) by (nonlinear_arith)
        requires
            l2 == len * len,
            len > 0,
    ;
    assert(q * l2 == a * a * l2 + b * b * l2) by (nonlinear_arith)
        requires
            q == a * a + b * b,
    ;
    assert(q * l2 <= (s2 + 2 * s) * l2) by (nonlinear_arith)
        requires
            q * l2 <= (l2 + 2 * len) * s2,
            s * l2 >= len * s2,
    ;
    assert(q <= s2 + 2 * s) by (nonlinear_arith)
        requires
            q * l2 <= (s2 + 2 * s) * l2,
            l2 > 0,
    ;
    assert(s2 < (a + 1) * (a + 1) + (b + 1) * (b + 1)) by (nonlinear_arith)
        requires
            x * x * s2 < (a + 1) * (a + 1) * l2,
            y * y * s2 < (b + 1) * (b + 1) * l2,
            l2 <= n,
            n == x * x + y * y,
            l2 == len * len,
            s2 == s * s,
            len > 0,
            s > 0,
    ;
    assert(q >= s2 - 2 * a - 2 * b - 1) by (nonlinear_arith)
        requires
            s2 < (a + 1) * (a + 1) + (b + 1) * (b + 1),
            q == a * a + b * b,
    ;
}

/// The unit vector along a non-zero `v` has length `SCALE` up to rounding, and
/// the square root it divides by is positive.
pub proof fn lemma_normalize_unit(v: Vec2, fallback: Vec2)
    requires
        bounded(v, RAW_MAX as int),
        !(v.x == 0 && v.y == 0),
    ensures
        int_sqrt((norm2(v) * SCALE * SCALE) as nat) > 0,
        -SCALE <= unit_component(v.x as int, int_sqrt((norm2(v) * SCALE * SCALE) as nat) as int) <= SCALE,
        -SCALE <= unit_component(v.y as int, int_sqrt((norm2(v) * SCALE * SCALE) as nat) as int) <= SCALE,
        unit_like(normalize_spec(v, fallback)),
{
    let sx = abs(v.x as int) * SCALE;
    let sy = abs(v.y as int) * SCALE;
    let n = norm2(v) * SCALE * SCALE;
    assert(n == sx * sx + sy * sy && n >= SCALE * SCALE) by (nonlinear_arith)
        requires
            n == (v.x * v.x + v.y * v.y) * SCALE * SCALE,
            sx == abs(v.x as int) * SCALE,
            sy == abs(v.y as int) * SCALE,
            abs(v.x as int) == v.x || abs(v.x as int) == -v.x,
            abs(v.y as int) == v.y || abs(v.y as int) == -v.y,
            v.x != 0 || v.y != 0,
    ;
    lemma_int_sqrt_is_root(n as nat);
    let len = int_sqrt(n as nat) as int;
    lemma_unit_bounds(sx, sy, len, (sx * SCALE) / len, (sy * SCALE) / len);
    assert(abs(v.x as int) * SCALE * SCALE == sx * SCALE);
    assert(abs(v.y as int) * SCALE * SCALE == sy * SCALE);
    let r = normalize_spec(v, fallback);
    let qx = (sx * SCALE) / len;
    let qy = (sy * SCALE) / len;
    assert(r.x == sgn(v.x as int) * qx);
    assert(r.y == sgn(v.y as int) * qy);
    assert(norm2(r) == qx * qx + qy * qy) by (nonlinear_arith)
        requires
            r.x == sgn(v.x as int) * qx,
            r.y == sgn(v.y as int) * qy,
            sgn(v.x as int) == 1 || sgn(v.x as int) == -1 || (sgn(v.x as int) == 0 && v.x == 0),
            sgn(v.y as int) == 1 || sgn(v.y as int) == -1 || (sgn(v.y as int) == 0 && v.y == 0),
            v.x == 0 ==> qx == 0,
            v.y == 0 ==> qy == 0,
    ;
    assert(-SCALE <= r.x <= SCALE && -SCALE <= r.y <= SCALE) by (nonlinear_arith)
        requires
            r.x == sgn(v.x as int) * qx,
            r.y == sgn(v.y as int) * qy,
            0 <= qx <= SCALE,
            0 <= qy <= SCALE,
            sgn(v.x as int) == 1 || sgn(v.x as int) == -1 || sgn(v.x as int) == 0,
            sgn(v.y as int) == 1 || sgn(v.y as int) == -1 || sgn(v.y as int) == 0,
    ;
}

/// Unit vector along `v` (length `SCALE`), or `fallback` where `v` is zero.
pub fn normalize(v: Vec2, fallback: Vec2) -> (r: Vec2)
    requires
        bounded(v, RAW_MAX as int),
    ensures
        r == normalize_spec(v, fallback),
        !(v.x == 0 && v.y == 0) ==> unit_like(r),
{
    if v.x == 0 && v.y == 0 {
        return fallback;
    }
    let ux: u128 = if v.x < 0 { (-(v.x as i128)) as u128 } else { v.x as u128 };
    let uy: u128 = if v.y < 0 { (-(v.y as i128)) as u128 } else { v.y as u128 };
    let sx: u128 = ux * (SCALE as u128);
    let sy: u128 = uy * (SCALE as u128);
    assert(sx * sx + sy * sy <= 0x4_0000_0000_0000_0000_0000_0000_0000) by (nonlinear_arith)
        requires
            sx <= 0x100_0000_0000_0000u128,
            sy <= 0x100_0000_0000_0000u128,
    ;
    let n: u128 = sx * sx + sy * sy;
    assert(n >= (SCALE * SCALE) as u128) by (nonlinear_arith)
        requires
            n == sx * sx + sy * sy,
            sx == ux * 65536,
            sy == uy * 65536,
            ux >= 1 || uy >= 1,
    ;
    let len = isqrt(n);
    proof {
        lemma_int_sqrt_is_root(n as nat);
        lemma_normalize_unit(v, fallback);
        assert(norm2(v) * SCALE * SCALE == n) by (nonlinear_arith)
            requires
                n == sx * sx + sy * sy,
                sx == ux * 65536,
                sy == uy * 65536,
                ux == v.x || ux == -v.x,
                uy == v.y || uy == -v.y,
        ;
        lemma_unit_bounds(sx as int, sy as int, len as int, (sx * 65536) as int / len as int,
            (sy * 65536) as int / len as int);
        assert(ux * 65536 * 65536 == abs(v.x as int) * SCALE * SCALE);
        assert(uy * 65536 * 65536 == abs(v.y as int) * SCALE * SCALE);
    }
    let qx: u128 = (sx * (SCALE as u128)) / len;
    let qy: u128 = (sy * (SCALE as u128)) / len;
    proof {
        assert(qx == (abs(v.x as int) * SCALE * SCALE) / (len as int));
        assert(qy == (abs(v.y as int) * SCALE * SCALE) / (len as int));
        assert(qx <= SCALE && qy <= SCALE);
    }
    let x: i64 = if v.x < 0 { -(qx as i64) } else { qx as i64 };
    let y: i64 = if v.y < 0 { -(qy as i64) } else { qy as i64 };
    let r = Vec2 { x, y };
    proof {
        assert(len as int == int_sqrt((norm2(v) * SCALE * SCALE) as nat) as int);
        assert(x as int == unit_component(v.x as int, len as int));
        assert(y as int == unit_component(v.y as int, len as int));
        assert(norm2(r) == qx * qx + qy * qy) by (nonlinear_arith)
            requires
                r.x == x,
                r.y == y,
                x == qx || x == -qx,
                y == qy || y == -qy,
        ;
    }
    r
}


/// `v` rotated by `t`, left `SCALE` times too long; `normalize` takes it back to unit length.
pub fn rotate_raw(v: Vec2, t: Turn) -> (r: Vec2)
    requires
        bounded(v, SCALE as int),
        turn_ok(t),
    ensures
        r == rotate_raw_spec(v, t),
        bounded(r, 2 * SCALE * SCALE),
{
    proof {
        assert(-SCALE * SCALE <= v.x * t.cos <= SCALE * SCALE && -SCALE * SCALE <= v.y * t.sin <= SCALE * SCALE
            && -SCALE * SCALE <= v.x * t.sin <= SCALE * SCALE && -SCALE * SCALE <= v.y * t.cos <= SCALE * SCALE)
            by (nonlinear_arith)
            requires
                bounded(v, SCALE as int),
                turn_ok(t),
        ;
    }
    Vec2 { x: v.x * t.cos - v.y * t.sin, y: v.x * t.sin + v.y * t.cos }
}


/// Squared distance between two points of the world.
pub fn distance_squared(a: Vec2, b: Vec2) -> (r: i128)
    requires
        bounded(a, 2 * POS_MAX),
        bounded(b, 2 * POS_MAX),
    ensures
        r == dist2(a, b),
{
    let dx = a.x as i128 - b.x as i128;
    let dy = a.y as i128 - b.y as i128;
    proof {
        lemma_product_bound(dx as int, dx as int, 4 * POS_MAX);
        lemma_product_bound(dy as int, dy as int, 4 * POS_MAX);
    }
    dx * dx + dy * dy
}

/// Distance between two points of the world, rounded down.
pub fn distance(a: Vec2, b: Vec2) -> (r: u128)
    requires
        bounded(a, 2 * POS_MAX),
        bounded(b, 2 * POS_MAX),
    ensures
        r == int_sqrt(dist2(a, b) as nat),
{
    let d2 = distance_squared(a, b);
    assert(d2 >= 0) by (nonlinear_arith)
        requires
            d2 == (a.x - b.x) * (a.x - b.x) + (a.y - b.y) * (a.y - b.y),
    ;
    isqrt(d2 as u128)
}

/// Whether `p` lies within distance `r` of the segment from `a` to `b`.
pub fn within_segment(a: Vec2, b: Vec2, p: Vec2, r: i64) -> (res: bool)
    requires
        bounded(a, 2 * POS_MAX),
        bounded(b, 2 * POS_MAX),
        bounded(p, 2 * POS_MAX),
        -SPAN_MAX <= b.x - a.x <= SPAN_MAX,
        -SPAN_MAX <= b.y - a.y <= SPAN_MAX,
        -SPAN_MAX <= p.x - a.x <= SPAN_MAX,
        -SPAN_MAX <= p.y - a.y <= SPAN_MAX,
        0 <= r <= SPAN_MAX,
    ensures
        res == within_segment_spec(a, b, p, r as int),
{
    let dx = b.x as i128 - a.x as i128;
    let dy = b.y as i128 - a.y as i128;
    let wx = p.x as i128 - a.x as i128;
    let wy = p.y as i128 - a.y as i128;
    let rr = r as i128;
    let m: i128 = 0x4000_0000;
    proof {
        lemma_product_bound(dx as int, dx as int, m as int);
        lemma_product_bound(dy as int, dy as int, m as int);
        lemma_product_bound(wx as int, wx as int, m as int);
        lemma_product_bound(wy as int, wy as int, m as int);
        lemma_product_bound(rr as int, rr as int, m as int);
        lemma_product_bound(wx as int, dx as int, m as int);
        lemma_product_bound(wy as int, dy as int, m as int);
        lemma_product_bound(wx as int, dy as int, m as int);
        lemma_product_bound(wy as int, dx as int, m as int);
    }
    let dd = dx * dx + dy * dy;
    let t = wx * dx + wy * dy;
    let cross = wx * dy - wy * dx;
    let r2 = rr * rr;
    if dd == 0 || t <= 0 {
        wx * wx + wy * wy <= r2
    } else if t >= dd {
        distance_squared(p, b) <= r2
    } else {
        proof {
            lemma_product_bound(cross as int, cross as int, 0x2000_0000_0000_0000);
            lemma_product_bound(r2 as int, dd as int, 0x2000_0000_0000_0000);
        }
        cross * cross <= r2 * dd
    }
}

} // verus!
