//! Run-time settings and the time and angle quantities derived from them.
use vstd::prelude::*;
use crate::geometry::{abs, sgn};
use crate::steering::{DT_MAX, MICROS, STEPS};

verus! {

/// Lowest simulation speed, in thousandths.
pub const SIM_SPEED_MIN: i64 = 100;

/// Highest simulation speed, in thousandths.
pub const SIM_SPEED_MAX: i64 = 3000;

/// Angle between neighbouring rays, in microradians (`PI / 80`).
pub const CONE_URAD: i64 = 39270;

/// Steering turn rate per radian of ray offset.
pub const STEER_MULTIPLIER: i64 = 55;

/// Largest steering turn rate, in microradians per second.
pub const MAX_ROTATION_URAD: i64 = 10_000_000;

/// Largest magnitude of a noise sample, in millionths.
pub const NOISE_MAX: i64 = 1_000_000;

/// What the user can adjust while the simulation runs.
#[derive(Clone, Copy, Debug, PartialEq, Eq, Structural)]
pub struct Settings {
    /// Time dilation, in thousandths (1000 is real time).
    pub simulation_speed: i64,
    pub enable_trails: bool,
    pub debug_mode: bool,
}

pub open spec fn clamp_spec(v: int, lo: int, hi: int) -> int {
    if v < lo { lo } else if v > hi { hi } else { v }
}

/// `a * b / c` rounded toward zero, for `c > 0`.
pub open spec fn mul_div(a: int, b: int, c: int) -> int {
    sgn(a * b) * ((abs(a) * abs(b)) / c)
}

impl Settings {
    /// Real-time speed, no trails, no debug overlay.
    pub fn new() -> (r: Settings)
        ensures
            r.simulation_speed == 1000,
            !r.enable_trails,
            !r.debug_mode,
    {
        Settings { simulation_speed: 1000, enable_trails: false, debug_mode: false }
    }

    /// Sets the simulation speed, held within `SIM_SPEED_MIN..=SIM_SPEED_MAX`.
    pub fn set_simulation_speed(&mut self, speed: i64)
        ensures
            final(self).simulation_speed == clamp_spec(speed as int, SIM_SPEED_MIN as int, SIM_SPEED_MAX as int),
            final(self).enable_trails == old(self).enable_trails,
            final(self).debug_mode == old(self).debug_mode,
    {
        self.simulation_speed = clamp_simulation_speed(speed);
    }
}

/// `speed` held within `SIM_SPEED_MIN..=SIM_SPEED_MAX`.
pub fn clamp_simulation_speed(speed: i64) -> (r: i64)
    ensures
        r == clamp_spec(speed as int, SIM_SPEED_MIN as int, SIM_SPEED_MAX as int),
{
    if speed < SIM_SPEED_MIN {
        SIM_SPEED_MIN
    } else if speed > SIM_SPEED_MAX {
        SIM_SPEED_MAX
    } else {
        speed
    }
}

/// The time step of a tick, in microseconds: elapsed wall time times the
/// simulation speed, capped at `DT_MAX`.
pub fn delta_time(elapsed_us: i64, settings: &Settings) -> (r: i64)
    requires
        0 <= elapsed_us,
        SIM_SPEED_MIN <= settings.simulation_speed <= SIM_SPEED_MAX,
    ensures
        r == clamp_spec((elapsed_us * settings.simulation_speed) / 1000, 0, DT_MAX as int),
        0 <= r <= DT_MAX,
{
    let e: i128 = elapsed_us as i128;
    let p: i128 = settings.simulation_speed as i128;
    assert(e * p <= 0x8000_0000_0000_0000 * 3000) by (nonlinear_arith)
        requires
            0 <= e < 0x8000_0000_0000_0000,
            0 <= p <= 3000,
    ;
    let scaled: i128 = (e * p) / 1000;
    if scaled > DT_MAX as i128 {
        DT_MAX
    } else {
        scaled as i64
    }
}

proof fn lemma_mul_div_parts(a: int, b: int)
    ensures
        abs(a) * abs(b) >= 0,
        sgn(a * b) == sgn(a) * sgn(b),
{
    assert(abs(a) * abs(b) >= 0 && sgn(a * b) == sgn(a) * sgn(b)) by (nonlinear_arith)
        requires
            abs(a) == (if a < 0 { -a } else { a }),
            abs(b) == (if b < 0 { -b } else { b }),
            sgn(a) == (if a < 0 { -1int } else if a == 0 { 0int } else { 1int }),
            sgn(b) == (if b < 0 { -1int } else if b == 0 { 0int } else { 1int }),
            sgn(a * b) == (if a * b < 0 { -1int } else if a * b == 0 { 0int } else { 1int }),
    ;
}

/// `a * b / MICROS` rounded toward zero, for `|a| <= 2^40` and `0 <= b <= DT_MAX`.
fn scale_by_time(a: i64, b: i64) -> (r: i64)
    requires
        -0x100_0000_0000 <= a <= 0x100_0000_0000,
        0 <= b <= DT_MAX,
    ensures
        r == mul_div(a as int, b as int, MICROS as int),
{
    proof {
        lemma_mul_div_parts(a as int, b as int);
    }
    let m: i128 = if a < 0 { -(a as i128) } else { a as i128 };
    assert(m * b <= 0x100_0000_0000 * 1_000_000) by (nonlinear_arith)
        requires
            0 <= m <= 0x100_0000_0000,
            0 <= b <= 1_000_000,
    ;
    let q: i128 = (m * b as i128) / 1_000_000;
    assert(q <= 0x100_0000_0000) by (nonlinear_arith)
        requires
            q == (m * b) / 1_000_000,
            0 <= m * b <= 0x100_0000_0000 * 1_000_000,
    ;
    assert(m == abs(a as int) && b == abs(b as int));
    if a < 0 && b > 0 {
        assert(a * b < 0) by (nonlinear_arith)
            requires
                a < 0,
                b > 0,
        ;
        -(q as i64)
    } else if a == 0 || b == 0 {
        assert(a * b == 0) by (nonlinear_arith)
            requires
                a == 0 || b == 0,
        ;
        assert(m * b == 0) by (nonlinear_arith)
            requires
                m == 0 || b == 0,
        ;
        0
    } else {
        assert(a * b > 0) by (nonlinear_arith)
            requires
                a > 0,
                b > 0,
        ;
        q as i64
    }
}

/// The steering turn rate for ray offset `k`, in microradians per second:
/// `k * CONE_URAD * STEER_MULTIPLIER`, held within `MAX_ROTATION_URAD`.
pub open spec fn steering_rate(k: int) -> int {
    clamp_spec(k * CONE_URAD * STEER_MULTIPLIER, -MAX_ROTATION_URAD as int, MAX_ROTATION_URAD as int)
}

/// The steering angle for ray offset `k` over a time step of `dt` microseconds,
/// in microradians.
pub fn steering_angle(k: i64, dt: i64) -> (r: i64)
    requires
        -STEPS <= k <= STEPS,
        0 <= dt <= DT_MAX,
    ensures
        r == mul_div(steering_rate(k as int), dt as int, MICROS as int),
{
    let raw: i64 = k * CONE_URAD * STEER_MULTIPLIER;
    let rate: i64 = if raw < -MAX_ROTATION_URAD {
        -MAX_ROTATION_URAD
    } else if raw > MAX_ROTATION_URAD {
        MAX_ROTATION_URAD
    } else {
        raw
    };
    scale_by_time(rate, dt)
}

/// The wander angle for a noise sample (in millionths) over a time step of
/// `dt` microseconds, in microradians.
pub fn wander_angle(noise: i64, dt: i64) -> (r: i64)
    requires
        -NOISE_MAX <= noise <= NOISE_MAX,
        0 <= dt <= DT_MAX,
    ensures
        r == mul_div(noise as int, dt as int, MICROS as int),
{
    scale_by_time(noise, dt)
}

} // verus!
