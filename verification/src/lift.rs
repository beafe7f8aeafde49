//! Lift car motion: a bounded-acceleration velocity controller, the door
//! state the docking detector drives, and the clamped position step that
//! moves the car along the shaft.

use vstd::prelude::*;
use crate::floors::{dist, MAX_POS};
use crate::game_clock::MAX_TIME_PER_DAY_MS;

verus! {

/// Upper bound on the magnitude of a commanded or held velocity, in
/// milli-units per second.
pub const MAX_VEL: i64 = 1_000_000_000;

/// Upper bound on a configured acceleration limit, in milli-units per second
/// per second.
pub const MAX_ACCEL: i64 = 1_000_000_000;

/// The lift's door phase, driven by the floor-proximity detector. `Closing`
/// is declared for completeness; nothing in the detector reaches it.
#[derive(Clone, Copy, Debug, Eq, PartialEq, Structural)]
pub enum LiftMode {
    Free,
    Opening,
    Open,
    Closing,
}

/// The lift car's travel bounds along the shaft, in milli-units.
#[derive(Clone, Copy, Debug, Eq, PartialEq, Structural)]
pub struct LiftLimits {
    pub min: i64,
    pub max: i64,
}

impl LiftLimits {
    pub open spec fn wf(self) -> bool {
        -MAX_POS <= self.min <= self.max <= MAX_POS
    }
}

/// Horizontal centre of the shaft, in milli-units; the car's x position is
/// pinned to it every tick.
#[derive(Clone, Copy, Debug, Eq, PartialEq, Structural)]
pub struct ShaftCentreX(pub i64);

/// The lift's scalar velocity with its configured bounds and acceleration
/// limit, in milli-units per second.
#[derive(Clone, Copy, Debug)]
pub struct LinearVelocity {
    pub velocity: i64,
    pub bounds: (i64, i64),
    pub max_accel: i64,
}

/// Velocity change allowed over one tick: `max_accel * delta`, truncated to
/// whole milli-units per second.
pub open spec fn accel_cap(max_accel: i64, delta_ms: u64) -> int {
    max_accel * delta_ms / 1000
}

impl LinearVelocity {
    pub open spec fn wf(self) -> bool {
        &&& -MAX_VEL <= self.velocity <= MAX_VEL
        &&& 0 <= self.max_accel <= MAX_ACCEL
    }

    pub fn new(bounds: (i64, i64), max_accel: i64) -> (r: LinearVelocity)
        requires
            0 <= max_accel <= MAX_ACCEL,
        ensures
            r.wf(),
            r.velocity == 0,
            r.bounds == bounds,
            r.max_accel == max_accel,
    {
        LinearVelocity { bounds, max_accel, velocity: 0 }
    }

    /// Drive the velocity toward `target_x`. When the change fits under the
    /// acceleration limit the velocity snaps to the target exactly; otherwise
    /// it moves by exactly the per-tick acceleration cap. Returns the
    /// acceleration actually applied (milli-units per second per second),
    /// clamped to the limit when saturating.
    pub fn update(&mut self, target_x: i64, delta_ms: u64) -> (accel: i64)
        requires
            old(self).wf(),
            -MAX_VEL <= target_x <= MAX_VEL,
            1 <= delta_ms <= MAX_TIME_PER_DAY_MS,
        ensures
            final(self).wf(),
            final(self).bounds == old(self).bounds,
            final(self).max_accel == old(self).max_accel,
            ({
                let needed = dist(target_x as int, old(self).velocity as int);
                &&& (needed * 1000 <= old(self).max_accel * delta_ms ==> {
                    &&& final(self).velocity == target_x
                    &&& accel == if target_x >= old(self).velocity {
                        needed * 1000 / delta_ms as int
                    } else {
                        -(needed * 1000 / delta_ms as int)
                    }
                })
                &&& (needed * 1000 > old(self).max_accel * delta_ms ==> {
                    &&& (target_x > old(self).velocity ==> final(self).velocity == old(
                        self,
                    ).velocity + accel_cap(old(self).max_accel, delta_ms) && accel == old(
                        self,
                    ).max_accel)
                    &&& (target_x < old(self).velocity ==> final(self).velocity == old(
                        self,
                    ).velocity - accel_cap(old(self).max_accel, delta_ms) && accel == -old(
                        self,
                    ).max_accel)
                })
            }),
    {
        let needed_pos = self.velocity <= target_x;
        let mag: u64 = if needed_pos {
            (target_x - self.velocity) as u64
        } else {
            (self.velocity - target_x) as u64
        };
        let lhs: u128 = (mag as u128) * 1000;
        proof {
            assert((self.max_accel as int) * (delta_ms as int) <= 1_000_000_000
                * 1_000_000_000_000) by (nonlinear_arith)
                requires
                    0 <= self.max_accel <= 1_000_000_000,
                    0 <= delta_ms <= 1_000_000_000_000,
            ;
            assert((self.max_accel as int) * (delta_ms as int) >= 0) by (nonlinear_arith)
                requires
                    0 <= self.max_accel,
                    0 <= delta_ms,
            ;
        }
        let rhs: u128 = (self.max_accel as u128) * (delta_ms as u128);
        if lhs <= rhs {
            self.velocity = target_x;
            let amag: u64 = mag * 1000 / delta_ms;
            proof {
                assert((mag as int) * 1000 / (delta_ms as int) <= (mag as int) * 1000)
                    by (nonlinear_arith)
                    requires
                        1 <= delta_ms,
                        0 <= mag,
                ;
            }
            if needed_pos {
                amag as i64
            } else {
                -(amag as i64)
            }
        } else {
            let cap128: u128 = rhs / 1000;
            proof {
                assert(rhs / 1000 < mag as int) by (nonlinear_arith)
                    requires
                        rhs < (mag as int) * 1000,
                        0 <= rhs,
                        0 <= mag,
                ;
            }
            let cap: u64 = cap128 as u64;
            if needed_pos {
                self.velocity = self.velocity + cap as i64;
                self.max_accel
            } else {
                self.velocity = self.velocity - cap as i64;
                -self.max_accel
            }
        }
    }
}

/// The displacement one tick of held velocity produces, truncated toward
/// zero, in milli-units.
pub open spec fn spec_displacement(velocity: i64, delta_ms: u64) -> int {
    if velocity >= 0 {
        velocity * delta_ms / 1000
    } else {
        -((-velocity) * delta_ms / 1000)
    }
}

/// Clamp a position onto the lift's travel bounds.
pub open spec fn spec_clamp(y: int, limits: LiftLimits) -> int {
    if y < limits.min {
        limits.min as int
    } else if y > limits.max {
        limits.max as int
    } else {
        y
    }
}

/// One fixed tick of lift motion: advance the car by its velocity, clamped
/// to the travel bounds. Returns the new height and the observed velocity
/// (the distance actually covered per second, used for telemetry only).
pub fn move_lift_step(lift_y: i64, velocity: i64, delta_ms: u64, limits: &LiftLimits) -> (r: (
    i64,
    i64,
))
    requires
        limits.wf(),
        -MAX_POS <= lift_y <= MAX_POS,
        -MAX_VEL <= velocity <= MAX_VEL,
        1 <= delta_ms <= MAX_TIME_PER_DAY_MS,
    ensures
        r.0 == spec_clamp(lift_y + spec_displacement(velocity, delta_ms), *limits),
        -MAX_POS <= r.0 <= MAX_POS,
        r.1 == dist(r.0 as int, lift_y as int) * 1000 / delta_ms as int,
        r.1 >= 0,
{
    let vel_mag: u64 = if velocity >= 0 {
        velocity as u64
    } else {
        (-velocity) as u64
    };
    proof {
        assert((vel_mag as int) * (delta_ms as int) <= 1_000_000_000 * 1_000_000_000_000
            && (vel_mag as int) * (delta_ms as int) >= 0) by (nonlinear_arith)
            requires
                0 <= vel_mag <= 1_000_000_000,
                0 <= delta_ms <= 1_000_000_000_000,
        ;
    }
    let disp_mag: u128 = (vel_mag as u128) * (delta_ms as u128) / 1000;
    let disp: i128 = if velocity >= 0 {
        disp_mag as i128
    } else {
        -(disp_mag as i128)
    };
    let raw: i128 = (lift_y as i128) + disp;
    let new_y: i64 = if raw < limits.min as i128 {
        limits.min
    } else if raw > limits.max as i128 {
        limits.max
    } else {
        raw as i64
    };
    let moved: u64 = if new_y >= lift_y {
        (new_y - lift_y) as u64
    } else {
        (lift_y - new_y) as u64
    };
    proof {
        assert((moved as int) * 1000 / (delta_ms as int) <= (moved as int) * 1000)
            by (nonlinear_arith)
            requires
                1 <= delta_ms,
                0 <= moved,
        ;
    }
    let observed: u64 = ((moved as u128) * 1000 / (delta_ms as u128)) as u64;
    (new_y, observed as i64)
}

} // verus!
