use lift_sim::lift::{move_lift_step, LiftLimits, LinearVelocity};

#[test]
fn velocity_snaps_to_target_when_within_accel_budget() {
    // Velocities in milli-units per second: bounds +-100 units/s, max accel
    // 100 units/s/s, as the lift is built with.
    let mut v = LinearVelocity::new((-100_000, 100_000), 100_000);
    // Over 1 s the budget is 100 units/s of change; a 50 unit/s target fits.
    let accel = v.update(50_000, 1000);
    assert_eq!(v.velocity, 50_000);
    assert_eq!(accel, 50_000);
}

#[test]
fn velocity_saturates_at_max_accel() {
    let mut v = LinearVelocity::new((-100_000, 100_000), 100_000);
    // Over 0.5 s the budget is 50 units/s of change; a 80 unit/s target
    // saturates: the velocity moves by exactly max_accel * delta.
    let accel = v.update(80_000, 500);
    assert_eq!(v.velocity, 50_000);
    assert_eq!(accel, 100_000);
    // Downward saturation mirrors it.
    let accel = v.update(-80_000, 500);
    assert_eq!(v.velocity, 0);
    assert_eq!(accel, -100_000);
}

#[test]
fn velocity_snap_returns_unclamped_acceleration() {
    let mut v = LinearVelocity::new((-100_000, 100_000), 100_000);
    // -30 units/s over 2 s needs only 15 units/s/s.
    let accel = v.update(-30_000, 2000);
    assert_eq!(v.velocity, -30_000);
    assert_eq!(accel, -15_000);
}

#[test]
fn position_step_clamps_to_lift_limits() {
    let limits = LiftLimits { min: 0, max: 600_000 };
    // 10 units/s for 1 s from 595 units hits the 600 unit ceiling.
    let (y, observed) = move_lift_step(595_000, 10_000, 1000, &limits);
    assert_eq!(y, 600_000);
    assert_eq!(observed, 5_000);
    // Unclamped motion covers exactly velocity * delta.
    let (y, observed) = move_lift_step(100_000, -20_000, 500, &limits);
    assert_eq!(y, 90_000);
    assert_eq!(observed, 20_000);
}
