use lift_sim::floors::Floors;
use lift_sim::lift::LiftMode;
use lift_sim::proximity::{floor_proximity_step, FloorProximity, FloorProximitySensor};

fn sensor() -> FloorProximitySensor {
    // 10 units distance, 2.5 units/s speed, 2 s dwell, in fixed point.
    FloorProximitySensor {
        abs_distance_threshold: 10_000,
        max_velocity: 2_500,
        floor_timer_duration_ms: 2000,
    }
}

fn one_floor() -> Floors {
    // One floor at 100.2 units.
    Floors { floor_y_positions: vec![(0, 100_200)] }
}

#[test]
fn dwell_completion_opens_doors_and_fires_once() {
    let floors = one_floor();
    let sensor = sensor();
    let mut proximity: Option<FloorProximity> = None;
    let mut mode = LiftMode::Free;
    let lift_y = 100_000;  // 100 units: 0.2 units from the floor.
    let mut transfers = 0;

    // First tick attaches the proximity without ticking its timer.
    let t = floor_proximity_step(&mut proximity, &mut mode, &floors, &sensor, lift_y, 0, 500);
    assert!(!t);
    assert!(matches!(mode, LiftMode::Free));
    assert_eq!(proximity.as_ref().unwrap().floor_num, 0);

    // 1.5 s of dwell: still opening.
    for _ in 0..3 {
        let t = floor_proximity_step(&mut proximity, &mut mode, &floors, &sensor, lift_y, 0, 500);
        if t {
            transfers += 1;
        }
        assert!(matches!(mode, LiftMode::Opening));
    }
    assert_eq!(transfers, 0);

    // The tick that completes the dwell opens the doors and fires the
    // transfer, exactly once.
    let t = floor_proximity_step(&mut proximity, &mut mode, &floors, &sensor, lift_y, 0, 500);
    assert!(t);
    assert!(matches!(mode, LiftMode::Open));

    // Staying docked keeps the doors open without re-firing.
    for _ in 0..5 {
        let t = floor_proximity_step(&mut proximity, &mut mode, &floors, &sensor, lift_y, 0, 500);
        assert!(!t);
        assert!(matches!(mode, LiftMode::Open));
    }
}

#[test]
fn breaking_the_conditions_resets_the_dwell() {
    let floors = one_floor();
    let sensor = sensor();
    let mut proximity: Option<FloorProximity> = None;
    let mut mode = LiftMode::Free;
    let lift_y = 100_000;

    floor_proximity_step(&mut proximity, &mut mode, &floors, &sensor, lift_y, 0, 500);
    floor_proximity_step(&mut proximity, &mut mode, &floors, &sensor, lift_y, 0, 1500);
    assert!(matches!(mode, LiftMode::Opening));

    // One fast tick (2.5 units/s is not below the threshold) resets.
    floor_proximity_step(&mut proximity, &mut mode, &floors, &sensor, lift_y, 2_500, 500);
    assert!(matches!(mode, LiftMode::Free));
    assert_eq!(proximity.as_ref().unwrap().time_in_proximity.elapsed_ms, 0);

    // The dwell must start over: 1.5 s is not enough again.
    floor_proximity_step(&mut proximity, &mut mode, &floors, &sensor, lift_y, 0, 1500);
    assert!(matches!(mode, LiftMode::Opening));
    let t = floor_proximity_step(&mut proximity, &mut mode, &floors, &sensor, lift_y, 0, 500);
    assert!(t);
    assert!(matches!(mode, LiftMode::Open));
}

#[test]
fn moving_too_far_from_the_floor_resets_the_dwell() {
    let floors = one_floor();
    let sensor = sensor();
    let mut proximity: Option<FloorProximity> = None;
    let mut mode = LiftMode::Free;

    floor_proximity_step(&mut proximity, &mut mode, &floors, &sensor, 100_000, 0, 500);
    floor_proximity_step(&mut proximity, &mut mode, &floors, &sensor, 100_000, 0, 1000);
    assert!(matches!(mode, LiftMode::Opening));

    // 20 units away breaks close_enough.
    floor_proximity_step(&mut proximity, &mut mode, &floors, &sensor, 120_200, 0, 500);
    assert!(matches!(mode, LiftMode::Free));
    assert_eq!(proximity.as_ref().unwrap().time_in_proximity.elapsed_ms, 0);
}

#[test]
fn closest_floor_prefers_the_earliest_on_ties() {
    let floors = Floors { floor_y_positions: vec![(0, 0), (1, 60_000), (2, 120_000)] };
    assert_eq!(floors.closest_floor(29_000), Some((0, 0)));
    assert_eq!(floors.closest_floor(30_000), Some((0, 0)));
    assert_eq!(floors.closest_floor(31_000), Some((1, 60_000)));
    assert_eq!(floors.closest_floor(1_000_000), Some((2, 120_000)));
    let empty = Floors { floor_y_positions: vec![] };
    assert_eq!(empty.closest_floor(0), None);
}
