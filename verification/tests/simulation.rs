//! Headless end-to-end run: build a small level, drive the lift to a floor,
//! dock, pick a passenger up, then deliver them to their destination.

use lift_sim::layout::build_floor_layout;
use lift_sim::lift::{move_lift_step, LiftMode, LinearVelocity};
use lift_sim::lift_store::LiftHumanStore;
use lift_sim::human_store::HumanStore;
use lift_sim::proximity::{floor_proximity_step, FloorProximity, FloorProximitySensor};
use lift_sim::transfer::transfer_at_floor;

#[test]
fn lift_picks_up_and_delivers_across_floors() {
    // Three regular floors on 60-unit tiles, map origin at the world origin.
    let layout = build_floor_layout(3, 12, 60_000, 0, 0);
    assert_eq!(layout.floors.floor_y_positions.len(), 5);
    assert_eq!(layout.lift_limits.min, 60_000);
    assert_eq!(layout.lift_limits.max, 180_000);
    assert_eq!(layout.shaft_centre_x.0, 720_000);

    let mut floor_stores: Vec<HumanStore> =
        layout.floor_stores.into_iter().map(|(_, s)| s).collect();
    // One passenger waits on floor 1, wanting floor 2.
    assert!(floor_stores[1].spawn_arrival(2));

    let sensor = FloorProximitySensor {
        abs_distance_threshold: 10_000,
        max_velocity: 2_500,
        floor_timer_duration_ms: 2000,
    };
    let mut velocity = LinearVelocity::new((-100_000, 100_000), 100_000);
    let mut lift_y: i64 = 60_000;  // parked at floor 1
    let mut proximity: Option<FloorProximity> = None;
    let mut mode = LiftMode::Free;
    let mut held = LiftHumanStore::create();

    let mut run_until_transfer = |lift_y: &mut i64,
                                  velocity: &mut LinearVelocity,
                                  proximity: &mut Option<FloorProximity>,
                                  mode: &mut LiftMode,
                                  target_vel: i64,
                                  target_floor_y: i64|
     -> u32 {
        let mut transfers = 0;
        for _ in 0..600 {
            // Command the lift toward the target until it is close, then stop.
            let want = if (*lift_y - target_floor_y).abs() > 5_000 { target_vel } else { 0 };
            velocity.update(want, 100);
            let (new_y, _) = move_lift_step(*lift_y, velocity.velocity, 100, &layout.lift_limits);
            *lift_y = new_y;
            let t = floor_proximity_step(
                proximity,
                mode,
                &layout.floors,
                &sensor,
                *lift_y,
                velocity.velocity,
                100,
            );
            if t {
                transfers += 1;
            }
        }
        transfers
    };

    // Sit at floor 1 long enough to dock; the transfer fires exactly once.
    let transfers =
        run_until_transfer(&mut lift_y, &mut velocity, &mut proximity, &mut mode, 0, 60_000);
    assert_eq!(transfers, 1);
    assert!(matches!(mode, LiftMode::Open));
    let delivered = transfer_at_floor(&mut held, &mut floor_stores[1], 1);
    assert!(delivered.is_empty());
    assert_eq!(held.free_capacity(), 5);
    assert!(floor_stores[1].humans.is_empty());

    // Ride up to floor 2 and dock there; the passenger gets off.
    let transfers = run_until_transfer(
        &mut lift_y,
        &mut velocity,
        &mut proximity,
        &mut mode,
        20_000,
        120_000,
    );
    assert_eq!(transfers, 1);
    let delivered = transfer_at_floor(&mut held, &mut floor_stores[2], 2);
    assert_eq!(delivered.len(), 1);
    assert_eq!(held.free_capacity(), 6);
}
