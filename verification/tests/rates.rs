use lift_sim::floor_config::{HourOfDay, ResolvedFloorConfig, SinkOrSource};
use lift_sim::floors::FloorNum;
use lift_sim::spawn_rates::{
    dest_weight, pick_weighted_index, spawn_fires, FloorSpawnRates, SpawnRate,
};

fn resolved(floor: i32, tag: SinkOrSource, strength: usize) -> ResolvedFloorConfig {
    ResolvedFloorConfig { sink_or_source: tag, strength, floor_num: FloorNum(floor) }
}

fn rate_of(rates: &FloorSpawnRates, floor: i32) -> SpawnRate {
    let mut found = None;
    for (f, r) in rates.floors_with_rates.iter() {
        if f.0 == floor {
            found = Some(*r);
        }
    }
    found.expect("floor should carry a rate")
}

#[test]
fn sinks_get_rate_zero_and_sources_strength_over_sink_count() {
    let floors = vec![
        resolved(0, SinkOrSource::Source, 10),
        resolved(1, SinkOrSource::Sink, 2),
        resolved(2, SinkOrSource::Sink, 7),
        resolved(3, SinkOrSource::Source, 3),
    ];
    let rates = FloorSpawnRates::get_rates(floors, HourOfDay(5));
    assert_eq!(rates.resolved_for_hour, HourOfDay(5));
    assert_eq!(rate_of(&rates, 1), SpawnRate { num: 0, den: 1 });
    assert_eq!(rate_of(&rates, 2), SpawnRate { num: 0, den: 1 });
    assert_eq!(rate_of(&rates, 0), SpawnRate { num: 10, den: 2 });
    assert_eq!(rate_of(&rates, 3), SpawnRate { num: 3, den: 2 });
}

#[test]
fn sinks_are_sorted_descending_by_strength() {
    let floors = vec![
        resolved(0, SinkOrSource::Sink, 2),
        resolved(1, SinkOrSource::Sink, 9),
        resolved(2, SinkOrSource::Source, 1),
        resolved(3, SinkOrSource::Sink, 5),
    ];
    let rates = FloorSpawnRates::get_rates(floors, HourOfDay(0));
    let strengths: Vec<usize> = rates.sinks.0.iter().map(|s| s.strength).collect();
    assert_eq!(strengths, vec![9, 5, 2]);
    let floors_order: Vec<i32> = rates.sinks.0.iter().map(|s| s.floor_num.0).collect();
    assert_eq!(floors_order, vec![1, 3, 0]);
}

#[test]
fn equal_strength_sinks_keep_their_input_order() {
    let floors = vec![
        resolved(4, SinkOrSource::Sink, 3),
        resolved(7, SinkOrSource::Sink, 3),
        resolved(1, SinkOrSource::Sink, 3),
    ];
    let rates = FloorSpawnRates::get_rates(floors, HourOfDay(0));
    let floors_order: Vec<i32> = rates.sinks.0.iter().map(|s| s.floor_num.0).collect();
    assert_eq!(floors_order, vec![4, 7, 1]);
}

#[test]
fn no_sinks_forces_every_rate_to_zero() {
    let floors = vec![
        resolved(0, SinkOrSource::Source, 10),
        resolved(1, SinkOrSource::Source, 5),
    ];
    let rates = FloorSpawnRates::get_rates(floors, HourOfDay(0));
    assert_eq!(rate_of(&rates, 0), SpawnRate { num: 0, den: 1 });
    assert_eq!(rate_of(&rates, 1), SpawnRate { num: 0, den: 1 });
    assert!(rates.sinks.0.is_empty());
}

#[test]
fn spawn_roll_threshold_is_exact() {
    // Rate 1/2 per hour over one second of a 240 s day: the chance is
    // 0.5 * (24 / 240) = 1/20, so exactly the rolls strictly below
    // 2^32 / 20 = 214748364.8 fire.
    let rate = SpawnRate { num: 1, den: 2 };
    let last_firing: u64 = 214_748_364;
    assert!(spawn_fires(&rate, 1000, 240_000, last_firing));
    assert!(!spawn_fires(&rate, 1000, 240_000, last_firing + 1));
    // A zero rate never fires, whatever the roll.
    let zero = SpawnRate { num: 0, den: 1 };
    assert!(!spawn_fires(&zero, 1000, 240_000, 0));
    // A saturated chance fires on every roll.
    let ten = SpawnRate { num: 10, den: 1 };
    assert!(spawn_fires(&ten, 1000, 240_000, 4_294_967_295));
}

#[test]
fn destination_weights_penalize_adjacent_floors() {
    let sink = resolved(5, SinkOrSource::Sink, 7);
    // Two or more floors away: twice the strength (weights are doubled to
    // stay integral).
    assert_eq!(dest_weight(&sink, FloorNum(0)), 14);
    assert_eq!(dest_weight(&sink, FloorNum(3)), 14);
    // The sink itself and its neighbours get the fixed half weight.
    assert_eq!(dest_weight(&sink, FloorNum(4)), 1);
    assert_eq!(dest_weight(&sink, FloorNum(5)), 1);
    assert_eq!(dest_weight(&sink, FloorNum(6)), 1);
}

#[test]
fn weighted_pick_lands_in_the_cumulative_window() {
    let weights = vec![3u64, 0, 5, 2];
    assert_eq!(pick_weighted_index(&weights, 0), 0);
    assert_eq!(pick_weighted_index(&weights, 2), 0);
    // The zero-weight entry can never be picked.
    assert_eq!(pick_weighted_index(&weights, 3), 2);
    assert_eq!(pick_weighted_index(&weights, 7), 2);
    assert_eq!(pick_weighted_index(&weights, 8), 3);
    assert_eq!(pick_weighted_index(&weights, 9), 3);
}
