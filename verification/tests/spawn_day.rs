use lift_sim::floor_config::{RawFloorConfig, SinkOrSource};
use lift_sim::floors::FloorNum;
use lift_sim::game_clock::GameTime;
use lift_sim::oneshot::run_spawn_day;
use lift_sim::prefabs;
use lift_sim::rng::SimRng;
use lift_sim::spawn_manager::FloorSpawnManager;

#[test]
fn full_day_spawn_count_tracks_the_configured_rate() {
    // One all-day source of strength 10 and one all-day sink of strength 1:
    // the source rate is 10 per simulated hour, so a 240 s day ticked once a
    // second expects about 10 * 24 = 240 spawns.
    let source =
        RawFloorConfig::new(prefabs::always(SinkOrSource::Source), prefabs::always(10)).unwrap();
    let sink =
        RawFloorConfig::new(prefabs::always(SinkOrSource::Sink), prefabs::always(1)).unwrap();
    let mut manager =
        FloorSpawnManager::new(vec![(FloorNum(0), source), (FloorNum(5), sink)]);
    let mut clock = GameTime::new();
    assert_eq!(clock.config().time_per_day_ms, 240_000);
    let mut rng = SimRng::from_seed(42);

    let records = run_spawn_day(&mut manager, &mut clock, 1000, &mut rng);

    let expected = 240i64;
    let count = records.len() as i64;
    assert!(
        (count - expected).abs() <= expected / 10,
        "spawn count {} strays too far from the expected {}",
        count,
        expected
    );
    for r in records.iter() {
        assert_eq!(r.origin, FloorNum(0));
        assert_eq!(r.destination, FloorNum(5));
        assert!(r.elapsed_secs < 240);
    }
    // Timestamps never step backwards.
    for pair in records.windows(2) {
        assert!(pair[0].elapsed_secs <= pair[1].elapsed_secs);
    }
}

#[test]
fn sources_without_sinks_never_spawn() {
    let source =
        RawFloorConfig::new(prefabs::always(SinkOrSource::Source), prefabs::always(10)).unwrap();
    let mut manager = FloorSpawnManager::new(vec![(FloorNum(0), source)]);
    let mut clock = GameTime::new();
    let mut rng = SimRng::from_seed(7);
    let records = run_spawn_day(&mut manager, &mut clock, 1000, &mut rng);
    assert!(records.is_empty());
}

#[test]
fn hour_change_re_resolves_the_rates() {
    // A floor that flips from sink to source at noon.
    let flipping =
        RawFloorConfig::new(prefabs::afternoon_sink(), prefabs::always(6)).unwrap();
    let always_sink =
        RawFloorConfig::new(prefabs::always(SinkOrSource::Sink), prefabs::always(1)).unwrap();
    let mut manager =
        FloorSpawnManager::new(vec![(FloorNum(0), flipping), (FloorNum(9), always_sink)]);
    let mut clock = GameTime::new();
    let mut rng = SimRng::from_seed(3);

    // Before noon floor 0 is a source: rates resolved for hour 0.
    manager.tick(&clock, 1000, &mut rng);
    assert_eq!(manager.floor_spawn_rates.resolved_for_hour.0, 0);
    assert_eq!(manager.floor_spawn_rates.sinks.0.len(), 1);

    // Advance the clock to the afternoon; the next tick re-resolves and
    // floor 0 becomes a second sink.
    clock.tick(130_000);
    manager.tick(&clock, 1000, &mut rng);
    assert_eq!(manager.floor_spawn_rates.resolved_for_hour.0, 13);
    assert_eq!(manager.floor_spawn_rates.sinks.0.len(), 2);
}

#[test]
fn each_floor_spawns_at_most_once_per_tick() {
    // Two saturated all-day sources (strength 10 over a 240 s day fires on
    // every roll of a one-second tick) and one sink: every tick emits
    // exactly one spawn per source, never a duplicate origin.
    let source_a =
        RawFloorConfig::new(prefabs::always(SinkOrSource::Source), prefabs::always(10)).unwrap();
    let source_b =
        RawFloorConfig::new(prefabs::always(SinkOrSource::Source), prefabs::always(10)).unwrap();
    let sink =
        RawFloorConfig::new(prefabs::always(SinkOrSource::Sink), prefabs::always(1)).unwrap();
    let mut manager = FloorSpawnManager::new(vec![
        (FloorNum(0), source_a),
        (FloorNum(3), source_b),
        (FloorNum(7), sink),
    ]);
    let clock = GameTime::new();
    let mut rng = SimRng::from_seed(11);
    for _ in 0..20 {
        let spawns = manager.tick(&clock, 1000, &mut rng);
        let mut origins: Vec<i32> = spawns.iter().map(|(o, _)| o.0).collect();
        origins.sort();
        assert_eq!(origins, vec![0, 3]);
    }
}
