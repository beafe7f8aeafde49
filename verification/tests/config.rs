use lift_sim::floor_config::{FloorConfigError, HourOfDay, RawFloorConfig, SinkOrSource};
use lift_sim::floors::FloorNum;
use lift_sim::prefabs;

#[test]
fn exact_tiling_is_accepted_and_resolves_per_hour() {
    let tags = vec![
        (0u8..6u8, SinkOrSource::Sink),
        (6u8..18u8, SinkOrSource::Source),
        (18u8..24u8, SinkOrSource::Sink),
    ];
    let strengths = vec![(0u8..12u8, 4usize), (12u8..24u8, 9usize)];
    let config = RawFloorConfig::new(tags, strengths).unwrap();
    for h in 0..24u8 {
        let resolved = config.resolve(HourOfDay(h), FloorNum(3));
        let expected_tag = if h < 6 {
            SinkOrSource::Sink
        } else if h < 18 {
            SinkOrSource::Source
        } else {
            SinkOrSource::Sink
        };
        let expected_strength = if h < 12 { 4 } else { 9 };
        assert_eq!(resolved.sink_or_source, expected_tag);
        assert_eq!(resolved.strength, expected_strength);
        assert_eq!(resolved.floor_num, FloorNum(3));
    }
}

#[test]
fn gap_reports_first_unset_hour() {
    let tags = vec![(0u8..6u8, SinkOrSource::Sink), (8u8..24u8, SinkOrSource::Source)];
    let strengths = vec![(0u8..24u8, 1usize)];
    let err = RawFloorConfig::new(tags, strengths).unwrap_err();
    assert_eq!(err, FloorConfigError::RangeGap(6));
}

#[test]
fn overlap_reports_first_hour_set_twice() {
    let tags = vec![(0u8..10u8, SinkOrSource::Sink), (7u8..24u8, SinkOrSource::Source)];
    let strengths = vec![(0u8..24u8, 1usize)];
    let err = RawFloorConfig::new(tags, strengths).unwrap_err();
    assert_eq!(err, FloorConfigError::RangeOverlap(7));
}

#[test]
fn strength_table_is_validated_after_tags() {
    let tags = vec![(0u8..24u8, SinkOrSource::Source)];
    let strengths = vec![(0u8..20u8, 1usize)];
    let err = RawFloorConfig::new(tags, strengths).unwrap_err();
    assert_eq!(err, FloorConfigError::RangeGap(20));
}

#[test]
fn prefabs_tile_the_day() {
    let config = RawFloorConfig::new(prefabs::ground_floor_source(), prefabs::normal_hours(1, 10));
    let config = config.unwrap();
    let morning = config.resolve(HourOfDay(8), FloorNum(0));
    assert_eq!(morning.sink_or_source, SinkOrSource::Source);
    assert_eq!(morning.strength, 1);
    let midday = config.resolve(HourOfDay(12), FloorNum(0));
    assert_eq!(midday.sink_or_source, SinkOrSource::Sink);
    assert_eq!(midday.strength, 10);
    let rush = config.resolve(HourOfDay(16), FloorNum(0));
    assert_eq!(rush.sink_or_source, SinkOrSource::Source);
    let evening = config.resolve(HourOfDay(20), FloorNum(0));
    assert_eq!(evening.sink_or_source, SinkOrSource::Sink);
}

#[test]
fn generated_floor_configs_follow_the_default_tables() {
    let ground = prefabs::generate_config_of_floor_num(0);
    assert_eq!(ground.resolve(HourOfDay(9), FloorNum(0)).sink_or_source, SinkOrSource::Source);
    assert_eq!(ground.resolve(HourOfDay(9), FloorNum(0)).strength, 15);
    assert_eq!(ground.resolve(HourOfDay(3), FloorNum(0)).strength, 2);

    let basement = prefabs::generate_config_of_floor_num(-2);
    assert_eq!(basement.resolve(HourOfDay(3), FloorNum(-2)).sink_or_source, SinkOrSource::Source);
    assert_eq!(basement.resolve(HourOfDay(14), FloorNum(-2)).sink_or_source, SinkOrSource::Sink);

    let tower_even = prefabs::generate_config_of_floor_num(2);
    assert_eq!(tower_even.resolve(HourOfDay(0), FloorNum(2)).sink_or_source, SinkOrSource::Sink);
    assert_eq!(tower_even.resolve(HourOfDay(2), FloorNum(2)).sink_or_source, SinkOrSource::Source);
    let tower_odd = prefabs::generate_config_of_floor_num(3);
    assert_eq!(tower_odd.resolve(HourOfDay(0), FloorNum(3)).sink_or_source, SinkOrSource::Source);
    assert_eq!(tower_odd.resolve(HourOfDay(2), FloorNum(3)).sink_or_source, SinkOrSource::Sink);
}

#[test]
fn alternating_prefab_switches_every_two_hours() {
    let config = RawFloorConfig::new(prefabs::alternating_sink(true), prefabs::normal_hours(1, 2));
    let config = config.unwrap();
    for h in 0..24u8 {
        let expected = if (h / 2) % 2 == 0 { SinkOrSource::Sink } else { SinkOrSource::Source };
        assert_eq!(config.resolve(HourOfDay(h), FloorNum(1)).sink_or_source, expected);
    }
}
