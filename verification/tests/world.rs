use lift_sim::rng::SimRng;
use lift_sim::world_gen::{Class, Floor, FloorKind, Level, LevelKind};

#[test]
fn basic_test() {
    let mut rng = SimRng::from_seed(1337);
    let level = Level::create(LevelKind::Hotel, Class::Two, &mut rng);

    let expected = {
        let num_floors = 15;
        let mut floors = Vec::new();
        for i in 0..num_floors {
            floors.push(Floor::new(i, FloorKind::Regular));
        }
        Level { kind: LevelKind::Hotel, floors, class: Class::Two }
    };
    assert_eq!(level, expected);
}

#[test]
fn floor_count_stays_in_class_range() {
    for seed in 0..50u64 {
        let mut rng = SimRng::from_seed(seed);
        let level = Level::create(LevelKind::Hotel, Class::Four, &mut rng);
        assert!(level.floors.len() >= 40);
        assert!(level.floors.len() < 100);
    }
}
