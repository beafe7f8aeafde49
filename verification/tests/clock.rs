use lift_sim::game_clock::{GameTime, TimeOfDay};
use lift_sim::timer::SimTimer;

#[test]
fn elapsed_time_maps_onto_the_24_hour_clock() {
    let mut clock = GameTime::new();
    assert_eq!(clock.to_game_time_of_day(), TimeOfDay { hour: 0, minute: 0 });

    // A 240 s day makes one hour 10 s long.
    clock.tick(10_000);
    assert_eq!(clock.to_game_time_of_day(), TimeOfDay { hour: 1, minute: 0 });
    clock.tick(5_000);
    assert_eq!(clock.to_game_time_of_day(), TimeOfDay { hour: 1, minute: 30 });
    clock.tick(119_000);
    assert_eq!(clock.to_game_time_of_day(), TimeOfDay { hour: 13, minute: 24 });
}

#[test]
fn day_completes_once_and_caps() {
    let mut clock = GameTime::with_time_per_day(1000);
    assert!(!clock.tick(999));
    assert!(clock.tick(1));
    // Further ticks are no-ops on a completed one-shot day.
    assert!(clock.tick(500));
    assert_eq!(clock.elapsed_ms(), 1000);
    assert_eq!(clock.to_game_time_of_day().hour, 24);
}

#[test]
fn one_shot_timer_finishes_exactly_once() {
    let mut timer = SimTimer::new(1000);
    assert!(!timer.tick(400));
    assert!(!timer.finished());
    assert_eq!(timer.remaining_ms(), 600);
    assert!(timer.tick(600));
    assert!(timer.finished());
    // Already finished: no second completion signal.
    assert!(!timer.tick(100));
    assert_eq!(timer.elapsed_ms, 1000);
    timer.reset();
    assert!(!timer.finished());
    assert_eq!(timer.elapsed_ms, 0);
}
